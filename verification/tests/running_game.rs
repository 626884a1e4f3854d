use worldsong::processes::{
    fixed_update, kernel_step, variable_update, CoreState, Data, InputEvent, Key, KernelAction,
    KernelFlags, SimulationState, WindowState,
};

fn data(quit: bool, load: bool, first_focus: bool) -> Data {
    Data {
        kernel: KernelFlags { quit, load_processes: load },
        window: WindowState { first_focus },
        sim: SimulationState { color_r: 10, color_g: 20, color_b: 30 },
    }
}

#[test]
fn kernel_quits_before_anything_else() {
    let mut core = CoreState { quit: true, reload: true, reset: true };
    assert_eq!(kernel_step(&mut core), KernelAction::Quit);
    assert_eq!(core, CoreState { quit: true, reload: true, reset: true });
}

#[test]
fn kernel_reloads_then_resets() {
    let mut core = CoreState { quit: false, reload: true, reset: true };
    assert_eq!(kernel_step(&mut core), KernelAction::ReloadScheduler);
    assert_eq!(core, CoreState { quit: false, reload: false, reset: true });
    assert_eq!(kernel_step(&mut core), KernelAction::ResetData);
    assert_eq!(core, CoreState { quit: false, reload: false, reset: false });
    assert_eq!(kernel_step(&mut core), KernelAction::Continue);
    assert_eq!(core, CoreState { quit: false, reload: false, reset: false });
}

#[test]
fn quit_event_and_escape_ask_to_quit() {
    let mut d = data(false, false, true);
    variable_update(&mut d, InputEvent::Quit);
    assert_eq!(d, data(true, false, true));
    let mut d = data(false, false, false);
    variable_update(&mut d, InputEvent::KeyDown(Key::Escape));
    assert_eq!(d, data(true, false, false));
    let mut d = data(false, false, false);
    variable_update(&mut d, InputEvent::KeyDown(Key::Other));
    assert_eq!(d, data(false, false, false));
}

#[test]
fn first_focus_is_ignored_later_ones_reload_processes() {
    let mut d = data(false, false, true);
    variable_update(&mut d, InputEvent::FocusGained);
    assert_eq!(d, data(false, false, false));
    variable_update(&mut d, InputEvent::FocusGained);
    assert_eq!(d, data(false, true, false));
    variable_update(&mut d, InputEvent::FocusGained);
    assert_eq!(d, data(false, true, false));
    variable_update(&mut d, InputEvent::Other);
    assert_eq!(d, data(false, true, false));
}

#[test]
fn fixed_update_steps_the_colour() {
    let mut d = data(false, false, false);
    fixed_update(&mut d);
    assert_eq!(d.sim, SimulationState { color_r: 11, color_g: 19, color_b: 60 });
    assert_eq!(d.kernel, KernelFlags { quit: false, load_processes: false });
}
