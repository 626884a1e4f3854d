//! The decisions of the running game: what the kernel does after each run
//! of the scheduler, and what the graphics process does with an input event
//! and on each fixed step.

use vstd::prelude::*;

verus! {

/// The flags through which processes steer the kernel.
#[derive(Clone, Copy, Debug, PartialEq, Eq)]
pub struct CoreState {
    pub quit: bool,
    pub reload: bool,
    pub reset: bool,
}

/// What the kernel does after a run of the scheduler.
#[derive(Clone, Copy, Debug, PartialEq, Eq)]
pub enum KernelAction {
    /// Leave the main loop.
    Quit,
    /// Drop the scheduler library and load it again from disk.
    ReloadScheduler,
    /// The state would be reloaded here.
    ResetData,
    /// Run the scheduler again.
    Continue,
}

/// Decides what the kernel does after a run of the scheduler, and clears the
/// request it acts on. Quitting wins over reloading, reloading over resetting.
pub fn kernel_step(core: &mut CoreState) -> (action: KernelAction)
    ensures
        old(core).quit ==> action == KernelAction::Quit && *final(core) == *old(core),
        !old(core).quit && old(core).reload ==> action == KernelAction::ReloadScheduler
            && *final(core) == (CoreState { reload: false, ..*old(core) }),
        !old(core).quit && !old(core).reload && old(core).reset ==> action
            == KernelAction::ResetData && *final(core) == (CoreState { reset: false, ..*old(core) }),
        !old(core).quit && !old(core).reload && !old(core).reset ==> action
            == KernelAction::Continue && *final(core) == *old(core),
{
    if core.quit {
        KernelAction::Quit
    } else if core.reload {
        core.reload = false;
        KernelAction::ReloadScheduler
    } else if core.reset {
        core.reset = false;
        KernelAction::ResetData
    } else {
        KernelAction::Continue
    }
}

/// A key, as far as the graphics process tells keys apart.
#[derive(Clone, Copy, Debug, PartialEq, Eq)]
pub enum Key {
    Escape,
    Other,
}

/// An input event, as far as the graphics process tells events apart.
#[derive(Clone, Copy, Debug, PartialEq, Eq)]
pub enum InputEvent {
    /// The window was asked to close.
    Quit,
    /// A key was pressed.
    KeyDown(Key),
    /// The window gained the focus.
    FocusGained,
    /// Anything else, or no event at all.
    Other,
}

/// The kernel's flags that the graphics process sets.
#[derive(Clone, Copy, Debug, PartialEq, Eq)]
pub struct KernelFlags {
    pub quit: bool,
    pub load_processes: bool,
}

/// The window's state.
#[derive(Clone, Copy, Debug, PartialEq, Eq)]
pub struct WindowState {
    pub first_focus: bool,
}

/// The colour that the simulation clears the window with.
#[derive(Clone, Copy, Debug, PartialEq, Eq)]
pub struct SimulationState {
    pub color_r: u8,
    pub color_g: u8,
    pub color_b: u8,
}

/// The state that the graphics process reads and changes.
#[derive(Clone, Copy, Debug, PartialEq, Eq)]
pub struct Data {
    pub kernel: KernelFlags,
    pub window: WindowState,
    pub sim: SimulationState,
}

/// Handles one input event: closing the window or pressing escape asks the
/// kernel to quit; regaining the focus asks it to load the processes again,
/// except the first time the window gets the focus.
pub fn variable_update(data: &mut Data, event: InputEvent)
    ensures
        match event {
            InputEvent::Quit | InputEvent::KeyDown(Key::Escape) => *final(data) == (Data {
                kernel: KernelFlags { quit: true, ..old(data).kernel },
                ..*old(data)
            }),
            InputEvent::FocusGained => if old(data).window.first_focus {
                *final(data) == (Data { window: WindowState { first_focus: false }, ..*old(data) })
            } else {
                *final(data) == (Data {
                    kernel: KernelFlags { load_processes: true, ..old(data).kernel },
                    ..*old(data)
                })
            },
            _ => *final(data) == *old(data),
        },
{
    match event {
        InputEvent::Quit => data.kernel.quit = true,
        InputEvent::KeyDown(Key::Escape) => data.kernel.quit = true,
        InputEvent::KeyDown(Key::Other) => {},
        InputEvent::FocusGained => {
            if data.window.first_focus {
                data.window.first_focus = false;
                return;
            }
            if !data.kernel.load_processes {
                data.kernel.load_processes = true;
            }
        },
        InputEvent::Other => {},
    }
}

/// Advances the clear colour by one step: red up by one, green down by one,
/// blue doubled. A channel that would leave its range is outside what the
/// step is defined for.
pub fn fixed_update(data: &mut Data)
    requires
        old(data).sim.color_r < 255,
        old(data).sim.color_g > 0,
        old(data).sim.color_b <= 127,
    ensures
        final(data).sim.color_r == old(data).sim.color_r + 1,
        final(data).sim.color_g == old(data).sim.color_g - 1,
        final(data).sim.color_b == old(data).sim.color_b * 2,
        final(data).kernel == old(data).kernel,
        final(data).window == old(data).window,
{
    data.sim.color_r += 1;
    data.sim.color_g -= 1;
    data.sim.color_b *= 2;
}

} // verus!
