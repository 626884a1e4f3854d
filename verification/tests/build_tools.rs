use worldsong::text::{push_decimal, str_lt};
use worldsong::tooling::{
    creation_tolerated, dependency_manifest_paths, removal_tolerated, schedule_compile_args,
    state_library_build_commands, IoOutcome,
};

fn strings(v: &[&str]) -> Vec<String> {
    v.iter().map(|s| s.to_string()).collect()
}

#[test]
fn tolerated_outcomes() {
    assert!(removal_tolerated(IoOutcome::Done));
    assert!(removal_tolerated(IoOutcome::NotFound));
    assert!(!removal_tolerated(IoOutcome::AlreadyExists));
    assert!(!removal_tolerated(IoOutcome::Failed));
    assert!(creation_tolerated(IoOutcome::Done));
    assert!(creation_tolerated(IoOutcome::AlreadyExists));
    assert!(!creation_tolerated(IoOutcome::NotFound));
    assert!(!creation_tolerated(IoOutcome::Failed));
}

#[test]
fn manifests_are_looked_for_in_structs_kernel_and_scheduler() {
    assert_eq!(
        dependency_manifest_paths("/ws", &strings(&["/ws/structs/core"])),
        strings(&[
            "/ws/structs/core/Dependencies.toml",
            "/ws/kernel/Dependencies.toml",
            "/ws/scheduler/Dependencies.toml",
        ])
    );
}

#[test]
fn schedule_is_compiled_against_common_and_processes() {
    assert_eq!(
        schedule_compile_args(
            &strings(&["/ws/common/target/debug"]),
            &strings(&["/ws/processes/a/target", "/ws/processes/b/target"]),
            "dylib",
            "fixed_update.rs",
        ),
        strings(&[
            "-L",
            "/ws/common/target/debug",
            "-L",
            "/ws/processes/a/target",
            "-L",
            "/ws/processes/b/target",
            "--out-dir",
            "./target",
            "--crate-type=dylib",
            "-C",
            "prefer-dynamic",
            "fixed_update.rs",
        ])
    );
}

#[test]
fn rebuild_runs_cargo_then_every_compile_script() {
    let cmds = state_library_build_commands(
        "/ws",
        true,
        &strings(&["/ws/processes/graphics"]),
        &strings(&["/ws/schedules/fixed_update"]),
    );
    let got: Vec<(String, Option<String>, Vec<String>)> =
        cmds.into_iter().map(|c| (c.program, c.cwd, c.args)).collect();
    let want = vec![
        ("cargo".to_string(), Some("/ws/state".to_string()), strings(&["update"])),
        ("cargo".to_string(), Some("/ws/state".to_string()), strings(&["build"])),
        ("/ws/processes/graphics/compile".to_string(), None, strings(&["-c"])),
        ("/ws/schedules/fixed_update/compile".to_string(), None, strings(&["-c"])),
        ("/ws/scheduler/compile".to_string(), None, strings(&["-c"])),
        ("/ws/kernel/compile".to_string(), None, strings(&["-c"])),
    ];
    assert_eq!(got, want);
}

#[test]
fn rebuild_without_update() {
    let cmds = state_library_build_commands("/ws", false, &Vec::new(), &Vec::new());
    assert_eq!(cmds.len(), 3);
    assert_eq!(cmds[0].args, strings(&["build"]));
}

fn decimal_string(n: u128) -> String {
    let mut s = String::from("n=");
    push_decimal(&mut s, n);
    s[2..].to_string()
}

#[test]
fn decimal_rendering() {
    assert_eq!(decimal_string(0), "0");
    assert_eq!(decimal_string(7), "7");
    assert_eq!(decimal_string(10), "10");
    assert_eq!(decimal_string(1234567890), "1234567890");
    assert_eq!(decimal_string(u128::MAX), u128::MAX.to_string());
}

#[test]
fn string_order_is_by_code_point() {
    assert!(str_lt("alpha", "beta"));
    assert!(!str_lt("beta", "alpha"));
    assert!(str_lt("ab", "abc"));
    assert!(!str_lt("abc", "abc"));
    assert!(str_lt("Z", "a"));
    assert!(str_lt("a", "é"));
}
