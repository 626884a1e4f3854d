use worldsong::hierarchy::{
    append_target_dir, get_add_process_tool_src_dir, get_add_process_tool_target_dir,
    get_add_state_struct_tool_dir, get_add_state_struct_tool_target_dir,
    get_all_process_target_dirs, get_all_schedule_target_dirs, get_all_struct_dep_dirs,
    get_all_struct_target_dirs, get_cargo_path, get_common_src_dir, get_common_target_dir,
    get_compile_config, get_compile_kernel_tool_src_dir, get_compile_kernel_tool_target_dir,
    get_compile_process_tool_src_dir, get_compile_process_tool_target_dir,
    get_compile_schedule_tool_src_dir, get_compile_schedule_tool_target_dir,
    get_compile_scheduler_tool_src_dir, get_compile_scheduler_tool_target_dir,
    get_compile_state_library_tool_src_dir, get_compile_state_library_tool_target_dir,
    get_compile_state_struct_tool_src_dir, get_compile_state_struct_tool_target_dir,
    get_generate_schedule_tags_binary, get_generate_schedule_tags_src_dir,
    get_generate_schedule_tags_target_dir, get_generate_state_library_tool_src_dir,
    get_generate_state_library_tool_target_dir, get_is_compiling_tag, get_kernel_src_dir,
    get_kernel_target_dir, get_new_state_struct_tool_src_dir,
    get_new_state_struct_tool_target_dir, get_processes_dir, get_run_kernel_tool_src_dir,
    get_run_kernel_tool_target_dir, get_rustc_path, get_schedule_tags, get_scheduler_src_dir,
    get_scheduler_target_dir, get_schedules_dir, get_state_dependency_dirs, get_state_src_dir,
    get_state_target_dir, get_structs_dir, get_tools_dir, get_worldsong_root_dir, BuildProfile,
};
use worldsong::path::join;

const ROOT: &str = "/home/player/worldsong";

fn strings(v: &[&str]) -> Vec<String> {
    v.iter().map(|s| s.to_string()).collect()
}

#[test]
fn join_inserts_one_separator() {
    assert_eq!(join("/a/b", "c"), "/a/b/c");
    assert_eq!(join("/a/b/", "c"), "/a/b/c");
    assert_eq!(join("", "c"), "c");
    assert_eq!(join("a", ""), "a/");
}

#[test]
fn join_with_absolute_path_replaces_base() {
    assert_eq!(join("/a/b", "/c"), "/c");
    assert_eq!(join("", "/c/d"), "/c/d");
}

#[test]
fn root_dir_is_handed_back() {
    assert_eq!(get_worldsong_root_dir(ROOT), ROOT);
}

#[test]
fn append_target_dir_is_always_slash_target() {
    assert_eq!(append_target_dir("/some/where"), "/target");
    assert_eq!(append_target_dir(""), "/target");
    assert_eq!(append_target_dir("relative/dir"), "/target");
}

#[test]
fn component_dirs() {
    assert_eq!(get_common_src_dir(ROOT), "/home/player/worldsong/common");
    assert_eq!(
        get_common_target_dir(ROOT, BuildProfile::Debug),
        "/home/player/worldsong/common/target/debug"
    );
    assert_eq!(
        get_common_target_dir(ROOT, BuildProfile::Release),
        "/home/player/worldsong/common/target/release"
    );
    assert_eq!(get_state_src_dir(ROOT), "/home/player/worldsong/state");
    assert_eq!(
        get_state_target_dir(ROOT, BuildProfile::Debug),
        "/home/player/worldsong/state/target/debug"
    );
    assert_eq!(get_kernel_src_dir(ROOT), "/home/player/worldsong/kernel");
    assert_eq!(get_kernel_target_dir(ROOT), "/home/player/worldsong/kernel/target");
    assert_eq!(get_scheduler_src_dir(ROOT), "/home/player/worldsong/scheduler");
    assert_eq!(get_scheduler_target_dir(ROOT), "/home/player/worldsong/scheduler/target");
    assert_eq!(get_structs_dir(ROOT), "/home/player/worldsong/structs");
    assert_eq!(get_schedules_dir(ROOT), "/home/player/worldsong/schedules");
    assert_eq!(get_processes_dir(ROOT), "/home/player/worldsong/processes");
    assert_eq!(get_tools_dir(ROOT), "/home/player/worldsong/tools");
}

#[test]
fn component_dirs_under_root_with_trailing_slash() {
    assert_eq!(get_common_src_dir("/ws/"), "/ws/common");
    assert_eq!(get_kernel_target_dir("/ws/"), "/ws/kernel/target");
}

#[test]
fn state_dependency_dirs() {
    assert_eq!(
        get_state_dependency_dirs(ROOT, BuildProfile::Release),
        strings(&[
            "/home/player/worldsong/state/target/release/deps",
            "/home/player/worldsong/state/target/release/native",
        ])
    );
}

#[test]
fn target_dirs_of_listed_dirs() {
    let dirs = strings(&["/ws/structs/core", "/ws/structs/graphics/"]);
    let want = strings(&["/ws/structs/core/target", "/ws/structs/graphics/target"]);
    assert_eq!(get_all_struct_target_dirs(&dirs), want);
    assert_eq!(get_all_schedule_target_dirs(&dirs), want);
    assert_eq!(get_all_process_target_dirs(&dirs), want);
    assert_eq!(get_all_struct_target_dirs(&Vec::new()), Vec::<String>::new());
}

#[test]
fn struct_dep_dirs_come_in_pairs() {
    let dirs = strings(&["/ws/structs/core", "/ws/structs/sim"]);
    assert_eq!(
        get_all_struct_dep_dirs(&dirs),
        strings(&[
            "/ws/structs/core/target/deps",
            "/ws/structs/core/target/native",
            "/ws/structs/sim/target/deps",
            "/ws/structs/sim/target/native",
        ])
    );
}

#[test]
fn tool_programs() {
    assert_eq!(get_rustc_path(), "rustc");
    assert_eq!(get_cargo_path(), "cargo");
}

#[test]
fn tool_dirs() {
    let d = BuildProfile::Debug;
    let cases: Vec<(String, String, &str)> = vec![
        (get_run_kernel_tool_src_dir("/ws"), get_run_kernel_tool_target_dir("/ws", d), "run_kernel"),
        (
            get_new_state_struct_tool_src_dir("/ws"),
            get_new_state_struct_tool_target_dir("/ws", d),
            "new_state_struct",
        ),
        (
            get_compile_state_struct_tool_src_dir("/ws"),
            get_compile_state_struct_tool_target_dir("/ws", d),
            "compile_state_struct",
        ),
        (
            get_compile_scheduler_tool_src_dir("/ws"),
            get_compile_scheduler_tool_target_dir("/ws", d),
            "compile_scheduler",
        ),
        (
            get_compile_schedule_tool_src_dir("/ws"),
            get_compile_schedule_tool_target_dir("/ws", d),
            "compile_schedule",
        ),
        (
            get_compile_process_tool_src_dir("/ws"),
            get_compile_process_tool_target_dir("/ws", d),
            "compile_process",
        ),
        (
            get_compile_kernel_tool_src_dir("/ws"),
            get_compile_kernel_tool_target_dir("/ws", d),
            "compile_kernel",
        ),
        (get_add_process_tool_src_dir("/ws"), get_add_process_tool_target_dir("/ws", d), "add_process"),
        (
            get_add_state_struct_tool_dir("/ws"),
            get_add_state_struct_tool_target_dir("/ws", d),
            "add_state_struct",
        ),
        (
            get_generate_state_library_tool_src_dir("/ws"),
            get_generate_state_library_tool_target_dir("/ws", d),
            "generate_state_library",
        ),
        (
            get_compile_state_library_tool_src_dir("/ws"),
            get_compile_state_library_tool_target_dir("/ws", d),
            "compile_state_library",
        ),
        (
            get_generate_schedule_tags_src_dir("/ws"),
            get_generate_schedule_tags_target_dir("/ws", d),
            "generate_schedule_tags",
        ),
    ];
    for (src, target, name) in cases {
        assert_eq!(src, format!("/ws/tools/{}", name));
        assert_eq!(target, format!("/ws/tools/{}/target/debug", name));
    }
    assert_eq!(
        get_compile_kernel_tool_target_dir("/ws", BuildProfile::Release),
        "/ws/tools/compile_kernel/target/release"
    );
}

#[test]
fn tags_and_config_files() {
    assert_eq!(get_schedule_tags("/ws/processes/graphics"), "/ws/processes/graphics/.schedule_tags");
    assert_eq!(
        get_generate_schedule_tags_binary("/ws", BuildProfile::Debug),
        "/ws/tools/generate_schedule_tags/target/debug/generate_schedule_tags"
    );
    assert_eq!(get_is_compiling_tag("/ws"), "/ws/.is_compiling");
    assert_eq!(get_compile_config("/ws/kernel"), "/ws/kernel/compile.config");
}
