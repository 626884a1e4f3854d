//! Where everything lives in a Worldsong project.
//!
//! Every directory is found from the project's root directory, the one that
//! holds the `.wsroot` marker; finding that directory means walking the file
//! system, so it is handed in here as `root`. Build outputs of the Cargo-built
//! parts lie in a directory that depends on the build profile, handed in as
//! `profile`.

use vstd::prelude::*;

use crate::path::{join, lemma_join_twice, path_join};

verus! {

/// The profile that the Cargo-built parts are compiled with.
#[derive(Clone, Copy, Debug, PartialEq, Eq)]
pub enum BuildProfile {
    Debug,
    Release,
}

/// The build output directory of a Cargo package, below the package.
pub open spec fn cargo_target_subdir(profile: BuildProfile) -> Seq<char> {
    match profile {
        BuildProfile::Debug => "/target/debug"@,
        BuildProfile::Release => "/target/release"@,
    }
}

fn cargo_target_dir(profile: BuildProfile) -> (r: &'static str)
    ensures
        r@ == cargo_target_subdir(profile),
{
    match profile {
        BuildProfile::Debug => "/target/debug",
        BuildProfile::Release => "/target/release",
    }
}

/// The parts of the framework that have a source and a build directory.
#[derive(Clone, Copy, Debug, PartialEq, Eq)]
pub enum Component {
    Common,
    State,
    Kernel,
    Scheduler,
}

/// The source directory of a component, below the root.
pub open spec fn component_name(c: Component) -> Seq<char> {
    match c {
        Component::Common => "common"@,
        Component::State => "state"@,
        Component::Kernel => "kernel"@,
        Component::Scheduler => "scheduler"@,
    }
}

/// The build directory of a component, below the root: Cargo's output
/// directory for the common and state crates, `target` for the others.
pub open spec fn component_target_rel(c: Component, profile: BuildProfile) -> Seq<char> {
    match c {
        Component::Common | Component::State => component_name(c) + cargo_target_subdir(profile),
        Component::Kernel | Component::Scheduler => component_name(c) + "/target"@,
    }
}

/// The source directory of a component.
pub open spec fn component_src_dir(root: Seq<char>, c: Component) -> Seq<char> {
    path_join(root, component_name(c))
}

/// The build directory of a component.
pub open spec fn component_target_dir(root: Seq<char>, c: Component, profile: BuildProfile) -> Seq<
    char,
> {
    path_join(root, component_target_rel(c, profile))
}

fn component_dir_name(c: Component) -> (r: &'static str)
    ensures
        r@ == component_name(c),
{
    match c {
        Component::Common => "common",
        Component::State => "state",
        Component::Kernel => "kernel",
        Component::Scheduler => "scheduler",
    }
}

fn component_src(root: &str, c: Component) -> (r: String)
    ensures
        r@ == component_src_dir(root@, c),
{
    join(root, component_dir_name(c))
}

fn component_target(root: &str, c: Component, profile: BuildProfile) -> (r: String)
    ensures
        r@ == component_target_dir(root@, c, profile),
{
    let mut rel = String::from_str(component_dir_name(c));
    match c {
        Component::Common | Component::State => rel.append(cargo_target_dir(profile)),
        Component::Kernel | Component::Scheduler => rel.append("/target"),
    }
    join(root, rel.as_str())
}

/// The tools of the framework, each a Cargo package below `tools`.
#[derive(Clone, Copy, Debug, PartialEq, Eq)]
pub enum Tool {
    RunKernel,
    NewStateStruct,
    CompileStateStruct,
    CompileScheduler,
    CompileSchedule,
    CompileProcess,
    CompileKernel,
    AddProcess,
    AddStateStruct,
    GenerateStateLibrary,
    CompileStateLibrary,
    GenerateScheduleTags,
}

/// The directory name of a tool.
pub open spec fn tool_name(t: Tool) -> Seq<char> {
    match t {
        Tool::RunKernel => "run_kernel"@,
        Tool::NewStateStruct => "new_state_struct"@,
        Tool::CompileStateStruct => "compile_state_struct"@,
        Tool::CompileScheduler => "compile_scheduler"@,
        Tool::CompileSchedule => "compile_schedule"@,
        Tool::CompileProcess => "compile_process"@,
        Tool::CompileKernel => "compile_kernel"@,
        Tool::AddProcess => "add_process"@,
        Tool::AddStateStruct => "add_state_struct"@,
        Tool::GenerateStateLibrary => "generate_state_library"@,
        Tool::CompileStateLibrary => "compile_state_library"@,
        Tool::GenerateScheduleTags => "generate_schedule_tags"@,
    }
}

/// The source directory of a tool, below the root.
pub open spec fn tool_rel(t: Tool) -> Seq<char> {
    "tools/"@ + tool_name(t)
}

/// The source directory of a tool.
pub open spec fn tool_src_dir(root: Seq<char>, t: Tool) -> Seq<char> {
    path_join(root, tool_rel(t))
}

/// The build directory of a tool.
pub open spec fn tool_target_dir(root: Seq<char>, t: Tool, profile: BuildProfile) -> Seq<char> {
    path_join(root, tool_rel(t) + cargo_target_subdir(profile))
}

fn tool_dir_name(t: Tool) -> (r: &'static str)
    ensures
        r@ == tool_name(t),
{
    match t {
        Tool::RunKernel => "run_kernel",
        Tool::NewStateStruct => "new_state_struct",
        Tool::CompileStateStruct => "compile_state_struct",
        Tool::CompileScheduler => "compile_scheduler",
        Tool::CompileSchedule => "compile_schedule",
        Tool::CompileProcess => "compile_process",
        Tool::CompileKernel => "compile_kernel",
        Tool::AddProcess => "add_process",
        Tool::AddStateStruct => "add_state_struct",
        Tool::GenerateStateLibrary => "generate_state_library",
        Tool::CompileStateLibrary => "compile_state_library",
        Tool::GenerateScheduleTags => "generate_schedule_tags",
    }
}

fn tool_rel_string(t: Tool) -> (r: String)
    ensures
        r@ == tool_rel(t),
{
    let mut rel = String::from_str("tools/");
    rel.append(tool_dir_name(t));
    rel
}

fn tool_src(root: &str, t: Tool) -> (r: String)
    ensures
        r@ == tool_src_dir(root@, t),
{
    let rel = tool_rel_string(t);
    join(root, rel.as_str())
}

fn tool_target(root: &str, t: Tool, profile: BuildProfile) -> (r: String)
    ensures
        r@ == tool_target_dir(root@, t, profile),
{
    let mut rel = tool_rel_string(t);
    rel.append(cargo_target_dir(profile));
    join(root, rel.as_str())
}

/// The project's root directory.
pub fn get_worldsong_root_dir(root: &str) -> (r: String)
    ensures
        r@ == root@,
{
    String::from_str(root)
}

/// `path` joined with `/target`. The component is absolute, so the join
/// replaces `path`: the result is `/target` whatever `path` is.
pub fn append_target_dir(path: &str) -> (r: String)
    ensures
        r@ == path_join(path@, "/target"@),
        r@ == "/target"@,
{
    proof {
        reveal_strlit("/target");
    }
    join(path, "/target")
}

/// The common crate's source directory.
pub fn get_common_src_dir(root: &str) -> (r: String)
    ensures
        r@ == component_src_dir(root@, Component::Common),
{
    component_src(root, Component::Common)
}

/// The common crate's build directory.
pub fn get_common_target_dir(root: &str, profile: BuildProfile) -> (r: String)
    ensures
        r@ == component_target_dir(root@, Component::Common, profile),
{
    component_target(root, Component::Common, profile)
}

/// The state crate's source directory.
pub fn get_state_src_dir(root: &str) -> (r: String)
    ensures
        r@ == component_src_dir(root@, Component::State),
{
    component_src(root, Component::State)
}

/// The state crate's build directory.
pub fn get_state_target_dir(root: &str, profile: BuildProfile) -> (r: String)
    ensures
        r@ == component_target_dir(root@, Component::State, profile),
{
    component_target(root, Component::State, profile)
}

/// The directories that hold the state crate's dependencies once built:
/// `deps` and `native` in its build directory.
pub fn get_state_dependency_dirs(root: &str, profile: BuildProfile) -> (r: Vec<String>)
    ensures
        r@.len() == 2,
        r@[0]@ == path_join(component_target_dir(root@, Component::State, profile), "deps"@),
        r@[1]@ == path_join(component_target_dir(root@, Component::State, profile), "native"@),
{
    let mut v: Vec<String> = Vec::new();
    let t = get_state_target_dir(root, profile);
    v.push(join(t.as_str(), "deps"));
    v.push(join(t.as_str(), "native"));
    v
}

/// The directory that holds the state structs.
pub fn get_structs_dir(root: &str) -> (r: String)
    ensures
        r@ == path_join(root@, "structs"@),
{
    join(root, "structs")
}

/// Each directory of `dirs` joined with `target`, in order.
pub open spec fn target_dirs_of(dirs: Seq<String>) -> Seq<Seq<char>> {
    dirs.map_values(|d: String| path_join(d@, "target"@))
}

fn with_target(dirs: &Vec<String>) -> (r: Vec<String>)
    ensures
        r@.len() == dirs@.len(),
        forall|i: int| 0 <= i < r@.len() ==> #[trigger] r@[i]@ == target_dirs_of(dirs@)[i],
{
    let mut out: Vec<String> = Vec::new();
    let mut i: usize = 0;
    while i < dirs.len()
        invariant
            i <= dirs@.len(),
            out@.len() == i,
            forall|k: int| 0 <= k < i ==> #[trigger] out@[k]@ == target_dirs_of(dirs@)[k],
        decreases dirs@.len() - i,
    {
        out.push(join(dirs[i].as_str(), "target"));
        i = i + 1;
    }
    out
}

/// The build directories of the state structs whose source directories are
/// `struct_src_dirs`: each joined with `target`.
pub fn get_all_struct_target_dirs(struct_src_dirs: &Vec<String>) -> (r: Vec<String>)
    ensures
        r@.len() == struct_src_dirs@.len(),
        forall|i: int| 0 <= i < r@.len() ==> #[trigger] r@[i]@ == target_dirs_of(struct_src_dirs@)[i],
{
    with_target(struct_src_dirs)
}

/// `deps` and `native` in each of `dirs`, in order: the two of the first
/// directory, then those of the second, and so on.
pub open spec fn dep_dirs_of(dirs: Seq<Seq<char>>) -> Seq<Seq<char>>
    decreases dirs.len(),
{
    if dirs.len() == 0 {
        Seq::empty()
    } else {
        dep_dirs_of(dirs.drop_last()).push(path_join(dirs.last(), "deps"@)).push(
            path_join(dirs.last(), "native"@),
        )
    }
}

/// The directories that hold the dependencies of the state structs once
/// built: `deps` and `native` in the build directory of each.
pub fn get_all_struct_dep_dirs(struct_src_dirs: &Vec<String>) -> (r: Vec<String>)
    ensures
        r@.map_values(|d: String| d@) == dep_dirs_of(target_dirs_of(struct_src_dirs@)),
{
    let targets = get_all_struct_target_dirs(struct_src_dirs);
    let ghost ts = target_dirs_of(struct_src_dirs@);
    let mut out: Vec<String> = Vec::new();
    let mut i: usize = 0;
    assert(ts.take(0) =~= Seq::<Seq<char>>::empty());
    while i < targets.len()
        invariant
            i <= targets@.len(),
            targets@.len() == ts.len(),
            forall|k: int| 0 <= k < targets@.len() ==> #[trigger] targets@[k]@ == ts[k],
            out@.map_values(|d: String| d@) == dep_dirs_of(ts.take(i as int)),
        decreases targets@.len() - i,
    {
        let ghost prev = out@.map_values(|d: String| d@);
        out.push(join(targets[i].as_str(), "deps"));
        out.push(join(targets[i].as_str(), "native"));
        assert(ts.take(i + 1).drop_last() =~= ts.take(i as int));
        assert(out@.map_values(|d: String| d@) =~= prev.push(path_join(ts[i as int], "deps"@)).push(
            path_join(ts[i as int], "native"@),
        ));
        i = i + 1;
    }
    assert(ts.take(targets@.len() as int) =~= ts);
    out
}

/// The kernel's source directory.
pub fn get_kernel_src_dir(root: &str) -> (r: String)
    ensures
        r@ == component_src_dir(root@, Component::Kernel),
{
    component_src(root, Component::Kernel)
}

/// The kernel's build directory; the same for every profile.
pub fn get_kernel_target_dir(root: &str) -> (r: String)
    ensures
        forall|p: BuildProfile| r@ == #[trigger] component_target_dir(root@, Component::Kernel, p),
{
    component_target(root, Component::Kernel, BuildProfile::Debug)
}

/// The scheduler's source directory.
pub fn get_scheduler_src_dir(root: &str) -> (r: String)
    ensures
        r@ == component_src_dir(root@, Component::Scheduler),
{
    component_src(root, Component::Scheduler)
}

/// The scheduler's build directory; the same for every profile.
pub fn get_scheduler_target_dir(root: &str) -> (r: String)
    ensures
        forall|p: BuildProfile| r@ == #[trigger] component_target_dir(root@, Component::Scheduler, p),
{
    component_target(root, Component::Scheduler, BuildProfile::Debug)
}

/// The directory that holds the schedules.
pub fn get_schedules_dir(root: &str) -> (r: String)
    ensures
        r@ == path_join(root@, "schedules"@),
{
    join(root, "schedules")
}

/// The build directories of the schedules whose source directories are
/// `schedule_src_dirs`: each joined with `target`.
pub fn get_all_schedule_target_dirs(schedule_src_dirs: &Vec<String>) -> (r: Vec<String>)
    ensures
        r@.len() == schedule_src_dirs@.len(),
        forall|i: int|
            0 <= i < r@.len() ==> #[trigger] r@[i]@ == target_dirs_of(schedule_src_dirs@)[i],
{
    with_target(schedule_src_dirs)
}

/// The directory that holds the processes.
pub fn get_processes_dir(root: &str) -> (r: String)
    ensures
        r@ == path_join(root@, "processes"@),
{
    join(root, "processes")
}

/// The build directories of the processes whose source directories are
/// `process_src_dirs`: each joined with `target`.
pub fn get_all_process_target_dirs(process_src_dirs: &Vec<String>) -> (r: Vec<String>)
    ensures
        r@.len() == process_src_dirs@.len(),
        forall|i: int|
            0 <= i < r@.len() ==> #[trigger] r@[i]@ == target_dirs_of(process_src_dirs@)[i],
{
    with_target(process_src_dirs)
}

/// The Rust compiler, found through the search path.
pub fn get_rustc_path() -> (r: String)
    ensures
        r@ == path_join(Seq::empty(), "rustc"@),
        r@ == "rustc"@,
{
    proof {
        reveal_strlit("");
        reveal_strlit("rustc");
    }
    join("", "rustc")
}

/// Cargo, found through the search path.
pub fn get_cargo_path() -> (r: String)
    ensures
        r@ == path_join(Seq::empty(), "cargo"@),
        r@ == "cargo"@,
{
    proof {
        reveal_strlit("");
        reveal_strlit("cargo");
    }
    join("", "cargo")
}

/// The directory that holds the tools.
pub fn get_tools_dir(root: &str) -> (r: String)
    ensures
        r@ == path_join(root@, "tools"@),
{
    join(root, "tools")
}

/// The source directory of the kernel runner tool.
pub fn get_run_kernel_tool_src_dir(root: &str) -> (r: String)
    ensures
        r@ == tool_src_dir(root@, Tool::RunKernel),
{
    tool_src(root, Tool::RunKernel)
}

/// The build directory of the kernel runner tool.
pub fn get_run_kernel_tool_target_dir(root: &str, profile: BuildProfile) -> (r: String)
    ensures
        r@ == tool_target_dir(root@, Tool::RunKernel, profile),
{
    tool_target(root, Tool::RunKernel, profile)
}

/// The source directory of the state struct creator tool.
pub fn get_new_state_struct_tool_src_dir(root: &str) -> (r: String)
    ensures
        r@ == tool_src_dir(root@, Tool::NewStateStruct),
{
    tool_src(root, Tool::NewStateStruct)
}

/// The build directory of the state struct creator tool.
pub fn get_new_state_struct_tool_target_dir(root: &str, profile: BuildProfile) -> (r: String)
    ensures
        r@ == tool_target_dir(root@, Tool::NewStateStruct, profile),
{
    tool_target(root, Tool::NewStateStruct, profile)
}

/// The source directory of the state struct compiler tool.
pub fn get_compile_state_struct_tool_src_dir(root: &str) -> (r: String)
    ensures
        r@ == tool_src_dir(root@, Tool::CompileStateStruct),
{
    tool_src(root, Tool::CompileStateStruct)
}

/// The build directory of the state struct compiler tool.
pub fn get_compile_state_struct_tool_target_dir(root: &str, profile: BuildProfile) -> (r: String)
    ensures
        r@ == tool_target_dir(root@, Tool::CompileStateStruct, profile),
{
    tool_target(root, Tool::CompileStateStruct, profile)
}

/// The source directory of the scheduler compiler tool.
pub fn get_compile_scheduler_tool_src_dir(root: &str) -> (r: String)
    ensures
        r@ == tool_src_dir(root@, Tool::CompileScheduler),
{
    tool_src(root, Tool::CompileScheduler)
}

/// The build directory of the scheduler compiler tool.
pub fn get_compile_scheduler_tool_target_dir(root: &str, profile: BuildProfile) -> (r: String)
    ensures
        r@ == tool_target_dir(root@, Tool::CompileScheduler, profile),
{
    tool_target(root, Tool::CompileScheduler, profile)
}

/// The source directory of the schedule compiler tool.
pub fn get_compile_schedule_tool_src_dir(root: &str) -> (r: String)
    ensures
        r@ == tool_src_dir(root@, Tool::CompileSchedule),
{
    tool_src(root, Tool::CompileSchedule)
}

/// The build directory of the schedule compiler tool.
pub fn get_compile_schedule_tool_target_dir(root: &str, profile: BuildProfile) -> (r: String)
    ensures
        r@ == tool_target_dir(root@, Tool::CompileSchedule, profile),
{
    tool_target(root, Tool::CompileSchedule, profile)
}

/// The source directory of the process compiler tool.
pub fn get_compile_process_tool_src_dir(root: &str) -> (r: String)
    ensures
        r@ == tool_src_dir(root@, Tool::CompileProcess),
{
    tool_src(root, Tool::CompileProcess)
}

/// The build directory of the process compiler tool.
pub fn get_compile_process_tool_target_dir(root: &str, profile: BuildProfile) -> (r: String)
    ensures
        r@ == tool_target_dir(root@, Tool::CompileProcess, profile),
{
    tool_target(root, Tool::CompileProcess, profile)
}

/// The source directory of the kernel compiler tool.
pub fn get_compile_kernel_tool_src_dir(root: &str) -> (r: String)
    ensures
        r@ == tool_src_dir(root@, Tool::CompileKernel),
{
    tool_src(root, Tool::CompileKernel)
}

/// The build directory of the kernel compiler tool.
pub fn get_compile_kernel_tool_target_dir(root: &str, profile: BuildProfile) -> (r: String)
    ensures
        r@ == tool_target_dir(root@, Tool::CompileKernel, profile),
{
    tool_target(root, Tool::CompileKernel, profile)
}

/// The source directory of the process creator tool.
pub fn get_add_process_tool_src_dir(root: &str) -> (r: String)
    ensures
        r@ == tool_src_dir(root@, Tool::AddProcess),
{
    tool_src(root, Tool::AddProcess)
}

/// The build directory of the process creator tool.
pub fn get_add_process_tool_target_dir(root: &str, profile: BuildProfile) -> (r: String)
    ensures
        r@ == tool_target_dir(root@, Tool::AddProcess, profile),
{
    tool_target(root, Tool::AddProcess, profile)
}

/// The source directory of the state struct adder tool.
pub fn get_add_state_struct_tool_dir(root: &str) -> (r: String)
    ensures
        r@ == tool_src_dir(root@, Tool::AddStateStruct),
{
    tool_src(root, Tool::AddStateStruct)
}

/// The build directory of the state struct adder tool.
pub fn get_add_state_struct_tool_target_dir(root: &str, profile: BuildProfile) -> (r: String)
    ensures
        r@ == tool_target_dir(root@, Tool::AddStateStruct, profile),
{
    tool_target(root, Tool::AddStateStruct, profile)
}

/// The source directory of the state library generator tool.
pub fn get_generate_state_library_tool_src_dir(root: &str) -> (r: String)
    ensures
        r@ == tool_src_dir(root@, Tool::GenerateStateLibrary),
{
    tool_src(root, Tool::GenerateStateLibrary)
}

/// The build directory of the state library generator tool.
pub fn get_generate_state_library_tool_target_dir(root: &str, profile: BuildProfile) -> (r: String)
    ensures
        r@ == tool_target_dir(root@, Tool::GenerateStateLibrary, profile),
{
    tool_target(root, Tool::GenerateStateLibrary, profile)
}

/// The source directory of the state library compiler tool.
pub fn get_compile_state_library_tool_src_dir(root: &str) -> (r: String)
    ensures
        r@ == tool_src_dir(root@, Tool::CompileStateLibrary),
{
    tool_src(root, Tool::CompileStateLibrary)
}

/// The build directory of the state library compiler tool.
pub fn get_compile_state_library_tool_target_dir(root: &str, profile: BuildProfile) -> (r: String)
    ensures
        r@ == tool_target_dir(root@, Tool::CompileStateLibrary, profile),
{
    tool_target(root, Tool::CompileStateLibrary, profile)
}

/// The source directory of the schedule tag generator tool.
pub fn get_generate_schedule_tags_src_dir(root: &str) -> (r: String)
    ensures
        r@ == tool_src_dir(root@, Tool::GenerateScheduleTags),
{
    tool_src(root, Tool::GenerateScheduleTags)
}

/// The build directory of the schedule tag generator tool.
pub fn get_generate_schedule_tags_target_dir(root: &str, profile: BuildProfile) -> (r: String)
    ensures
        r@ == tool_target_dir(root@, Tool::GenerateScheduleTags, profile),
{
    tool_target(root, Tool::GenerateScheduleTags, profile)
}

/// The schedule tags file of a process.
pub fn get_schedule_tags(process_dir: &str) -> (r: String)
    ensures
        r@ == path_join(process_dir@, ".schedule_tags"@),
{
    join(process_dir, ".schedule_tags")
}

/// The built schedule tag generator.
pub fn get_generate_schedule_tags_binary(root: &str, profile: BuildProfile) -> (r: String)
    ensures
        r@ == path_join(
            tool_target_dir(root@, Tool::GenerateScheduleTags, profile),
            "generate_schedule_tags"@,
        ),
{
    let t = get_generate_schedule_tags_target_dir(root, profile);
    join(t.as_str(), "generate_schedule_tags")
}

/// The marker file that is present while the project is being compiled.
pub fn get_is_compiling_tag(root: &str) -> (r: String)
    ensures
        r@ == path_join(root@, ".is_compiling"@),
{
    join(root, ".is_compiling")
}

/// The compile settings file of a directory.
pub fn get_compile_config(dir: &str) -> (r: String)
    ensures
        r@ == path_join(dir@, "compile.config"@),
{
    join(dir, "compile.config")
}

/// The build directory of a Cargo package, relative to the package.
pub open spec fn cargo_target_rel(profile: BuildProfile) -> Seq<char> {
    match profile {
        BuildProfile::Debug => "target/debug"@,
        BuildProfile::Release => "target/release"@,
    }
}

/// Every tool's source directory lies in the tools directory, and every build
/// directory, of a tool or of a component, lies in the matching source
/// directory: at Cargo's output directory for the profile for the tools and
/// the common and state crates, at `target` for the kernel and scheduler.
pub proof fn build_dirs_lie_in_source_dirs(root: Seq<char>, profile: BuildProfile)
    ensures
        forall|t: Tool| #[trigger]
            tool_src_dir(root, t) == path_join(path_join(root, "tools"@), tool_name(t)),
        forall|t: Tool| #[trigger]
            tool_target_dir(root, t, profile) == path_join(
                tool_src_dir(root, t),
                cargo_target_rel(profile),
            ),
        component_target_dir(root, Component::Common, profile) == path_join(
            component_src_dir(root, Component::Common),
            cargo_target_rel(profile),
        ),
        component_target_dir(root, Component::State, profile) == path_join(
            component_src_dir(root, Component::State),
            cargo_target_rel(profile),
        ),
        component_target_dir(root, Component::Kernel, profile) == path_join(
            component_src_dir(root, Component::Kernel),
            "target"@,
        ),
        component_target_dir(root, Component::Scheduler, profile) == path_join(
            component_src_dir(root, Component::Scheduler),
            "target"@,
        ),
{
    reveal_strlit("tools");
    reveal_strlit("tools/");
    reveal_strlit("target");
    reveal_strlit("/target");
    reveal_strlit("target/debug");
    reveal_strlit("/target/debug");
    reveal_strlit("target/release");
    reveal_strlit("/target/release");
    reveal_strlit("common");
    reveal_strlit("state");
    reveal_strlit("kernel");
    reveal_strlit("scheduler");
    reveal_strlit("run_kernel");
    reveal_strlit("new_state_struct");
    reveal_strlit("compile_state_struct");
    reveal_strlit("compile_scheduler");
    reveal_strlit("compile_schedule");
    reveal_strlit("compile_process");
    reveal_strlit("compile_kernel");
    reveal_strlit("add_process");
    reveal_strlit("add_state_struct");
    reveal_strlit("generate_state_library");
    reveal_strlit("compile_state_library");
    reveal_strlit("generate_schedule_tags");
    let sub = cargo_target_rel(profile);
    assert(cargo_target_subdir(profile) =~= seq!['/'] + sub);
    assert forall|t: Tool| #[trigger]
        tool_src_dir(root, t) == path_join(path_join(root, "tools"@), tool_name(t)) by {
        lemma_join_twice(root, "tools"@, tool_name(t));
        assert(tool_rel(t) =~= "tools"@ + seq!['/'] + tool_name(t));
    }
    assert forall|t: Tool| #[trigger]
        tool_target_dir(root, t, profile) == path_join(tool_src_dir(root, t), sub) by {
        lemma_join_twice(root, tool_rel(t), sub);
        assert(tool_rel(t) + cargo_target_subdir(profile) =~= tool_rel(t) + seq!['/'] + sub);
    }
    lemma_join_twice(root, "common"@, sub);
    assert("common"@ + cargo_target_subdir(profile) =~= "common"@ + seq!['/'] + sub);
    lemma_join_twice(root, "state"@, sub);
    assert("state"@ + cargo_target_subdir(profile) =~= "state"@ + seq!['/'] + sub);
    lemma_join_twice(root, "kernel"@, "target"@);
    assert("kernel"@ + "/target"@ =~= "kernel"@ + seq!['/'] + "target"@);
    lemma_join_twice(root, "scheduler"@, "target"@);
    assert("scheduler"@ + "/target"@ =~= "scheduler"@ + seq!['/'] + "target"@);
}

} // verus!
