//! The decisions of the build tools: which file system errors a fresh
//! directory or file can live with, where the dependency manifests are
//! looked for, and which commands rebuild the project.

use vstd::prelude::*;

use crate::hierarchy::{
    component_src_dir, get_kernel_src_dir, get_scheduler_src_dir, get_state_src_dir, Component,
};
use crate::path::{join, path_join};

verus! {

/// How a file system operation ended, as far as the tools tell outcomes apart.
#[derive(Clone, Copy, Debug, PartialEq, Eq)]
pub enum IoOutcome {
    Done,
    NotFound,
    AlreadyExists,
    Failed,
}

/// Removing what is to be made fresh may find nothing there.
pub fn removal_tolerated(outcome: IoOutcome) -> (r: bool)
    ensures
        r <==> (outcome == IoOutcome::Done || outcome == IoOutcome::NotFound),
{
    match outcome {
        IoOutcome::Done | IoOutcome::NotFound => true,
        _ => false,
    }
}

/// Creating a fresh directory may find it already there.
pub fn creation_tolerated(outcome: IoOutcome) -> (r: bool)
    ensures
        r <==> (outcome == IoOutcome::Done || outcome == IoOutcome::AlreadyExists),
{
    match outcome {
        IoOutcome::Done | IoOutcome::AlreadyExists => true,
        _ => false,
    }
}

/// The directories whose `Dependencies.toml` feeds the state crate's
/// manifest: those of the state structs, then the kernel's and the
/// scheduler's.
pub open spec fn manifest_dirs(root: Seq<char>, struct_src_dirs: Seq<String>) -> Seq<Seq<char>> {
    struct_src_dirs.map_values(|d: String| d@).push(component_src_dir(root, Component::Kernel)).push(
        component_src_dir(root, Component::Scheduler),
    )
}

/// Where the dependency manifests are looked for: `Dependencies.toml` in
/// each state struct's source directory, then in the kernel's and in the
/// scheduler's.
pub fn dependency_manifest_paths(root: &str, struct_src_dirs: &Vec<String>) -> (r: Vec<String>)
    ensures
        r@.len() == struct_src_dirs@.len() + 2,
        forall|i: int|
            0 <= i < r@.len() ==> #[trigger] r@[i]@ == path_join(
                manifest_dirs(root@, struct_src_dirs@)[i],
                "Dependencies.toml"@,
            ),
{
    let ghost dirs = manifest_dirs(root@, struct_src_dirs@);
    let mut out: Vec<String> = Vec::new();
    let mut i: usize = 0;
    while i < struct_src_dirs.len()
        invariant
            i <= struct_src_dirs@.len(),
            dirs == manifest_dirs(root@, struct_src_dirs@),
            out@.len() == i,
            forall|k: int| 0 <= k < i ==> #[trigger] out@[k]@ == path_join(dirs[k], "Dependencies.toml"@),
        decreases struct_src_dirs@.len() - i,
    {
        out.push(join(struct_src_dirs[i].as_str(), "Dependencies.toml"));
        i = i + 1;
    }
    let kernel = get_kernel_src_dir(root);
    out.push(join(kernel.as_str(), "Dependencies.toml"));
    let scheduler = get_scheduler_src_dir(root);
    out.push(join(scheduler.as_str(), "Dependencies.toml"));
    out
}

/// `-L` and the directory, for each directory.
pub open spec fn link_args(dirs: Seq<Seq<char>>) -> Seq<Seq<char>>
    decreases dirs.len(),
{
    if dirs.len() == 0 {
        Seq::empty()
    } else {
        link_args(dirs.drop_last()).push("-L"@).push(dirs.last())
    }
}

/// The arguments with which the Rust compiler builds a schedule: the
/// library directories of the common crate and of the processes, the output
/// directory, the crate type, dynamic linking of the standard library, and
/// the schedule's source file.
pub open spec fn schedule_args(
    common_target_dirs: Seq<Seq<char>>,
    process_target_dirs: Seq<Seq<char>>,
    crate_type: Seq<char>,
    schedule_file: Seq<char>,
) -> Seq<Seq<char>> {
    link_args(common_target_dirs) + link_args(process_target_dirs) + seq![
        "--out-dir"@,
        "./target"@,
        "--crate-type="@ + crate_type,
        "-C"@,
        "prefer-dynamic"@,
        schedule_file,
    ]
}

fn push_link_args(out: &mut Vec<String>, dirs: &Vec<String>)
    ensures
        final(out)@.map_values(|s: String| s@) == old(out)@.map_values(|s: String| s@)
            + link_args(dirs@.map_values(|s: String| s@)),
{
    let ghost start = out@.map_values(|s: String| s@);
    let ghost ds = dirs@.map_values(|s: String| s@);
    let mut i: usize = 0;
    assert(ds.take(0) =~= Seq::<Seq<char>>::empty());
    assert(start + link_args(ds.take(0)) =~= start);
    while i < dirs.len()
        invariant
            i <= dirs@.len(),
            ds == dirs@.map_values(|s: String| s@),
            out@.map_values(|s: String| s@) == start + link_args(ds.take(i as int)),
        decreases dirs@.len() - i,
    {
        let ghost before = out@.map_values(|s: String| s@);
        out.push(String::from_str("-L"));
        out.push(dirs[i].clone());
        assert(ds.take(i + 1).drop_last() =~= ds.take(i as int));
        assert(out@.map_values(|s: String| s@) =~= before.push("-L"@).push(ds[i as int]));
        i = i + 1;
    }
    assert(ds.take(dirs@.len() as int) =~= ds);
}

/// The arguments with which the Rust compiler builds the schedule
/// `schedule_file`, linking against `common_target_dirs` and
/// `process_target_dirs`, as a library of type `crate_type`.
pub fn schedule_compile_args(
    common_target_dirs: &Vec<String>,
    process_target_dirs: &Vec<String>,
    crate_type: &str,
    schedule_file: &str,
) -> (r: Vec<String>)
    ensures
        r@.map_values(|s: String| s@) == schedule_args(
            common_target_dirs@.map_values(|s: String| s@),
            process_target_dirs@.map_values(|s: String| s@),
            crate_type@,
            schedule_file@,
        ),
{
    let mut out: Vec<String> = Vec::new();
    assert(out@.map_values(|s: String| s@) =~= Seq::<Seq<char>>::empty());
    push_link_args(&mut out, common_target_dirs);
    push_link_args(&mut out, process_target_dirs);
    out.push(String::from_str("--out-dir"));
    out.push(String::from_str("./target"));
    let mut crate_type_arg = String::from_str("--crate-type=");
    crate_type_arg.append(crate_type);
    out.push(crate_type_arg);
    out.push(String::from_str("-C"));
    out.push(String::from_str("prefer-dynamic"));
    out.push(String::from_str(schedule_file));
    assert(out@.map_values(|s: String| s@) =~= schedule_args(
        common_target_dirs@.map_values(|s: String| s@),
        process_target_dirs@.map_values(|s: String| s@),
        crate_type@,
        schedule_file@,
    ));
    out
}

/// A program to run, with its arguments and, where given, the directory to
/// run it in.
#[derive(Clone, Debug)]
pub struct Command {
    pub program: String,
    pub cwd: Option<String>,
    pub args: Vec<String>,
}

/// A command by the characters of its strings.
pub struct CommandView {
    pub program: Seq<char>,
    pub cwd: Option<Seq<char>>,
    pub args: Seq<Seq<char>>,
}

impl View for Command {
    type V = CommandView;

    open spec fn view(&self) -> CommandView {
        CommandView {
            program: self.program@,
            cwd: self.cwd.deep_view(),
            args: self.args@.map_values(|s: String| s@),
        }
    }
}

/// Running the `compile` script of each directory as a child build.
pub open spec fn compile_scripts(dirs: Seq<Seq<char>>) -> Seq<CommandView>
    decreases dirs.len(),
{
    if dirs.len() == 0 {
        Seq::empty()
    } else {
        compile_scripts(dirs.drop_last()).push(
            CommandView { program: path_join(dirs.last(), "compile"@), cwd: None, args: seq!["-c"@] },
        )
    }
}

/// The commands that rebuild the whole project from the state library up:
/// Cargo updates the state crate's dependencies if asked to, then builds it;
/// then every process, every schedule, the scheduler and the kernel are
/// compiled by their own scripts.
pub open spec fn state_library_build(
    root: Seq<char>,
    update: bool,
    process_src_dirs: Seq<Seq<char>>,
    schedule_src_dirs: Seq<Seq<char>>,
) -> Seq<CommandView> {
    let state_dir = component_src_dir(root, Component::State);
    let cargo = |arg: Seq<char>| CommandView { program: "cargo"@, cwd: Some(state_dir), args: seq![arg] };
    (if update { seq![cargo("update"@)] } else { Seq::empty() }) + seq![cargo("build"@)]
        + compile_scripts(process_src_dirs) + compile_scripts(schedule_src_dirs) + compile_scripts(
        seq![component_src_dir(root, Component::Scheduler), component_src_dir(root, Component::Kernel)],
    )
}

fn cargo_command(state_dir: &String, arg: &str) -> (r: Command)
    ensures
        r@ == (CommandView { program: "cargo"@, cwd: Some(state_dir@), args: seq![arg@] }),
{
    let mut args: Vec<String> = Vec::new();
    args.push(String::from_str(arg));
    let r = Command { program: String::from_str("cargo"), cwd: Some(state_dir.clone()), args };
    assert(r@.args =~= seq![arg@]);
    r
}

fn compile_script(dir: &str) -> (r: Command)
    ensures
        r@ == (CommandView { program: path_join(dir@, "compile"@), cwd: None, args: seq!["-c"@] }),
{
    let mut args: Vec<String> = Vec::new();
    args.push(String::from_str("-c"));
    let r = Command { program: join(dir, "compile"), cwd: None, args };
    assert(r@.args =~= seq!["-c"@]);
    r
}

fn push_compile_scripts(out: &mut Vec<Command>, dirs: &Vec<String>)
    ensures
        final(out)@.map_values(|c: Command| c@) == old(out)@.map_values(|c: Command| c@)
            + compile_scripts(dirs@.map_values(|s: String| s@)),
{
    let ghost start = out@.map_values(|c: Command| c@);
    let ghost ds = dirs@.map_values(|s: String| s@);
    let mut i: usize = 0;
    assert(ds.take(0) =~= Seq::<Seq<char>>::empty());
    assert(start + compile_scripts(ds.take(0)) =~= start);
    while i < dirs.len()
        invariant
            i <= dirs@.len(),
            ds == dirs@.map_values(|s: String| s@),
            out@.map_values(|c: Command| c@) == start + compile_scripts(ds.take(i as int)),
        decreases dirs@.len() - i,
    {
        let ghost before = out@.map_values(|c: Command| c@);
        out.push(compile_script(dirs[i].as_str()));
        assert(ds.take(i + 1).drop_last() =~= ds.take(i as int));
        assert(out@.map_values(|c: Command| c@) =~= before.push(
            CommandView { program: path_join(ds[i as int], "compile"@), cwd: None, args: seq!["-c"@] },
        ));
        i = i + 1;
    }
    assert(ds.take(dirs@.len() as int) =~= ds);
}

/// The commands that rebuild the project from the state library up; `update`
/// asks Cargo to update the state crate's dependencies first.
pub fn state_library_build_commands(
    root: &str,
    update: bool,
    process_src_dirs: &Vec<String>,
    schedule_src_dirs: &Vec<String>,
) -> (r: Vec<Command>)
    ensures
        r@.map_values(|c: Command| c@) == state_library_build(
            root@,
            update,
            process_src_dirs@.map_values(|s: String| s@),
            schedule_src_dirs@.map_values(|s: String| s@),
        ),
{
    let state_dir = get_state_src_dir(root);
    let mut out: Vec<Command> = Vec::new();
    if update {
        out.push(cargo_command(&state_dir, "update"));
    }
    out.push(cargo_command(&state_dir, "build"));
    push_compile_scripts(&mut out, process_src_dirs);
    push_compile_scripts(&mut out, schedule_src_dirs);
    let mut last: Vec<String> = Vec::new();
    last.push(get_scheduler_src_dir(root));
    last.push(get_kernel_src_dir(root));
    push_compile_scripts(&mut out, &last);
    assert(last@.map_values(|s: String| s@) =~= seq![
        component_src_dir(root@, Component::Scheduler),
        component_src_dir(root@, Component::Kernel),
    ]);
    assert(out@.map_values(|c: Command| c@) =~= state_library_build(
        root@,
        update,
        process_src_dirs@.map_values(|s: String| s@),
        schedule_src_dirs@.map_values(|s: String| s@),
    ));
    out
}

proof fn lemma_compile_scripts(dirs: Seq<Seq<char>>)
    ensures
        compile_scripts(dirs).len() == dirs.len(),
        forall|i: int|
            0 <= i < dirs.len() ==> compile_scripts(dirs)[i] == (CommandView {
                program: path_join(#[trigger] dirs[i], "compile"@),
                cwd: None,
                args: seq!["-c"@],
            }),
    decreases dirs.len(),
{
    if dirs.len() > 0 {
        lemma_compile_scripts(dirs.drop_last());
        assert forall|i: int| 0 <= i < dirs.len() implies compile_scripts(dirs)[i] == (CommandView {
            program: path_join(#[trigger] dirs[i], "compile"@),
            cwd: None,
            args: seq!["-c"@],
        }) by {
            if i < dirs.len() - 1 {
                assert(dirs.drop_last()[i] == dirs[i]);
            }
        }
    }
}

/// The rebuild runs, in this order: `cargo update` in the state crate's
/// source directory when asked to update, then `cargo build` in that same
/// directory whether or not it updates, then the `compile` script of each
/// process, of each schedule, of the scheduler and of the kernel, each with
/// `-c` and no working directory of its own.
pub proof fn state_library_build_steps(
    root: Seq<char>,
    update: bool,
    process_src_dirs: Seq<Seq<char>>,
    schedule_src_dirs: Seq<Seq<char>>,
)
    ensures
        ({
            let cmds = state_library_build(root, update, process_src_dirs, schedule_src_dirs);
            let state_dir = component_src_dir(root, Component::State);
            let u: int = if update { 1 } else { 0 };
            let np = process_src_dirs.len() as int;
            let ns = schedule_src_dirs.len() as int;
            let script = |dir: Seq<char>|
                CommandView { program: path_join(dir, "compile"@), cwd: None, args: seq!["-c"@] };
            &&& cmds.len() == u + 1 + np + ns + 2
            &&& update ==> cmds[0] == (CommandView {
                program: "cargo"@,
                cwd: Some(state_dir),
                args: seq!["update"@],
            })
            &&& cmds[u] == (CommandView { program: "cargo"@, cwd: Some(state_dir), args: seq!["build"@] })
            &&& forall|i: int| 0 <= i < np ==> cmds[u + 1 + i] == script(#[trigger] process_src_dirs[i])
            &&& forall|i: int|
                0 <= i < ns ==> cmds[u + 1 + np + i] == script(#[trigger] schedule_src_dirs[i])
            &&& cmds[u + 1 + np + ns] == script(component_src_dir(root, Component::Scheduler))
            &&& cmds[u + 2 + np + ns] == script(component_src_dir(root, Component::Kernel))
        }),
{
    let last = seq![
        component_src_dir(root, Component::Scheduler),
        component_src_dir(root, Component::Kernel),
    ];
    lemma_compile_scripts(process_src_dirs);
    lemma_compile_scripts(schedule_src_dirs);
    lemma_compile_scripts(last);
    assert(last[0] == component_src_dir(root, Component::Scheduler));
    assert(last[1] == component_src_dir(root, Component::Kernel));
}

/// Asking for an update only adds `cargo update` in front: the rest of the
/// rebuild, `cargo build` in the state crate's directory first, is the same
/// either way.
pub proof fn update_only_prepends_cargo_update(
    root: Seq<char>,
    process_src_dirs: Seq<Seq<char>>,
    schedule_src_dirs: Seq<Seq<char>>,
)
    ensures
        state_library_build(root, false, process_src_dirs, schedule_src_dirs) == state_library_build(
            root,
            true,
            process_src_dirs,
            schedule_src_dirs,
        ).drop_first(),
{
    let plain = state_library_build(root, false, process_src_dirs, schedule_src_dirs);
    let updating = state_library_build(root, true, process_src_dirs, schedule_src_dirs);
    state_library_build_steps(root, false, process_src_dirs, schedule_src_dirs);
    state_library_build_steps(root, true, process_src_dirs, schedule_src_dirs);
    lemma_compile_scripts(process_src_dirs);
    lemma_compile_scripts(schedule_src_dirs);
    assert forall|i: int| 0 <= i < plain.len() implies plain[i] == updating.drop_first()[i] by {
        assert(updating.drop_first()[i] == updating[i + 1]);
    }
    assert(plain =~= updating.drop_first());
}

} // verus!
