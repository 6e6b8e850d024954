//! Orchestrator mode.
//!
//! The orchestrator runs once per build. It resolves the workspace root,
//! discovers the manifest, and starts the build tool with itself registered
//! as the compiler wrapper and with the coordination state in the
//! environment, which every wrapper invocation of the build inherits. What
//! the build tool is started with, and what its exit means, is decided here.

use vstd::prelude::*;
use crate::error::{CargoFailed, Error, Failure, IoError};
use crate::path::{join, joined};
use crate::staging::{find_workspace_root, workspace_root_of};
use crate::text::{copy_from, same_str};
use crate::{STITCH_MANIFEST_ENV, WORKSPACE_ROOT_ENV, WRAPPER_ENV};

verus! {

/// The arguments that are forwarded to the build tool: the command line
/// without the program's own name and without the subcommand's name, where
/// the build tool's front end passed that along.
pub open spec fn forwarded(argv: Seq<Seq<char>>) -> Seq<Seq<char>> {
    if argv.len() >= 2 && argv[1] == "stitch"@ {
        argv.skip(2)
    } else {
        argv.skip(1)
    }
}

/// The arguments to forward to the build tool, verbatim.
pub fn cargo_args(argv: &Vec<String>) -> (args: Vec<String>)
    requires
        argv@.len() >= 1,
    ensures
        args.deep_view() == forwarded(argv.deep_view()),
{
    if argv.len() >= 2 && same_str(argv[1].as_str(), "stitch") {
        copy_from(argv, 2)
    } else {
        copy_from(argv, 1)
    }
}

/// The failure of an orchestrator that was started in `dir` and finds no
/// workspace root for it: a failure of the file system to show a project.
pub open spec fn unresolved_root(dir: Seq<char>) -> Failure {
    Failure::Io("could not find a workspace root for "@ + dir)
}

/// Resolves the workspace root for an orchestrator that was started in
/// `dir`, from what the levels of `dir` hold. Where no level holds a project
/// manifest the orchestrator fails, before anything is discovered or
/// launched.
pub fn resolve_workspace_root(dir: &str, here: bool, enclosing: &Vec<bool>) -> (result: Result<
    String,
    Error,
>)
    ensures
        match result {
            Ok(root) => workspace_root_of(dir@, here, enclosing@) == Some(root@),
            Err(error) => workspace_root_of(dir@, here, enclosing@) is None && error@
                == unresolved_root(dir@),
        },
{
    match find_workspace_root(dir, here, enclosing) {
        Some(root) => Ok(root),
        None => {
            let mut report = String::from_str("could not find a workspace root for ");
            report.append(dir);
            Err(Error::Io(IoError(report)))
        },
    }
}

/// The modifications directory of the workspace rooted at `root`.
pub open spec fn modifications_dir(root: Seq<char>) -> Seq<char> {
    joined(root, "stitches"@)
}

/// The modifications directory of the workspace rooted at `workspace_root`.
pub fn stitches_dir(workspace_root: &str) -> (dir: String)
    ensures
        dir@ == modifications_dir(workspace_root@),
{
    join(workspace_root, "stitches")
}

/// The start of the build tool, as contracts speak of it.
pub struct Start {
    pub program: Seq<char>,
    pub args: Seq<Seq<char>>,
    pub env: Seq<(Seq<char>, Seq<char>)>,
}

/// What the build tool is started with: the program, its arguments, and the
/// variables added to the environment that it inherits.
#[derive(Debug, PartialEq, Eq)]
pub struct Launch {
    pub program: String,
    pub args: Vec<String>,
    pub env: Vec<(String, String)>,
}

impl View for Launch {
    type V = Start;

    open spec fn view(&self) -> Start {
        Start {
            program: self.program@,
            args: self.args.deep_view(),
            env: self.env.deep_view(),
        }
    }
}

/// The start of the build tool for the command line `argv`: the forwarded
/// arguments, this executable as the compiler wrapper, the wrapper flag, and
/// the workspace root and the serialized manifest for the wrapper to read.
pub open spec fn build_start(
    argv: Seq<Seq<char>>,
    self_exe: Seq<char>,
    root: Seq<char>,
    manifest: Seq<char>,
) -> Start {
    Start {
        program: "cargo"@,
        args: forwarded(argv),
        env: seq![
            ("RUSTC_WORKSPACE_WRAPPER"@, self_exe),
            (WRAPPER_ENV@, "1"@),
            (WORKSPACE_ROOT_ENV@, root),
            (STITCH_MANIFEST_ENV@, manifest),
        ],
    }
}

/// Says what the orchestrator starts the build tool with. `argv` is the
/// orchestrator's command line, `self_exe` the path of its executable,
/// `workspace_root` the resolved root, and `manifest` the serialized manifest.
pub fn run_subcommand(argv: &Vec<String>, self_exe: &str, workspace_root: &str, manifest: &str) -> (
    launch: Launch
)
    requires
        argv@.len() >= 1,
    ensures
        launch@ == build_start(argv.deep_view(), self_exe@, workspace_root@, manifest@),
{
    let mut env: Vec<(String, String)> = Vec::new();
    env.push((String::from_str("RUSTC_WORKSPACE_WRAPPER"), String::from_str(self_exe)));
    env.push((String::from_str(WRAPPER_ENV), String::from_str("1")));
    env.push((String::from_str(WORKSPACE_ROOT_ENV), String::from_str(workspace_root)));
    env.push((String::from_str(STITCH_MANIFEST_ENV), String::from_str(manifest)));
    let launch = Launch { program: String::from_str("cargo"), args: cargo_args(argv), env };
    assert(launch.env.deep_view() =~= build_start(
        argv.deep_view(),
        self_exe@,
        workspace_root@,
        manifest@,
    ).env);
    launch
}

/// The status that a failed build is reported with: the build tool's exit
/// code, and 1 where it ended without one.
pub open spec fn failed_status(code: Option<i32>) -> int {
    match code {
        Some(c) => c as int,
        None => 1,
    }
}

/// Says what the build tool's exit means: success, or a failure that carries
/// the build tool's status.
pub fn build_result(success: bool, code: Option<i32>) -> (result: Result<(), CargoFailed>)
    ensures
        success ==> result is Ok,
        !success ==> result is Err && result->Err_0.0 == failed_status(code),
{
    if success {
        Ok(())
    } else {
        match code {
            Some(c) => Err(CargoFailed(c)),
            None => Err(CargoFailed(1)),
        }
    }
}

} // verus!
