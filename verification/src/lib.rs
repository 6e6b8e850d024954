//! Build-time source modifications for the packages of a workspace.
//!
//! A workspace keeps local modifications of a dependency's source (unified
//! diffs and structural rewrite rules) beside its own code. At build time the
//! tool stands between the build tool and the compiler: for each package that
//! has modifications it stages a copy of the package's source, applies the
//! modifications to the copy in order, and points the compiler at the copy.
//!
//! This library holds the decisions of that tool as functions from plain
//! values to plain values. Reading the environment and the file system,
//! running the engines and starting the compiler are left to the caller.

use vstd::prelude::*;
use crate::error::{Error, Failure, MissingTool};

pub mod assoc;
pub mod discovery;
pub mod error;
pub mod line;
pub mod manifest;
pub mod path;
pub mod rewrite;
pub mod sample;
pub mod staging;
pub mod status;
pub mod stitch;
pub mod subcommand;
pub mod text;
pub mod wrapper;

verus! {

/// The environment variable whose presence selects wrapper mode.
pub const WRAPPER_ENV: &'static str = "__CARGO_STITCH_WRAP";

/// The environment variable that hands the workspace root to wrapper mode.
pub const WORKSPACE_ROOT_ENV: &'static str = "__CARGO_STITCH_WORKSPACE_ROOT";

/// The environment variable that hands the manifest to wrapper mode.
pub const STITCH_MANIFEST_ENV: &'static str = "__CARGO_STITCH_MANIFEST";

/// The environment variable in which the build tool names the package that
/// is being compiled.
pub const PACKAGE_NAME_ENV: &'static str = "CARGO_PKG_NAME";

/// The environment variable in which the build tool names the directory of
/// the package that is being compiled.
pub const PACKAGE_DIR_ENV: &'static str = "CARGO_MANIFEST_DIR";

/// The two modes of the program.
#[derive(Clone, Copy, Debug, PartialEq, Eq, Structural)]
pub enum Mode {
    /// Run once per build: discover the modifications and start the build
    /// tool.
    Orchestrate,
    /// Run once per compiler invocation, below the orchestrator.
    Wrap,
}

/// The mode that the wrapper flag selects: wrapper mode where the flag is
/// set, whatever it holds.
pub open spec fn mode_of(wrapper_flag: bool) -> Mode {
    if wrapper_flag {
        Mode::Wrap
    } else {
        Mode::Orchestrate
    }
}

/// The first engine that is missing, the diff engine first; `None` where
/// both were found.
pub open spec fn missing_tool(patch_found: bool, sg_found: bool) -> Option<Seq<char>> {
    if !patch_found {
        Some("patch"@)
    } else if !sg_found {
        Some("sg (ast-grep)"@)
    } else {
        None
    }
}

/// Checks that both engines were found.
pub fn check_required_tools(patch_found: bool, sg_found: bool) -> (result: Result<(), MissingTool>)
    ensures
        match result {
            Ok(_) => missing_tool(patch_found, sg_found) is None,
            Err(missing) => missing_tool(patch_found, sg_found) == Some(missing.0@),
        },
{
    if !patch_found {
        Err(MissingTool("patch"))
    } else if !sg_found {
        Err(MissingTool("sg (ast-grep)"))
    } else {
        Ok(())
    }
}

/// Decides how an invocation of the program proceeds. The engines are
/// checked before anything else; then the wrapper flag selects the mode.
pub fn run(patch_found: bool, sg_found: bool, wrapper_flag: bool) -> (result: Result<Mode, Error>)
    ensures
        match result {
            Ok(mode) => missing_tool(patch_found, sg_found) is None && mode == mode_of(
                wrapper_flag,
            ),
            Err(error) => missing_tool(patch_found, sg_found) matches Some(name) && error@
                == Failure::MissingExternalTool(name),
        },
{
    match check_required_tools(patch_found, sg_found) {
        Err(missing) => Err(Error::MissingTool(missing)),
        Ok(_) => if wrapper_flag {
            Ok(Mode::Wrap)
        } else {
            Ok(Mode::Orchestrate)
        },
    }
}

} // verus!
