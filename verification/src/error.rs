//! The closed set of failures.
//!
//! Every failure ends the invocation that met it: nothing is retried, and the
//! process exits with a code other than zero.

use vstd::prelude::*;
use crate::text::{push_signed_decimal, signed_decimal};

verus! {

/// A failure, as contracts speak of it.
pub enum Failure {
    /// A file system operation or the start of a process failed; the text is
    /// the system's report.
    Io(Seq<char>),
    /// The diff engine rejected this patch file.
    PatchApplication(Seq<char>),
    /// The rewrite engine rejected this rule file.
    StructuralRule(Seq<char>),
    /// The build tool ended with this status.
    BuildTool(int),
    /// Wrapper mode was entered without this environment variable.
    MissingCoordinationState(Seq<char>),
    /// This engine was not found at startup.
    MissingExternalTool(Seq<char>),
}

/// A file system or process-spawn error, by the system's report of it.
#[derive(Debug, PartialEq, Eq)]
pub struct IoError(pub String);

/// The patch file that the diff engine rejected.
#[derive(Debug, PartialEq, Eq)]
pub struct PatchFailed(pub String);

/// The rule file that the rewrite engine rejected.
#[derive(Debug, PartialEq, Eq)]
pub struct AstGrepFailed(pub String);

/// The status with which the build tool ended.
#[derive(Debug, PartialEq, Eq)]
pub struct CargoFailed(pub i32);

/// The environment variable that wrapper mode did not find.
#[derive(Debug, PartialEq, Eq)]
pub struct MissingEnvVar(pub &'static str);

/// The engine that was not found.
#[derive(Debug, PartialEq, Eq)]
pub struct MissingTool(pub &'static str);

/// Any failure of an invocation.
#[derive(Debug, PartialEq, Eq)]
pub enum Error {
    Io(IoError),
    Patch(PatchFailed),
    AstGrep(AstGrepFailed),
    Cargo(CargoFailed),
    MissingEnvVar(MissingEnvVar),
    MissingTool(MissingTool),
}

impl View for IoError {
    type V = Failure;

    open spec fn view(&self) -> Failure {
        Failure::Io(self.0@)
    }
}

impl View for PatchFailed {
    type V = Failure;

    open spec fn view(&self) -> Failure {
        Failure::PatchApplication(self.0@)
    }
}

impl View for AstGrepFailed {
    type V = Failure;

    open spec fn view(&self) -> Failure {
        Failure::StructuralRule(self.0@)
    }
}

impl View for CargoFailed {
    type V = Failure;

    open spec fn view(&self) -> Failure {
        Failure::BuildTool(self.0 as int)
    }
}

impl View for MissingEnvVar {
    type V = Failure;

    open spec fn view(&self) -> Failure {
        Failure::MissingCoordinationState(self.0@)
    }
}

impl View for MissingTool {
    type V = Failure;

    open spec fn view(&self) -> Failure {
        Failure::MissingExternalTool(self.0@)
    }
}

impl View for Error {
    type V = Failure;

    open spec fn view(&self) -> Failure {
        match self {
            Error::Io(e) => e@,
            Error::Patch(e) => e@,
            Error::AstGrep(e) => e@,
            Error::Cargo(e) => e@,
            Error::MissingEnvVar(e) => e@,
            Error::MissingTool(e) => e@,
        }
    }
}

impl Failure {
    /// The line shown to the user for this failure.
    pub open spec fn message(self) -> Seq<char> {
        match self {
            Failure::Io(report) => report,
            Failure::PatchApplication(file) => "failed to apply patch: "@ + file,
            Failure::StructuralRule(file) => "failed to apply ast-grep rule: "@ + file,
            Failure::BuildTool(code) => "cargo exited with status "@ + signed_decimal(code),
            Failure::MissingCoordinationState(name) => "missing environment variable: "@ + name,
            Failure::MissingExternalTool(name) => "required tool not found: "@ + name
                + " (is it installed and in PATH?)"@,
        }
    }

    /// The code with which the process exits on this failure: the build
    /// tool's own status where that is the failure and is not zero, and 1
    /// otherwise.
    pub open spec fn exit_code(self) -> int {
        match self {
            Failure::BuildTool(code) => if code != 0 {
                code
            } else {
                1
            },
            _ => 1,
        }
    }
}

impl IoError {
    /// The line shown to the user.
    pub fn message(&self) -> (out: String)
        ensures
            out@ == self@.message(),
    {
        let mut out = String::new();
        out.append(self.0.as_str());
        assert(out@ =~= self.0@);
        out
    }
}

impl PatchFailed {
    /// The line shown to the user.
    pub fn message(&self) -> (out: String)
        ensures
            out@ == self@.message(),
    {
        let mut out = String::new();
        out.append("failed to apply patch: ");
        out.append(self.0.as_str());
        out
    }
}

impl AstGrepFailed {
    /// The line shown to the user.
    pub fn message(&self) -> (out: String)
        ensures
            out@ == self@.message(),
    {
        let mut out = String::new();
        out.append("failed to apply ast-grep rule: ");
        out.append(self.0.as_str());
        out
    }
}

impl CargoFailed {
    /// The line shown to the user.
    pub fn message(&self) -> (out: String)
        ensures
            out@ == self@.message(),
    {
        let mut out = String::new();
        out.append("cargo exited with status ");
        push_signed_decimal(&mut out, self.0 as i64);
        out
    }
}

impl MissingEnvVar {
    /// The line shown to the user.
    pub fn message(&self) -> (out: String)
        ensures
            out@ == self@.message(),
    {
        let mut out = String::new();
        out.append("missing environment variable: ");
        out.append(self.0);
        out
    }
}

impl MissingTool {
    /// The line shown to the user.
    pub fn message(&self) -> (out: String)
        ensures
            out@ == self@.message(),
    {
        let mut out = String::new();
        out.append("required tool not found: ");
        out.append(self.0);
        out.append(" (is it installed and in PATH?)");
        out
    }
}

impl Error {
    /// The line shown to the user.
    pub fn message(&self) -> (out: String)
        ensures
            out@ == self@.message(),
    {
        match self {
            Error::Io(e) => e.message(),
            Error::Patch(e) => e.message(),
            Error::AstGrep(e) => e.message(),
            Error::Cargo(e) => e.message(),
            Error::MissingEnvVar(e) => e.message(),
            Error::MissingTool(e) => e.message(),
        }
    }

    /// The code with which the process exits on this failure. It is never
    /// zero.
    pub fn exit_code(&self) -> (code: i32)
        ensures
            code == self@.exit_code(),
            code != 0,
    {
        match self {
            Error::Cargo(e) => if e.0 != 0 {
                e.0
            } else {
                1
            },
            _ => 1,
        }
    }
}

/// Every failure ends the process with a code other than zero.
pub proof fn lemma_exit_code_nonzero(failure: Failure)
    ensures
        failure.exit_code() != 0,
{
}

} // verus!
