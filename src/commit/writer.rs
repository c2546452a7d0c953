//! The decisions of writing a commit: refuse when nothing is staged, and report the
//! version-control tool's failure. Running the tool itself is left to the caller.
use vstd::prelude::*;

verus! {

pub const NO_STAGED_CHANGES: &'static str = "There are no staged changes to commit.";

/// The class of a failed write, as an I/O error kind.
#[derive(Clone, Copy, Debug, PartialEq, Eq, Structural)]
pub enum WriteErrorKind {
    /// The request itself was refused.
    InvalidInput,
    /// The version-control tool failed.
    Other,
}

/// Why a commit was not written.
#[derive(Clone, Debug, PartialEq, Eq)]
pub struct WriteError {
    pub kind: WriteErrorKind,
    pub message: String,
}

/// Whether a commit may be written: only when changes are staged.
pub fn check_staged(has_staged_changes: bool) -> (r: Result<(), WriteError>)
    ensures
        r is Ok <==> has_staged_changes,
        r matches Err(e) ==> e.kind == WriteErrorKind::InvalidInput && e.message@
            == NO_STAGED_CHANGES@,
{
    if has_staged_changes {
        Ok(())
    } else {
        Err(WriteError {
            kind: WriteErrorKind::InvalidInput,
            message: String::from_str(NO_STAGED_CHANGES),
        })
    }
}

/// The outcome of running the commit: success, or a failure carrying the tool's
/// error output.
pub fn commit_outcome(success: bool, stderr: String) -> (r: Result<(), WriteError>)
    ensures
        r is Ok <==> success,
        r matches Err(e) ==> e.kind == WriteErrorKind::Other && e.message@ == stderr@,
{
    if success {
        Ok(())
    } else {
        Err(WriteError { kind: WriteErrorKind::Other, message: stderr })
    }
}

} // verus!
