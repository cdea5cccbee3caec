//! What can go wrong when running the external tools.

use vstd::prelude::*;

verus! {

/// The kind of a failure.
#[derive(Clone, Copy, Debug, PartialEq, Eq, Structural)]
pub enum ErrorKind {
    /// The program could not be started (missing binary, permissions).
    SpawnFailure,
    /// The output could not be read as the text or number expected.
    DecodeFailure,
    /// The interactive launch command could not be started.
    LaunchFailure,
}

/// A failure of an external program, with a reason for the user.
#[derive(Debug)]
pub struct ProcessError {
    pub kind: ErrorKind,
    pub reason: String,
}

impl ProcessError {
    pub fn new(kind: ErrorKind, reason: String) -> (r: ProcessError)
        ensures
            r.kind == kind,
            r.reason@ == reason@,
    {
        ProcessError { kind, reason }
    }

    /// A copy of this error.
    pub fn duplicate(&self) -> (r: ProcessError)
        ensures
            r.kind == self.kind,
            r.reason@ == self.reason@,
    {
        ProcessError { kind: self.kind, reason: self.reason.clone() }
    }
}

} // verus!
