//! Error taxonomy of the library: I/O, archive, parse, lookup and lock
//! failures.

use vstd::prelude::*;

verus! {

/// What can go wrong across the library: file I/O, a corrupt archive,
/// malformed chart text, an unknown identity or difficulty, poisoned
/// synchronization state, or an unexpected system condition.
#[derive(Debug, Clone)]
pub enum CoreError {
    Io(String),
    Archive(String),
    Parse(String),
    NotFound(String),
    Lock(String),
    System(String),
}

impl CoreError {
    /// The carried message.
    pub fn message(&self) -> (m: &String)
        ensures
            m@ == (match *self {
                CoreError::Io(ref s) => s@,
                CoreError::Archive(ref s) => s@,
                CoreError::Parse(ref s) => s@,
                CoreError::NotFound(ref s) => s@,
                CoreError::Lock(ref s) => s@,
                CoreError::System(ref s) => s@,
            }),
    {
        match self {
            CoreError::Io(s) => s,
            CoreError::Archive(s) => s,
            CoreError::Parse(s) => s,
            CoreError::NotFound(s) => s,
            CoreError::Lock(s) => s,
            CoreError::System(s) => s,
        }
    }
}

} // verus!
