use vstd::prelude::*;

use crate::target::Backend;

verus! {

/// What an operation of the store can fail with.
#[derive(Debug, PartialEq, Eq)]
pub enum BrineError {
    /// No live connection: connect first.
    NotConnected,
    /// The target's scheme names no backend family this library knows.
    UnsupportedBackend,
    /// The backend family is known, but its driver is not part of this build.
    DriverUnavailable(Backend),
    /// The backend could not be reached, or refused the target.
    Connect(String),
    /// A migration step failed; `version` names it. Earlier steps stay applied.
    Migration { version: String, message: String },
    /// A statement failed in the backend.
    Backend(String),
    /// The graceful-close hook failed; the connection was dropped all the same.
    Close(String),
}

} // verus!
