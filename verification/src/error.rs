//! The error taxonomy of the library.
//!
//! Every failure carries a message naming the offending path or cause, so
//! that callers can report something actionable.

use vstd::prelude::*;

verus! {

/// The kinds of failure the library distinguishes: generic filesystem
/// trouble, codec trouble, serialization trouble, walk/read trouble, and
/// configuration trouble (root or target resolution).
#[derive(Debug)]
pub enum JockeyError {
    Io(String),
    Compression(String),
    InvalidFormat(String),
    Processing(String),
    Config(String),
}

impl JockeyError {
    /// The human-readable message carried by the error, whatever its kind.
    pub fn message(&self) -> (r: &String)
        ensures
            r@ == self.message_view(),
    {
        match self {
            JockeyError::Io(m) => m,
            JockeyError::Compression(m) => m,
            JockeyError::InvalidFormat(m) => m,
            JockeyError::Processing(m) => m,
            JockeyError::Config(m) => m,
        }
    }

    /// The message as a sequence of characters, for contracts.
    pub open spec fn message_view(&self) -> Seq<char> {
        match self {
            JockeyError::Io(m) => m@,
            JockeyError::Compression(m) => m@,
            JockeyError::InvalidFormat(m) => m@,
            JockeyError::Processing(m) => m@,
            JockeyError::Config(m) => m@,
        }
    }
}

} // verus!
