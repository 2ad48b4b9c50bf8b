//! The library's errors, as the user reads them.

use vstd::prelude::*;
use crate::text::{owned, push_str};

verus! {

/// A failure of an editing operation.
pub enum Error {
    /// The pedal refused an edit; names what was refused.
    Rejected(String),
    /// An argument refused before anything was sent: nothing reached the pedal.
    Invalid(String),
    /// A whole-preset write abandoned because the device stopped granting flow-control credits.
    WriteStalled(String),
    /// A backup file that cannot be read.
    Backup(String),
    /// Reference data that is not there.
    MissingData(String),
    /// An import of reference data that failed.
    Import(String),
}

/// An error as it is reported.
pub open spec fn error_message(e: Error) -> Seq<char> {
    match e {
        Error::Rejected(m) => "the pedal refused the "@ + m@,
        Error::Invalid(m) => m@,
        Error::WriteStalled(m) => "preset write stalled: "@ + m@,
        Error::Backup(m) => "backup file: "@ + m@,
        Error::MissingData(m) => "reference data: "@ + m@,
        Error::Import(m) => "importing reference data: "@ + m@,
    }
}

impl Error {
    /// The error as it is reported to the user.
    pub fn message(&self) -> (s: String)
        ensures
            s@ == error_message(*self),
    {
        let (head, m) = match self {
            Error::Rejected(m) => ("the pedal refused the ", m),
            Error::Invalid(m) => ("", m),
            Error::WriteStalled(m) => ("preset write stalled: ", m),
            Error::Backup(m) => ("backup file: ", m),
            Error::MissingData(m) => ("reference data: ", m),
            Error::Import(m) => ("importing reference data: ", m),
        };
        let mut s = owned(head);
        push_str(&mut s, m.as_str());
        proof {
            reveal_strlit("");
        }
        s
    }
}

} // verus!
