//! The unified error kind. Failures of the transport, of a search backend, of
//! payload decoding or of the usage tracker are all translated, at the
//! boundary where they occur, into one variant carrying a human-readable
//! message; the dispatch core logs it and keeps the service running.

use vstd::prelude::*;

verus! {

#[derive(Debug)]
pub enum Error {
    General(String),
}

impl Error {
    /// The human-readable message carried by the error.
    pub fn description(&self) -> (r: &str)
        ensures
            r@ == self.spec_message(),
    {
        match self {
            Error::General(msg) => msg.as_str(),
        }
    }

    /// The message carried by the error, as a sequence of characters.
    pub open spec fn spec_message(&self) -> Seq<char> {
        match self {
            Error::General(msg) => msg@,
        }
    }
}

} // verus!
