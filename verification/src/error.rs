//! The reasons for which reading the next operation ends without one.

use vstd::prelude::*;
use vstd::string::StringExecFns;

verus! {

/// Why no operation was produced.
#[derive(Debug)]
pub enum GameError {
    /// The player asked to leave.
    Exit,
    /// The input failed; the text says how.
    Other(String),
}

impl GameError {
    /// The message shown to the player for this error.
    pub open spec fn message_spec(self) -> Seq<char> {
        match self {
            GameError::Exit => "Exiting..."@,
            GameError::Other(e) => "Exiting with unexpected error: "@ + e@,
        }
    }

    /// The message shown to the player for this error.
    pub fn message(&self) -> (s: String)
        ensures
            s@ == self.message_spec(),
    {
        match self {
            GameError::Exit => String::from_str("Exiting..."),
            GameError::Other(e) => {
                let mut s = String::from_str("Exiting with unexpected error: ");
                s.append(e.as_str());
                s
            },
        }
    }
}

} // verus!
