//! The two ways a request to the board can be refused.

use vstd::prelude::*;

verus! {

/// Why a board could not be built or a position could not be used.
#[derive(Clone, Copy, Debug, PartialEq, Eq, Structural)]
pub enum Error {
    /// The board is smaller than nine by nine, or holds more mines than
    /// leave nine cells free.
    InvalidConfigError,
    /// A row or column lies outside the board.
    IndexOutOfBoundError,
}

impl Error {
    /// The text shown to a player for this error.
    pub open spec fn spec_message(&self) -> Seq<char> {
        match self {
            Error::InvalidConfigError => "board configuration is invalid"@,
            Error::IndexOutOfBoundError => "index is out of bound"@,
        }
    }

    /// Returns the text shown to a player for this error.
    pub fn message(&self) -> (text: String)
        ensures
            text@ == self.spec_message(),
    {
        match self {
            Error::InvalidConfigError => "board configuration is invalid".to_owned(),
            Error::IndexOutOfBoundError => "index is out of bound".to_owned(),
        }
    }
}

} // verus!
