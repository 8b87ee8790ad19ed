//! What can go wrong while a value is read.

use vstd::prelude::*;

verus! {

/// An error that occurred during deserialization.
#[derive(Debug, PartialEq, Eq)]
pub enum Error {
    /// The input ended where more bytes were due.
    Io,
    /// The bytes are not well-formed; contains the offset into the input.
    Syntax(usize),
    /// The bytes are well-formed but do not hold what was asked for; contains
    /// the offset into the input where it is known, and a description.
    Semantic(Option<usize>, String),
    /// The input is nested more deeply than the recursion limit allows.
    RecursionLimitExceeded,
}

/// The mathematical counterpart of [`Error`]: offsets are natural numbers and
/// descriptions are sequences of characters.
pub enum Fault {
    Io,
    Syntax(nat),
    Semantic(Option<nat>, Seq<char>),
    RecursionLimitExceeded,
}

impl View for Error {
    type V = Fault;

    open spec fn view(&self) -> Fault {
        match *self {
            Error::Io => Fault::Io,
            Error::Syntax(offset) => Fault::Syntax(offset as nat),
            Error::Semantic(None, message) => Fault::Semantic(None, message@),
            Error::Semantic(Some(offset), message) => Fault::Semantic(
                Some(offset as nat),
                message@,
            ),
            Error::RecursionLimitExceeded => Fault::RecursionLimitExceeded,
        }
    }
}

/// A result with its error taken by its view.
pub open spec fn outcome<T>(result: Result<T, Error>) -> Result<T, Fault> {
    match result {
        Ok(value) => Ok(value),
        Err(error) => Err(error@),
    }
}

impl Error {
    /// An error about the value that starts at `offset`, if that is known.
    pub fn semantic(offset: Option<usize>, message: &str) -> (error: Error)
        ensures
            offset is None ==> error@ == Fault::Semantic(None, message@),
            offset matches Some(at) ==> error@ == Fault::Semantic(Some(at as nat), message@),
    {
        Error::Semantic(offset, message.to_owned())
    }

    /// An error that is tied to no offset.
    pub fn custom(message: &str) -> (error: Error)
        ensures
            error@ == Fault::Semantic(None, message@),
    {
        Error::semantic(None, message)
    }
}

} // verus!
