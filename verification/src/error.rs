//! The ways in which a decode fails.

use vstd::prelude::*;
use crate::value::{Tag, Width};

verus! {

/// What a read asked the current value to be.
#[derive(Clone, Copy, Debug, PartialEq, Eq, Structural)]
pub enum Expected {
    Unit,
    Bool,
    Char,
    Integer(Width),
    Float,
    String,
    KeywordOrString,
    Name,
    Identifier,
    List,
}

/// A failed decode. Every failure ends the decode: nothing is retried.
#[allow(inconsistent_fields)]
#[derive(Clone, Debug, PartialEq, Eq)]
pub enum ExecError {
    /// The value's kind is not the one that was asked for.
    TypeMismatch { expected: Expected, found: Tag },
    /// A read went past the end of a list.
    EndOfSequence,
    /// A list held more elements than were read from it.
    ExtraneousElements,
    /// A list of alternating keys and values had an odd length.
    OddKeywordParams,
    /// The leading name of a record was not the one registered for the target.
    NameMismatch { expected: String, found: String },
    /// The target asked for a value of any shape whatever.
    Unsupported,
    /// A message raised by the target's own decoding.
    Custom(String),
}

/// An [`ExecError`] with its texts as sequences of characters.
#[allow(inconsistent_fields)]
pub enum Failure {
    TypeMismatch { expected: Expected, found: Tag },
    EndOfSequence,
    ExtraneousElements,
    OddKeywordParams,
    NameMismatch { expected: Seq<char>, found: Seq<char> },
    Unsupported,
    Custom(Seq<char>),
}

impl View for ExecError {
    type V = Failure;

    open spec fn view(&self) -> Failure {
        match *self {
            ExecError::TypeMismatch { expected, found } => Failure::TypeMismatch {
                expected,
                found,
            },
            ExecError::EndOfSequence => Failure::EndOfSequence,
            ExecError::ExtraneousElements => Failure::ExtraneousElements,
            ExecError::OddKeywordParams => Failure::OddKeywordParams,
            ExecError::NameMismatch { expected, found } => Failure::NameMismatch {
                expected: expected@,
                found: found@,
            },
            ExecError::Unsupported => Failure::Unsupported,
            ExecError::Custom(message) => Failure::Custom(message@),
        }
    }
}

impl ExecError {
    /// The failure that carries a message of the target's own.
    pub fn custom(message: String) -> (e: ExecError)
        ensures
            e@ == Failure::Custom(message@),
    {
        ExecError::Custom(message)
    }

    /// The failure for a value of kind `found` where `expected` was asked for.
    pub fn expected(expected: Expected, found: Tag) -> (e: ExecError)
        ensures
            e@ == (Failure::TypeMismatch { expected, found }),
    {
        ExecError::TypeMismatch { expected, found }
    }
}

} // verus!
