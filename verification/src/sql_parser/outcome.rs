//! How parsing comes out.

use vstd::prelude::*;

use crate::sql_parser::text::no_text;
use crate::sql_parser::token::{token_text, Token, TokenView};

verus! {

/// Why a text could not be parsed.
#[derive(Debug, Clone, PartialEq)]
pub struct ParserError {
    /// The error message.
    pub message: String,
    /// The byte position with which the error is associated.
    pub pos: usize,
}

/// Why a parser function stopped.
#[derive(Debug)]
pub enum Failure {
    /// The text is not in the grammar.
    Error(ParserError),
    /// The grammar takes the word but gives it no meaning.
    Unhandled,
}

/// What a [`Failure`] stands for.
pub enum FailureView {
    Error { pos: int, message: Seq<char> },
    Unhandled,
}

impl View for ParserError {
    type V = (int, Seq<char>);

    open spec fn view(&self) -> (int, Seq<char>) {
        (self.pos as int, self.message@)
    }
}

impl View for Failure {
    type V = FailureView;

    open spec fn view(&self) -> FailureView {
        match self {
            Failure::Error(e) => FailureView::Error { pos: e.pos as int, message: e.message@ },
            Failure::Unhandled => FailureView::Unhandled,
        }
    }
}

impl ParserError {
    /// Constructs an error with the provided message at the provided position.
    pub fn new(pos: usize, message: String) -> (r: ParserError)
        ensures
            r.pos == pos,
            r.message == message,
    {
        ParserError { pos, message }
    }

    /// The text with which the error is shown: its message.
    pub fn to_text(&self) -> (r: String)
        ensures
            r@ == self.message@,
    {
        self.message.clone()
    }
}

/// What a parser function yields: a value, or why there is none, and in either
/// case the index of the first token that was not consumed.
pub enum Out<T> {
    Got(T, int),
    Failed(FailureView, int),
}

/// An error with the given message at the given position.
pub open spec fn error_view(pos: int, message: Seq<char>) -> FailureView {
    FailureView::Error { pos, message }
}

/// An error with the given message at the given position.
pub fn error(pos: usize, message: String) -> (r: Failure)
    ensures
        r@ == error_view(pos as int, message@),
{
    Failure::Error(ParserError::new(pos, message))
}

/// How a token, or the end of the input, is named in a message.
pub open spec fn found_text(found: Option<TokenView>) -> Seq<char> {
    match found {
        Some(t) => token_text(t),
        None => "EOF"@,
    }
}

/// The error that says what was expected and what was found.
pub open spec fn expected_found(pos: int, expected: Seq<char>, found: Option<TokenView>) -> FailureView {
    error_view(pos, no_text() + "Expected "@ + expected + ", found "@ + found_text(found))
}

/// The error that says what was expected and what was found.
pub fn expected(pos: usize, what: &str, found: Option<Token>) -> (r: Failure)
    ensures
        r@ == expected_found(
            pos as int,
            what@,
            match found {
                Some(t) => Some(t@),
                None => None,
            },
        ),
{
    let name = match &found {
        Some(t) => t.text(),
        None => String::from_str("EOF"),
    };
    error(
        pos,
        String::new().concat("Expected ").concat(what).concat(", found ").concat(name.as_str()),
    )
}

/// The error for a statement that is nested too deeply.
pub open spec fn too_deep() -> FailureView {
    error_view(0, "statement exceeds nested expression limit of 128"@)
}

} // verus!
