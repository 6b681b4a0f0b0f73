//! Errors: what went wrong, and the token at which it was found.

use crate::token::{Token, TokenView};
use vstd::prelude::*;

verus! {

/// What went wrong. Every kind ends the expansion.
#[derive(Clone, Copy, Debug, PartialEq, Eq, Structural)]
pub enum ErrorKind {
    /// A closing bracket with no opening bracket among the pending tokens.
    ExcessClosingBracket,
    /// A closing bracket directly behind its opening bracket.
    EmptyCall,
    /// A line that ends behind a commencement character.
    UnterminatedCommencement,
    /// A line that ends inside a quoted token.
    UnterminatedString,
    /// A text that ends inside a call.
    UnterminatedBracket,
    /// A command that was handed the wrong number of arguments.
    ArgumentCountMismatch,
}

impl ErrorKind {
    /// The message that describes the kind.
    pub open spec fn text(self) -> Seq<char> {
        match self {
            ErrorKind::ExcessClosingBracket => "Excess closing bracket."@,
            ErrorKind::EmptyCall => "Empty call."@,
            ErrorKind::UnterminatedCommencement => "Unterminated commencement character."@,
            ErrorKind::UnterminatedString => "Unterminated string."@,
            ErrorKind::UnterminatedBracket => "Unterminated bracket."@,
            ErrorKind::ArgumentCountMismatch => "Argument count mismatch."@,
        }
    }

    pub fn message(self) -> (r: String)
        ensures
            r@ == self.text(),
    {
        match self {
            ErrorKind::ExcessClosingBracket => "Excess closing bracket.".to_owned(),
            ErrorKind::EmptyCall => "Empty call.".to_owned(),
            ErrorKind::UnterminatedCommencement => "Unterminated commencement character.".to_owned(),
            ErrorKind::UnterminatedString => "Unterminated string.".to_owned(),
            ErrorKind::UnterminatedBracket => "Unterminated bracket.".to_owned(),
            ErrorKind::ArgumentCountMismatch => "Argument count mismatch.".to_owned(),
        }
    }
}

pub ghost struct ExceptionView {
    pub kind: ErrorKind,
    pub message: Seq<char>,
    pub token: TokenView,
}

/// An error with the token at which it was found.
#[derive(Debug)]
pub struct Exception<'text> {
    pub kind: ErrorKind,
    pub message: String,
    pub token: Token<'text>,
}

impl<'text> View for Exception<'text> {
    type V = ExceptionView;

    open spec fn view(&self) -> ExceptionView {
        ExceptionView { kind: self.kind, message: self.message@, token: self.token@ }
    }
}

/// The exception of kind `kind` at `token`, with the kind's own message.
pub open spec fn raised(kind: ErrorKind, token: TokenView) -> ExceptionView {
    ExceptionView { kind, message: kind.text(), token }
}

/// A result as contracts see it: the text, or the exception's view.
pub open spec fn outcome(result: Result<String, Exception<'_>>) -> Result<Seq<char>, ExceptionView> {
    match result {
        Ok(text) => Ok(text@),
        Err(exception) => Err(exception@),
    }
}

impl<'text> Exception<'text> {
    pub fn new(kind: ErrorKind, token: Token<'text>) -> (r: Self)
        ensures
            r@ == raised(kind, token@),
    {
        Exception { kind, message: kind.message(), token }
    }
}

} // verus!
