//! What can go wrong while parsing.

use vstd::prelude::*;
use crate::token::{Token, TokenView};

verus! {

/// A parse error. Parsing stops at the first one.
#[derive(Debug, PartialEq)]
pub enum Error {
    /// A token stands where the grammar asks for another.
    UnexpectedToken(Token),
    /// The input ends where the grammar asks for a token.
    UnexpectedEof,
    /// No expression starts with this token, or the input ends where an
    /// expression should start.
    NotAnExpression(Option<Token>),
    /// The digits do not denote a signed 64-bit integer.
    IntegerOverflow(String),
    /// An operator was met with no expression to its left.
    ExpectedLeftExpression,
}

/// The mathematical value of an [`Error`].
pub enum ErrorView {
    UnexpectedToken(TokenView),
    UnexpectedEof,
    NotAnExpression(Option<TokenView>),
    IntegerOverflow(Seq<char>),
    ExpectedLeftExpression,
}

/// The error for a token, or the end of the input, that the grammar does not
/// allow in its place.
pub open spec fn unexpected(token: Option<TokenView>) -> ErrorView {
    match token {
        Some(token) => ErrorView::UnexpectedToken(token),
        None => ErrorView::UnexpectedEof,
    }
}

impl View for Error {
    type V = ErrorView;

    open spec fn view(&self) -> ErrorView {
        match self {
            Error::UnexpectedToken(token) => ErrorView::UnexpectedToken(token@),
            Error::UnexpectedEof => ErrorView::UnexpectedEof,
            Error::NotAnExpression(Some(token)) => ErrorView::NotAnExpression(Some(token@)),
            Error::NotAnExpression(None) => ErrorView::NotAnExpression(None),
            Error::IntegerOverflow(digits) => ErrorView::IntegerOverflow(digits@),
            Error::ExpectedLeftExpression => ErrorView::ExpectedLeftExpression,
        }
    }
}

impl Error {
    /// The error for a token, or the end of the input, that the grammar does
    /// not allow in its place.
    pub fn unexpected_token(token: Option<&Token>) -> (error: Error)
        ensures
            error@ == unexpected(
                match token {
                    Some(token) => Some(token@),
                    None => None,
                },
            ),
    {
        match token {
            Some(token) => Error::UnexpectedToken(token.duplicate()),
            None => Error::UnexpectedEof,
        }
    }
}

} // verus!
