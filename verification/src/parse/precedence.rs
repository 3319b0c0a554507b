//! Binding strengths of the operators.

use vstd::prelude::*;
use crate::token::{Token, TokenView};

verus! {

/// How strongly an operator binds, from weakest to strongest.
#[derive(Debug, PartialEq, PartialOrd, Eq, Ord, Clone, Copy, Structural)]
pub enum Precedence {
    Lowest,
    Equals,
    LessGreater,
    Sum,
    Product,
    Prefix,
    Call,
    Index,
}

/// The rank of a precedence: a stronger binding has a greater rank.
pub open spec fn precedence_level(precedence: Precedence) -> int {
    match precedence {
        Precedence::Lowest => 0,
        Precedence::Equals => 1,
        Precedence::LessGreater => 2,
        Precedence::Sum => 3,
        Precedence::Product => 4,
        Precedence::Prefix => 5,
        Precedence::Call => 6,
        Precedence::Index => 7,
    }
}

/// The precedence with which a token continues an expression.
pub open spec fn precedence_of(token: TokenView) -> Precedence {
    match token {
        TokenView::Eq | TokenView::NotEq => Precedence::Equals,
        TokenView::Lt | TokenView::Gt => Precedence::LessGreater,
        TokenView::Plus | TokenView::Minus => Precedence::Sum,
        TokenView::Slash | TokenView::Asterisk => Precedence::Product,
        TokenView::Lparen => Precedence::Call,
        TokenView::LBracket => Precedence::Index,
        _ => Precedence::Lowest,
    }
}

/// The precedence of an optional token; the end of the input binds weakest.
pub open spec fn precedence_of_optional(token: Option<TokenView>) -> Precedence {
    match token {
        Some(token) => precedence_of(token),
        None => Precedence::Lowest,
    }
}

impl Precedence {
    /// The rank of the precedence.
    pub fn level(&self) -> (level: u8)
        ensures
            level == precedence_level(*self),
    {
        match self {
            Precedence::Lowest => 0,
            Precedence::Equals => 1,
            Precedence::LessGreater => 2,
            Precedence::Sum => 3,
            Precedence::Product => 4,
            Precedence::Prefix => 5,
            Precedence::Call => 6,
            Precedence::Index => 7,
        }
    }

    /// The precedence with which `token` continues an expression.
    pub fn from_token(token: &Token) -> (precedence: Precedence)
        ensures
            precedence == precedence_of(token@),
    {
        match token {
            Token::Eq | Token::NotEq => Precedence::Equals,
            Token::Lt | Token::Gt => Precedence::LessGreater,
            Token::Plus | Token::Minus => Precedence::Sum,
            Token::Slash | Token::Asterisk => Precedence::Product,
            Token::Lparen => Precedence::Call,
            Token::LBracket => Precedence::Index,
            _ => Precedence::Lowest,
        }
    }

    /// The precedence of an optional token.
    pub fn from_optional(token: Option<&Token>) -> (precedence: Precedence)
        ensures
            precedence == precedence_of_optional(
                match token {
                    Some(token) => Some(token@),
                    None => None,
                },
            ),
    {
        match token {
            Some(token) => Precedence::from_token(token),
            None => Precedence::Lowest,
        }
    }
}

} // verus!
