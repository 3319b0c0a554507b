//! The tokens of the language.

use vstd::prelude::*;
use crate::text::str_eq;

verus! {

/// A lexical token.
#[derive(Debug, Clone, PartialEq, Eq)]
pub enum Token {
    Illegal(u8),
    Eof,
    // Identifiers and literals
    Ident(String),
    Int(String),
    String(String),
    // Operators
    Assign,
    Plus,
    Minus,
    Bang,
    Asterisk,
    Slash,
    Lt,
    Gt,
    Eq,
    NotEq,
    // Delimiters
    Comma,
    Semicolon,
    Colon,
    Lparen,
    Rparen,
    Lsquigly,
    Rsquigly,
    LBracket,
    RBracket,
    // Keywords
    Function,
    Let,
    True,
    False,
    If,
    Else,
    Return,
}

/// The mathematical value of a [`Token`]: the same variants, with texts as
/// sequences of characters.
pub enum TokenView {
    Illegal(u8),
    Eof,
    Ident(Seq<char>),
    Int(Seq<char>),
    Str(Seq<char>),
    Assign,
    Plus,
    Minus,
    Bang,
    Asterisk,
    Slash,
    Lt,
    Gt,
    Eq,
    NotEq,
    Comma,
    Semicolon,
    Colon,
    Lparen,
    Rparen,
    Lsquigly,
    Rsquigly,
    LBracket,
    RBracket,
    Function,
    Let,
    True,
    False,
    If,
    Else,
    Return,
}

/// The keyword that `name` spells, or else the identifier `name`.
pub open spec fn keyword_or_ident(name: Seq<char>) -> TokenView {
    if name == "fn"@ {
        TokenView::Function
    } else if name == "let"@ {
        TokenView::Let
    } else if name == "true"@ {
        TokenView::True
    } else if name == "false"@ {
        TokenView::False
    } else if name == "if"@ {
        TokenView::If
    } else if name == "else"@ {
        TokenView::Else
    } else if name == "return"@ {
        TokenView::Return
    } else {
        TokenView::Ident(name)
    }
}

/// Whether a token can continue an expression: a binary operator, `(` or `[`.
pub open spec fn is_infix_token(token: TokenView) -> bool {
    token is Plus || token is Minus || token is Slash || token is Asterisk || token is Eq
        || token is NotEq || token is Lt || token is Gt || token is Lparen || token is LBracket
}

impl View for Token {
    type V = TokenView;

    open spec fn view(&self) -> TokenView {
        match self {
            Token::Illegal(b) => TokenView::Illegal(*b),
            Token::Eof => TokenView::Eof,
            Token::Ident(s) => TokenView::Ident(s@),
            Token::Int(s) => TokenView::Int(s@),
            Token::String(s) => TokenView::Str(s@),
            Token::Assign => TokenView::Assign,
            Token::Plus => TokenView::Plus,
            Token::Minus => TokenView::Minus,
            Token::Bang => TokenView::Bang,
            Token::Asterisk => TokenView::Asterisk,
            Token::Slash => TokenView::Slash,
            Token::Lt => TokenView::Lt,
            Token::Gt => TokenView::Gt,
            Token::Eq => TokenView::Eq,
            Token::NotEq => TokenView::NotEq,
            Token::Comma => TokenView::Comma,
            Token::Semicolon => TokenView::Semicolon,
            Token::Colon => TokenView::Colon,
            Token::Lparen => TokenView::Lparen,
            Token::Rparen => TokenView::Rparen,
            Token::Lsquigly => TokenView::Lsquigly,
            Token::Rsquigly => TokenView::Rsquigly,
            Token::LBracket => TokenView::LBracket,
            Token::RBracket => TokenView::RBracket,
            Token::Function => TokenView::Function,
            Token::Let => TokenView::Let,
            Token::True => TokenView::True,
            Token::False => TokenView::False,
            Token::If => TokenView::If,
            Token::Else => TokenView::Else,
            Token::Return => TokenView::Return,
        }
    }
}

impl Token {
    /// The keyword token that `ident` spells, or else an identifier token.
    pub fn lookup_ident(ident: &str) -> (token: Token)
        ensures
            token@ == keyword_or_ident(ident@),
    {
        if str_eq(ident, "fn") {
            Token::Function
        } else if str_eq(ident, "let") {
            Token::Let
        } else if str_eq(ident, "true") {
            Token::True
        } else if str_eq(ident, "false") {
            Token::False
        } else if str_eq(ident, "if") {
            Token::If
        } else if str_eq(ident, "else") {
            Token::Else
        } else if str_eq(ident, "return") {
            Token::Return
        } else {
            Token::Ident(ident.to_owned())
        }
    }

    /// Whether the token can continue an expression.
    pub fn is_infix(&self) -> (r: bool)
        ensures
            r == is_infix_token(self@),
    {
        match self {
            Token::Plus
            | Token::Minus
            | Token::Slash
            | Token::Asterisk
            | Token::Eq
            | Token::NotEq
            | Token::Lt
            | Token::Gt
            | Token::Lparen
            | Token::LBracket => true,
            _ => false,
        }
    }

    /// A copy of the token.
    pub fn duplicate(&self) -> (copy: Token)
        ensures
            copy == *self,
    {
        match self {
            Token::Illegal(b) => Token::Illegal(*b),
            Token::Ident(s) => Token::Ident(s.clone()),
            Token::Int(s) => Token::Int(s.clone()),
            Token::String(s) => Token::String(s.clone()),
            Token::Eof => Token::Eof,
            Token::Assign => Token::Assign,
            Token::Plus => Token::Plus,
            Token::Minus => Token::Minus,
            Token::Bang => Token::Bang,
            Token::Asterisk => Token::Asterisk,
            Token::Slash => Token::Slash,
            Token::Lt => Token::Lt,
            Token::Gt => Token::Gt,
            Token::Eq => Token::Eq,
            Token::NotEq => Token::NotEq,
            Token::Comma => Token::Comma,
            Token::Semicolon => Token::Semicolon,
            Token::Colon => Token::Colon,
            Token::Lparen => Token::Lparen,
            Token::Rparen => Token::Rparen,
            Token::Lsquigly => Token::Lsquigly,
            Token::Rsquigly => Token::Rsquigly,
            Token::LBracket => Token::LBracket,
            Token::RBracket => Token::RBracket,
            Token::Function => Token::Function,
            Token::Let => Token::Let,
            Token::True => Token::True,
            Token::False => Token::False,
            Token::If => Token::If,
            Token::Else => Token::Else,
            Token::Return => Token::Return,
        }
    }

    /// Whether two tokens are equal: the same variant with the same text.
    pub fn same(&self, other: &Token) -> (r: bool)
        ensures
            r == (self@ == other@),
    {
        match (self, other) {
            (Token::Illegal(a), Token::Illegal(b)) => *a == *b,
            (Token::Ident(a), Token::Ident(b)) => str_eq(a.as_str(), b.as_str()),
            (Token::Int(a), Token::Int(b)) => str_eq(a.as_str(), b.as_str()),
            (Token::String(a), Token::String(b)) => str_eq(a.as_str(), b.as_str()),
            (Token::Eof, Token::Eof) => true,
            (Token::Assign, Token::Assign) => true,
            (Token::Plus, Token::Plus) => true,
            (Token::Minus, Token::Minus) => true,
            (Token::Bang, Token::Bang) => true,
            (Token::Asterisk, Token::Asterisk) => true,
            (Token::Slash, Token::Slash) => true,
            (Token::Lt, Token::Lt) => true,
            (Token::Gt, Token::Gt) => true,
            (Token::Eq, Token::Eq) => true,
            (Token::NotEq, Token::NotEq) => true,
            (Token::Comma, Token::Comma) => true,
            (Token::Semicolon, Token::Semicolon) => true,
            (Token::Colon, Token::Colon) => true,
            (Token::Lparen, Token::Lparen) => true,
            (Token::Rparen, Token::Rparen) => true,
            (Token::Lsquigly, Token::Lsquigly) => true,
            (Token::Rsquigly, Token::Rsquigly) => true,
            (Token::LBracket, Token::LBracket) => true,
            (Token::RBracket, Token::RBracket) => true,
            (Token::Function, Token::Function) => true,
            (Token::Let, Token::Let) => true,
            (Token::True, Token::True) => true,
            (Token::False, Token::False) => true,
            (Token::If, Token::If) => true,
            (Token::Else, Token::Else) => true,
            (Token::Return, Token::Return) => true,
            _ => false,
        }
    }
}

} // verus!
