//! The lexer: from source text to tokens.

use vstd::prelude::*;
use vstd::slice::*;
use vstd::string::*;
use vstd::utf8::{decode_utf8, encode_utf8_valid_utf8, valid_utf8};
use crate::text::{ascii_text, decoded, is_ascii_bytes, lemma_ascii_text, lemma_between_ascii};
use crate::token::{keyword_or_ident, Token, TokenView};

verus! {

pub const LOWER_A: u8 = 97;
pub const LOWER_Z: u8 = 122;
pub const UPPER_A: u8 = 65;
pub const UPPER_Z: u8 = 90;
pub const UNDERSCORE: u8 = 95;
pub const DIGIT_ZERO: u8 = 48;
pub const DIGIT_NINE: u8 = 57;
pub const SPACE: u8 = 32;
pub const TAB: u8 = 9;
pub const LINE_FEED: u8 = 10;
pub const FORM_FEED: u8 = 12;
pub const CARRIAGE_RETURN: u8 = 13;
pub const QUOTE: u8 = 34;
pub const SEMICOLON: u8 = 59;
pub const COLON: u8 = 58;
pub const LEFT_PAREN: u8 = 40;
pub const RIGHT_PAREN: u8 = 41;
pub const COMMA: u8 = 44;
pub const PLUS: u8 = 43;
pub const MINUS: u8 = 45;
pub const LEFT_BRACE: u8 = 123;
pub const RIGHT_BRACE: u8 = 125;
pub const LEFT_BRACKET: u8 = 91;
pub const RIGHT_BRACKET: u8 = 93;
pub const SLASH: u8 = 47;
pub const ASTERISK: u8 = 42;
pub const LESS: u8 = 60;
pub const GREATER: u8 = 62;
pub const EQUALS: u8 = 61;
pub const BANG: u8 = 33;

/// Letters of identifiers: ASCII letters and the underscore.
pub open spec fn is_letter_byte(ch: u8) -> bool {
    (LOWER_A <= ch && ch <= LOWER_Z) || (UPPER_A <= ch && ch <= UPPER_Z) || ch == UNDERSCORE
}

/// ASCII decimal digits.
pub open spec fn is_digit_byte(ch: u8) -> bool {
    DIGIT_ZERO <= ch && ch <= DIGIT_NINE
}

/// ASCII whitespace: space, tab, line feed, form feed, carriage return.
pub open spec fn is_whitespace_byte(ch: u8) -> bool {
    ch == SPACE || ch == TAB || ch == LINE_FEED || ch == FORM_FEED || ch == CARRIAGE_RETURN
}

/// The byte at `pos`, or 0 past the end of the input.
pub open spec fn byte_at(input: Seq<u8>, pos: int) -> u8 {
    if 0 <= pos < input.len() {
        input[pos]
    } else {
        0
    }
}

/// The position after the byte at `pos`; the end of the input is never left.
pub open spec fn advance(input: Seq<u8>, pos: int) -> int {
    if pos < input.len() {
        pos + 1
    } else {
        pos
    }
}

/// The first position from `pos` on that holds no whitespace.
pub open spec fn whitespace_end(input: Seq<u8>, pos: int) -> int
    decreases input.len() - pos,
{
    if 0 <= pos < input.len() && is_whitespace_byte(input[pos]) {
        whitespace_end(input, pos + 1)
    } else {
        pos
    }
}

/// The first position from `pos` on that holds no letter.
pub open spec fn letters_end(input: Seq<u8>, pos: int) -> int
    decreases input.len() - pos,
{
    if 0 <= pos < input.len() && is_letter_byte(input[pos]) {
        letters_end(input, pos + 1)
    } else {
        pos
    }
}

/// The first position from `pos` on that holds no digit.
pub open spec fn digits_end(input: Seq<u8>, pos: int) -> int
    decreases input.len() - pos,
{
    if 0 <= pos < input.len() && is_digit_byte(input[pos]) {
        digits_end(input, pos + 1)
    } else {
        pos
    }
}

/// The first position from `pos` on that holds a double quote, or the end
/// of the input.
pub open spec fn string_end(input: Seq<u8>, pos: int) -> int
    decreases input.len() - pos,
{
    if 0 <= pos < input.len() && input[pos] != QUOTE {
        string_end(input, pos + 1)
    } else {
        pos
    }
}

/// The token of a single punctuation byte that starts no longer operator.
pub open spec fn punctuation(ch: u8) -> Option<TokenView> {
    if ch == SEMICOLON {
        Some(TokenView::Semicolon)
    } else if ch == COLON {
        Some(TokenView::Colon)
    } else if ch == LEFT_PAREN {
        Some(TokenView::Lparen)
    } else if ch == RIGHT_PAREN {
        Some(TokenView::Rparen)
    } else if ch == COMMA {
        Some(TokenView::Comma)
    } else if ch == PLUS {
        Some(TokenView::Plus)
    } else if ch == MINUS {
        Some(TokenView::Minus)
    } else if ch == LEFT_BRACE {
        Some(TokenView::Lsquigly)
    } else if ch == RIGHT_BRACE {
        Some(TokenView::Rsquigly)
    } else if ch == LEFT_BRACKET {
        Some(TokenView::LBracket)
    } else if ch == RIGHT_BRACKET {
        Some(TokenView::RBracket)
    } else if ch == SLASH {
        Some(TokenView::Slash)
    } else if ch == ASTERISK {
        Some(TokenView::Asterisk)
    } else if ch == LESS {
        Some(TokenView::Lt)
    } else if ch == GREATER {
        Some(TokenView::Gt)
    } else {
        None
    }
}

/// The next token of `input` from `pos` on, and the position after it.
/// Whitespace before the token is skipped. There is no token when nothing
/// but whitespace remains; a byte that begins no token is a token by
/// itself.
pub open spec fn scan(input: Seq<u8>, pos: int) -> (Option<TokenView>, int) {
    let p = whitespace_end(input, pos);
    let ch = byte_at(input, p);
    if p < 0 || p >= input.len() {
        (None, p)
    } else if ch == EQUALS {
        if byte_at(input, p + 1) == EQUALS {
            (Some(TokenView::Eq), advance(input, p + 1))
        } else {
            (Some(TokenView::Assign), p + 1)
        }
    } else if ch == BANG {
        if byte_at(input, p + 1) == EQUALS {
            (Some(TokenView::NotEq), advance(input, p + 1))
        } else {
            (Some(TokenView::Bang), p + 1)
        }
    } else if ch == QUOTE {
        let end = string_end(input, p + 1);
        (Some(TokenView::Str(decode_utf8(input.subrange(p + 1, end)))), advance(input, end))
    } else if punctuation(ch) is Some {
        (punctuation(ch), p + 1)
    } else if is_letter_byte(ch) {
        let end = letters_end(input, p);
        (Some(keyword_or_ident(ascii_text(input.subrange(p, end)))), end)
    } else if is_digit_byte(ch) {
        let end = digits_end(input, p);
        (Some(TokenView::Int(ascii_text(input.subrange(p, end)))), end)
    } else {
        (Some(TokenView::Illegal(ch)), p + 1)
    }
}

/// All the tokens of `input` from `pos` on.
pub open spec fn scan_all(input: Seq<u8>, pos: int) -> Seq<TokenView>
    decreases input.len() - pos,
{
    let (token, next) = scan(input, pos);
    match token {
        Some(token) if pos < next <= input.len() => seq![token] + scan_all(input, next),
        _ => Seq::empty(),
    }
}

/// Where there is no token, there is none later either: the scan has come
/// to the end of the input and stays there.
pub proof fn law_no_token_after_the_last(input: Seq<u8>, pos: int)
    requires
        0 <= pos <= input.len(),
        scan(input, pos).0 is None,
    ensures
        scan(input, pos).1 == input.len(),
        scan(input, scan(input, pos).1) == scan(input, pos),
{
    lemma_scan_ends(input, pos);
}

/// There is a token wherever a byte that is no whitespace remains, and a
/// byte that begins no other token is an illegal token that carries it.
pub proof fn law_every_byte_is_read(input: Seq<u8>, pos: int)
    requires
        0 <= pos <= input.len(),
    ensures
        scan(input, pos).0 is None <==> whitespace_end(input, pos) == input.len(),
        ({
            let p = whitespace_end(input, pos);
            let ch = byte_at(input, p);
            p < input.len() && ch != EQUALS && ch != BANG && ch != QUOTE && punctuation(ch) is None
                && !is_letter_byte(ch) && !is_digit_byte(ch) ==> scan(input, pos) == (
                Some(TokenView::Illegal(ch)),
                p + 1,
            )
        }),
{
    lemma_scan_ends(input, pos);
}

/// Each of the four scans stops at or after its start, within the input.
pub proof fn lemma_scan_ends(input: Seq<u8>, pos: int)
    requires
        0 <= pos <= input.len(),
    ensures
        pos <= whitespace_end(input, pos) <= input.len(),
        pos <= letters_end(input, pos) <= input.len(),
        pos <= digits_end(input, pos) <= input.len(),
        pos <= string_end(input, pos) <= input.len(),
    decreases input.len() - pos,
{
    if pos < input.len() {
        lemma_scan_ends(input, pos + 1);
    }
}

/// The view of an optional token.
pub open spec fn token_view(token: Option<Token>) -> Option<TokenView> {
    match token {
        Some(token) => Some(token@),
        None => None,
    }
}

/// The views of a sequence of tokens.
pub open spec fn tokens_view(tokens: Seq<Token>) -> Seq<TokenView> {
    Seq::new(tokens.len(), |i: int| tokens[i]@)
}

fn is_letter(ch: u8) -> (r: bool)
    ensures
        r == is_letter_byte(ch),
{
    (LOWER_A <= ch && ch <= LOWER_Z) || (UPPER_A <= ch && ch <= UPPER_Z) || ch == UNDERSCORE
}

fn is_digit(ch: u8) -> (r: bool)
    ensures
        r == is_digit_byte(ch),
{
    DIGIT_ZERO <= ch && ch <= DIGIT_NINE
}

fn is_whitespace(ch: u8) -> (r: bool)
    ensures
        r == is_whitespace_byte(ch),
{
    ch == SPACE || ch == TAB || ch == LINE_FEED || ch == FORM_FEED || ch == CARRIAGE_RETURN
}

/// A cursor over the bytes of a source text that yields its tokens in order.
pub struct Lexer<'a> {
    input: &'a [u8],
    position: usize,
}

impl<'a> Lexer<'a> {
    #[verifier::type_invariant]
    spec fn in_bounds(self) -> bool {
        self.position <= self.input@.len() && valid_utf8(self.input@)
    }

    /// The bytes of the source text.
    pub closed spec fn input(&self) -> Seq<u8> {
        self.input@
    }

    /// The position of the next byte to read.
    pub closed spec fn position(&self) -> int {
        self.position as int
    }

    /// A lexer at the start of `input`.
    pub fn new(input: &'a str) -> (lexer: Self)
        ensures
            lexer.input() == input.spec_bytes(),
            lexer.position() == 0,
    {
        proof {
            encode_utf8_valid_utf8(input@);
        }
        Lexer { input: input.as_bytes(), position: 0 }
    }

    fn ch(&self) -> (ch: u8)
        ensures
            ch == byte_at(self.input(), self.position()),
    {
        proof {
            use_type_invariant(self);
        }
        if self.position < self.input.len() {
            self.input[self.position]
        } else {
            0
        }
    }

    fn peek_char(&self) -> (ch: u8)
        ensures
            ch == byte_at(self.input(), self.position() + 1),
    {
        proof {
            use_type_invariant(self);
        }
        if self.position < self.input.len() && self.position + 1 < self.input.len() {
            self.input[self.position + 1]
        } else {
            0
        }
    }

    fn read_char(&mut self)
        ensures
            final(self).input() == old(self).input(),
            final(self).position() == advance(old(self).input(), old(self).position()),
    {
        proof {
            use_type_invariant(&*self);
        }
        if self.position < self.input.len() {
            self.position += 1;
        }
    }

    fn skip_whitespace(&mut self)
        ensures
            final(self).input() == old(self).input(),
            final(self).position() == whitespace_end(old(self).input(), old(self).position()),
    {
        proof {
            use_type_invariant(&*self);
        }
        while self.position < self.input.len() && is_whitespace(self.input[self.position])
            invariant
                self.position <= self.input@.len(),
                self.input == old(self).input,
                valid_utf8(self.input@),
                whitespace_end(self.input@, self.position as int) == whitespace_end(
                    old(self).input@,
                    old(self).position as int,
                ),
            decreases self.input@.len() - self.position,
        {
            self.position += 1;
        }
    }

    fn read_identifier(&mut self) -> (text: String)
        ensures
            final(self).input() == old(self).input(),
            final(self).position() == letters_end(old(self).input(), old(self).position()),
            text@ == ascii_text(
                old(self).input().subrange(old(self).position(), final(self).position()),
            ),
    {
        proof {
            use_type_invariant(&*self);
        }
        let start = self.position;
        while self.position < self.input.len() && is_letter(self.input[self.position])
            invariant
                start <= self.position <= self.input@.len(),
                self.input == old(self).input,
                valid_utf8(self.input@),
                letters_end(self.input@, self.position as int) == letters_end(
                    self.input@,
                    start as int,
                ),
                forall|j: int| start <= j < self.position ==> self.input@[j] < 128,
            decreases self.input@.len() - self.position,
        {
            self.position += 1;
        }
        let bytes = slice_subrange(self.input, start, self.position);
        proof {
            assert(is_ascii_bytes(bytes@));
            lemma_ascii_text(bytes@);
        }
        decoded(bytes)
    }

    fn read_number(&mut self) -> (text: String)
        ensures
            final(self).input() == old(self).input(),
            final(self).position() == digits_end(old(self).input(), old(self).position()),
            text@ == ascii_text(
                old(self).input().subrange(old(self).position(), final(self).position()),
            ),
    {
        proof {
            use_type_invariant(&*self);
        }
        let start = self.position;
        while self.position < self.input.len() && is_digit(self.input[self.position])
            invariant
                start <= self.position <= self.input@.len(),
                self.input == old(self).input,
                valid_utf8(self.input@),
                digits_end(self.input@, self.position as int) == digits_end(
                    self.input@,
                    start as int,
                ),
                forall|j: int| start <= j < self.position ==> self.input@[j] < 128,
            decreases self.input@.len() - self.position,
        {
            self.position += 1;
        }
        let bytes = slice_subrange(self.input, start, self.position);
        proof {
            assert(is_ascii_bytes(bytes@));
            lemma_ascii_text(bytes@);
        }
        decoded(bytes)
    }

    /// Reads a string literal whose opening quote is at the current position.
    /// The lexer is left at the closing quote or at the end of the input.
    fn read_string(&mut self) -> (text: String)
        requires
            old(self).position() < old(self).input().len(),
            old(self).input()[old(self).position()] == QUOTE,
        ensures
            final(self).input() == old(self).input(),
            final(self).position() == string_end(old(self).input(), old(self).position() + 1),
            text@ == decode_utf8(
                old(self).input().subrange(old(self).position() + 1, final(self).position()),
            ),
    {
        proof {
            use_type_invariant(&*self);
        }
        if self.position < self.input.len() {
            self.position += 1;
        }
        let start = self.position;
        while self.position < self.input.len() && self.input[self.position] != QUOTE
            invariant
                start <= self.position <= self.input@.len(),
                self.input == old(self).input,
                valid_utf8(self.input@),
                string_end(self.input@, self.position as int) == string_end(
                    self.input@,
                    start as int,
                ),
            decreases self.input@.len() - self.position,
        {
            self.position += 1;
        }
        proof {
            lemma_between_ascii(self.input@, start as int, self.position as int);
        }
        decoded(slice_subrange(self.input, start, self.position))
    }

    /// The next token, or `None` when nothing but whitespace remains; the
    /// lexer is then at the end of the input, and every later call returns
    /// `None` too.
    pub fn next(&mut self) -> (token: Option<Token>)
        ensures
            final(self).input() == old(self).input(),
            (token_view(token), final(self).position()) == scan(
                old(self).input(),
                old(self).position(),
            ),
            token is Some ==> old(self).position() < final(self).position()
                <= final(self).input().len(),
            token is None <==> whitespace_end(old(self).input(), old(self).position())
                == old(self).input().len(),
            token is None ==> final(self).position() == final(self).input().len(),
    {
        self.skip_whitespace();
        proof {
            use_type_invariant(&*self);
            lemma_scan_ends(self.input(), old(self).position());
            lemma_scan_ends(self.input(), self.position());
            if self.position() < self.input().len() {
                lemma_scan_ends(self.input(), self.position() + 1);
            }
        }
        if self.position >= self.input.len() {
            return None;
        }
        let ch = self.ch();
        let token = if ch == EQUALS {
            if self.peek_char() == EQUALS {
                self.read_char();
                Token::Eq
            } else {
                Token::Assign
            }
        } else if ch == BANG {
            if self.peek_char() == EQUALS {
                self.read_char();
                Token::NotEq
            } else {
                Token::Bang
            }
        } else if ch == QUOTE {
            Token::String(self.read_string())
        } else if ch == SEMICOLON {
            Token::Semicolon
        } else if ch == COLON {
            Token::Colon
        } else if ch == LEFT_PAREN {
            Token::Lparen
        } else if ch == RIGHT_PAREN {
            Token::Rparen
        } else if ch == COMMA {
            Token::Comma
        } else if ch == PLUS {
            Token::Plus
        } else if ch == MINUS {
            Token::Minus
        } else if ch == LEFT_BRACE {
            Token::Lsquigly
        } else if ch == RIGHT_BRACE {
            Token::Rsquigly
        } else if ch == LEFT_BRACKET {
            Token::LBracket
        } else if ch == RIGHT_BRACKET {
            Token::RBracket
        } else if ch == SLASH {
            Token::Slash
        } else if ch == ASTERISK {
            Token::Asterisk
        } else if ch == LESS {
            Token::Lt
        } else if ch == GREATER {
            Token::Gt
        } else if is_letter(ch) {
            let name = self.read_identifier();
            // The identifier has been read to its end already.
            return Some(Token::lookup_ident(name.as_str()));
        } else if is_digit(ch) {
            let digits = self.read_number();
            // The number has been read to its end already.
            return Some(Token::Int(digits));
        } else {
            Token::Illegal(ch)
        };
        self.read_char();
        Some(token)
    }

    /// The next token, or [`Token::Eof`] at the end of the input.
    pub fn next_token(&mut self) -> (token: Token)
        ensures
            final(self).input() == old(self).input(),
            final(self).position() == scan(old(self).input(), old(self).position()).1,
            token@ == (match scan(old(self).input(), old(self).position()).0 {
                Some(token) => token,
                None => TokenView::Eof,
            }),
    {
        match self.next() {
            Some(token) => token,
            None => Token::Eof,
        }
    }

    /// All the remaining tokens.
    pub fn collect(self) -> (tokens: Vec<Token>)
        ensures
            tokens_view(tokens@) == scan_all(self.input(), self.position()),
    {
        let mut lexer = self;
        let mut tokens: Vec<Token> = Vec::new();
        loop
            invariant
                lexer.input() == self.input(),
                scan_all(self.input(), self.position()) == tokens_view(tokens@) + scan_all(
                    lexer.input(),
                    lexer.position(),
                ),
            decreases lexer.input().len() - lexer.position(),
        {
            let ghost before = tokens_view(tokens@);
            match lexer.next() {
                Some(token) => {
                    tokens.push(token);
                    assert(tokens_view(tokens@) =~= before + seq![token@]);
                },
                None => {
                    assert(tokens_view(tokens@) + Seq::<TokenView>::empty() =~= tokens_view(
                        tokens@,
                    ));
                    return tokens;
                },
            }
        }
    }
}

} // verus!
