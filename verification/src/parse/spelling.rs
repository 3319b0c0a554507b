//! How tokens are spelled, and the proof that the lexer reads spelled
//! tokens back.

use vstd::prelude::*;
use crate::lexer::{
    byte_at, digits_end, is_digit_byte, is_letter_byte, is_whitespace_byte, letters_end, scan,
    scan_all,
};
use crate::text::ascii_text;
use crate::token::{keyword_or_ident, TokenView};

verus! {

/// The bytes of a text of ASCII characters.
pub open spec fn bytes_of(text: Seq<char>) -> Seq<u8> {
    Seq::new(text.len(), |i: int| text[i] as u8)
}

/// Whether a character is a letter of identifiers.
pub open spec fn is_letter_char(c: char) -> bool {
    ('a' <= c && c <= 'z') || ('A' <= c && c <= 'Z') || c == '_'
}

/// Whether a character is a decimal digit.
pub open spec fn is_digit_char(c: char) -> bool {
    '0' <= c && c <= '9'
}

/// Whether a text is a word: one letter or more.
pub open spec fn is_word(text: Seq<char>) -> bool {
    text.len() >= 1 && forall|i: int| 0 <= i < text.len() ==> is_letter_char(#[trigger] text[i])
}

/// Whether a text is a number: one digit or more.
pub open spec fn is_number(text: Seq<char>) -> bool {
    text.len() >= 1 && forall|i: int| 0 <= i < text.len() ==> is_digit_char(#[trigger] text[i])
}

/// The word that spells a token, for the tokens that are spelled in
/// letters.
pub open spec fn word_of(token: TokenView) -> Option<Seq<char>> {
    match token {
        TokenView::Ident(name) => Some(name),
        TokenView::Function => Some("fn"@),
        TokenView::Let => Some("let"@),
        TokenView::True => Some("true"@),
        TokenView::False => Some("false"@),
        TokenView::If => Some("if"@),
        TokenView::Else => Some("else"@),
        TokenView::Return => Some("return"@),
        _ => None,
    }
}

/// The bytes that spell a token, for the tokens that are spelled in signs.
pub open spec fn signs_of(token: TokenView) -> Option<Seq<u8>> {
    match token {
        TokenView::Assign => Some(seq![61u8]),
        TokenView::Plus => Some(seq![43u8]),
        TokenView::Minus => Some(seq![45u8]),
        TokenView::Bang => Some(seq![33u8]),
        TokenView::Asterisk => Some(seq![42u8]),
        TokenView::Slash => Some(seq![47u8]),
        TokenView::Lt => Some(seq![60u8]),
        TokenView::Gt => Some(seq![62u8]),
        TokenView::Eq => Some(seq![61u8, 61u8]),
        TokenView::NotEq => Some(seq![33u8, 61u8]),
        TokenView::Comma => Some(seq![44u8]),
        TokenView::Semicolon => Some(seq![59u8]),
        TokenView::Colon => Some(seq![58u8]),
        TokenView::Lparen => Some(seq![40u8]),
        TokenView::Rparen => Some(seq![41u8]),
        TokenView::Lsquigly => Some(seq![123u8]),
        TokenView::Rsquigly => Some(seq![125u8]),
        TokenView::LBracket => Some(seq![91u8]),
        TokenView::RBracket => Some(seq![93u8]),
        _ => None,
    }
}

/// The bytes that spell a token.
pub open spec fn spelled(token: TokenView) -> Seq<u8> {
    match token {
        TokenView::Int(digits) => bytes_of(digits),
        _ => match word_of(token) {
            Some(word) => bytes_of(word),
            None => match signs_of(token) {
                Some(signs) => signs,
                None => Seq::empty(),
            },
        },
    }
}

/// Whether a name is none of the keywords.
pub open spec fn is_no_keyword(name: Seq<char>) -> bool {
    name != "fn"@ && name != "let"@ && name != "true"@ && name != "false"@ && name != "if"@
        && name != "else"@ && name != "return"@
}

/// Whether a token has a spelling from which the lexer reads it back: an
/// identifier is a word and no keyword, an integer a number; strings and
/// illegal bytes have none.
pub open spec fn spellable(token: TokenView) -> bool {
    match token {
        TokenView::Ident(name) => is_word(name) && is_no_keyword(name),
        TokenView::Int(digits) => is_number(digits),
        TokenView::Str(_) => false,
        TokenView::Illegal(_) => false,
        TokenView::Eof => false,
        _ => true,
    }
}

/// Whether the spelling of a token and a byte behind it would be read as
/// one token: a letter behind a word, a digit behind a number, `=` behind
/// `=` or `!`.
pub open spec fn merges(token: TokenView, next: u8) -> bool {
    ||| (word_of(token) is Some && is_letter_byte(next))
    ||| (token is Int && is_digit_byte(next))
    ||| ((token is Assign || token is Bang) && next == 61)
}

/// Tokens with a mark each that tells whether a space follows the token.
pub type Spaced = Seq<(TokenView, bool)>;

/// The bytes of the first `upto` tokens with their spaces.
pub open spec fn spaced_bytes(list: Spaced, upto: int) -> Seq<u8>
    decreases upto,
{
    if upto <= 0 || upto > list.len() {
        Seq::empty()
    } else {
        spaced_bytes(list, upto - 1) + spelled(list[upto - 1].0) + (if list[upto - 1].1 {
            seq![32u8]
        } else {
            Seq::empty()
        })
    }
}

/// The tokens of a list from the `from`-th on.
pub open spec fn tokens_from(list: Spaced, from: int) -> Seq<TokenView>
    decreases list.len() - from,
{
    if from < 0 || from >= list.len() {
        Seq::empty()
    } else {
        seq![list[from].0] + tokens_from(list, from + 1)
    }
}

/// Whether every token of a list can be read back where it stands: it is
/// spellable, and where no space follows it, it does not merge with the
/// token behind it.
pub open spec fn readable(list: Spaced) -> bool {
    forall|i: int|
        0 <= i < list.len() ==> spellable((#[trigger] list[i]).0) && (i + 1 < list.len()
            && !list[i].1 ==> !merges(list[i].0, spelled(list[i + 1].0)[0]))
}

/// Every spellable token has a spelling of one byte or more, whose first
/// byte is no whitespace and no zero.
pub proof fn lemma_spelled(token: TokenView)
    requires
        spellable(token),
    ensures
        spelled(token).len() >= 1,
        !is_whitespace_byte(spelled(token)[0]),
{
    reveal_strlit("fn");
    reveal_strlit("let");
    reveal_strlit("true");
    reveal_strlit("false");
    reveal_strlit("if");
    reveal_strlit("else");
    reveal_strlit("return");
    match token {
        TokenView::Ident(name) => {
            assert(is_letter_char(name[0]));
        },
        TokenView::Int(digits) => {
            assert(is_digit_char(digits[0]));
        },
        _ => {},
    }
}

/// The words of the keywords are words, and are read as the keywords.
pub proof fn lemma_keywords(token: TokenView)
    requires
        word_of(token) is Some,
        spellable(token),
    ensures
        is_word(word_of(token)->0),
        keyword_or_ident(word_of(token)->0) == token,
{
    reveal_strlit("fn");
    reveal_strlit("let");
    reveal_strlit("true");
    reveal_strlit("false");
    reveal_strlit("if");
    reveal_strlit("else");
    reveal_strlit("return");
    let word = word_of(token)->0;
    match token {
        TokenView::Function => {
            assert(is_letter_char(word[0]) && is_letter_char(word[1]));
        },
        TokenView::Let => {
            assert(is_letter_char(word[0]) && is_letter_char(word[1]) && is_letter_char(word[2]));
        },
        TokenView::True => {
            assert(is_letter_char(word[0]) && is_letter_char(word[1]) && is_letter_char(word[2])
                && is_letter_char(word[3]));
        },
        TokenView::False => {
            assert(is_letter_char(word[0]) && is_letter_char(word[1]) && is_letter_char(word[2])
                && is_letter_char(word[3]) && is_letter_char(word[4]));
        },
        TokenView::If => {
            assert(is_letter_char(word[0]) && is_letter_char(word[1]));
        },
        TokenView::Else => {
            assert(is_letter_char(word[0]) && is_letter_char(word[1]) && is_letter_char(word[2])
                && is_letter_char(word[3]));
        },
        TokenView::Return => {
            assert(is_letter_char(word[0]) && is_letter_char(word[1]) && is_letter_char(word[2])
                && is_letter_char(word[3]) && is_letter_char(word[4]) && is_letter_char(
                word[5],
            ));
        },
        _ => {},
    }
}

/// Whether `piece` lies in `bytes` from `pos` on.
#[verifier::opaque]
pub open spec fn lies(bytes: Seq<u8>, pos: int, piece: Seq<u8>) -> bool {
    &&& 0 <= pos
    &&& pos + piece.len() <= bytes.len()
    &&& forall|i: int| 0 <= i < piece.len() ==> bytes[pos + i] == #[trigger] piece[i]
}

/// Where two pieces lie one after the other, each of them lies.
pub proof fn lemma_lies_split(bytes: Seq<u8>, pos: int, first: Seq<u8>, second: Seq<u8>)
    requires
        lies(bytes, pos, first + second),
    ensures
        lies(bytes, pos, first),
        lies(bytes, pos + first.len(), second),
{
    reveal(lies);
    let both = first + second;
    assert forall|i: int| 0 <= i < first.len() implies bytes[pos + i] == #[trigger] first[i] by {
        assert(both[i] == first[i]);
    }
    assert forall|i: int| 0 <= i < second.len() implies bytes[pos + first.len() + i]
        == #[trigger] second[i] by {
        assert(both[first.len() + i] == second[i]);
    }
}

/// A run of letters ends where the letters end.
proof fn lemma_letters_run(bytes: Seq<u8>, pos: int, word: Seq<char>, done: int)
    requires
        is_word(word),
        lies(bytes, pos, bytes_of(word)),
        0 <= done <= word.len(),
        !is_letter_byte(byte_at(bytes, pos + word.len())),
    ensures
        letters_end(bytes, pos + done) == pos + word.len(),
    decreases word.len() - done,
{
    reveal(lies);
    if done < word.len() {
        assert(bytes[pos + done] == bytes_of(word)[done]);
        assert(is_letter_char(word[done]));
        lemma_letters_run(bytes, pos, word, done + 1);
    }
}

/// A run of digits ends where the digits end.
proof fn lemma_digits_run(bytes: Seq<u8>, pos: int, digits: Seq<char>, done: int)
    requires
        is_number(digits),
        lies(bytes, pos, bytes_of(digits)),
        0 <= done <= digits.len(),
        !is_digit_byte(byte_at(bytes, pos + digits.len())),
    ensures
        digits_end(bytes, pos + done) == pos + digits.len(),
    decreases digits.len() - done,
{
    reveal(lies);
    if done < digits.len() {
        assert(bytes[pos + done] == bytes_of(digits)[done]);
        assert(is_digit_char(digits[done]));
        lemma_digits_run(bytes, pos, digits, done + 1);
    }
}

/// A word that is followed by no letter is read as its keyword or as an
/// identifier.
pub proof fn lemma_scan_word(bytes: Seq<u8>, pos: int, word: Seq<char>)
    requires
        is_word(word),
        lies(bytes, pos, bytes_of(word)),
        !is_letter_byte(byte_at(bytes, pos + word.len())),
    ensures
        scan(bytes, pos) == (Some(keyword_or_ident(word)), pos + word.len()),
{
    lemma_letters_run(bytes, pos, word, 0);
    reveal(lies);
    assert(bytes[pos + 0] == bytes_of(word)[0]);
    assert(is_letter_char(word[0]));
    let piece = bytes.subrange(pos, pos + word.len());
    assert(ascii_text(piece) =~= word) by {
        assert forall|i: int| 0 <= i < word.len() implies ascii_text(piece)[i] == word[i] by {
            assert(bytes[pos + i] == bytes_of(word)[i]);
            assert(is_letter_char(word[i]));
        }
    }
}

/// A number that is followed by no digit is read as an integer token.
pub proof fn lemma_scan_number(bytes: Seq<u8>, pos: int, digits: Seq<char>)
    requires
        is_number(digits),
        lies(bytes, pos, bytes_of(digits)),
        !is_digit_byte(byte_at(bytes, pos + digits.len())),
    ensures
        scan(bytes, pos) == (Some(TokenView::Int(digits)), pos + digits.len()),
{
    lemma_digits_run(bytes, pos, digits, 0);
    reveal(lies);
    assert(bytes[pos + 0] == bytes_of(digits)[0]);
    assert(is_digit_char(digits[0]));
    let piece = bytes.subrange(pos, pos + digits.len());
    assert(ascii_text(piece) =~= digits) by {
        assert forall|i: int| 0 <= i < digits.len() implies ascii_text(piece)[i] == digits[i] by {
            assert(bytes[pos + i] == bytes_of(digits)[i]);
            assert(is_digit_char(digits[i]));
        }
    }
}

/// A token of signs that does not merge with the byte behind it is read as
/// the token.
pub proof fn lemma_scan_signs(bytes: Seq<u8>, pos: int, token: TokenView)
    requires
        signs_of(token) is Some,
        lies(bytes, pos, signs_of(token)->0),
        !merges(token, byte_at(bytes, pos + signs_of(token)->0.len())),
    ensures
        scan(bytes, pos) == (Some(token), pos + signs_of(token)->0.len()),
{
    reveal(lies);
    let signs = signs_of(token)->0;
    assert(bytes[pos + 0] == signs[0]);
    if signs.len() == 2 {
        assert(bytes[pos + 1] == signs[1]);
    }
}

/// A space is skipped.
pub proof fn lemma_scan_space(bytes: Seq<u8>, pos: int)
    requires
        0 <= pos < bytes.len(),
        bytes[pos] == 32,
    ensures
        scan(bytes, pos) == scan(bytes, pos + 1),
{
}

/// Bytes lie where they are.
proof fn lemma_lies_whole(bytes: Seq<u8>)
    ensures
        lies(bytes, 0, bytes),
{
    reveal(lies);
}

/// The first byte of what lies is the byte at its position.
proof fn lemma_lies_first(bytes: Seq<u8>, pos: int, piece: Seq<u8>)
    requires
        lies(bytes, pos, piece),
        piece.len() >= 1,
    ensures
        byte_at(bytes, pos) == piece[0],
        0 <= pos < bytes.len(),
{
    reveal(lies);
    assert(bytes[pos + 0] == piece[0]);
}

/// What lies lies within the bytes.
proof fn lemma_lies_bounds(bytes: Seq<u8>, pos: int, piece: Seq<u8>)
    requires
        lies(bytes, pos, piece),
    ensures
        0 <= pos,
        pos + piece.len() <= bytes.len(),
{
    reveal(lies);
}

/// Where the first `longer` tokens lie, the first `shorter` lie.
proof fn lemma_spaced_prefix(bytes: Seq<u8>, list: Spaced, shorter: int, longer: int)
    requires
        0 <= shorter <= longer <= list.len(),
        lies(bytes, 0, spaced_bytes(list, longer)),
    ensures
        lies(bytes, 0, spaced_bytes(list, shorter)),
    decreases longer - shorter,
{
    if shorter < longer {
        let mark = if list[longer - 1].1 {
            seq![32u8]
        } else {
            Seq::<u8>::empty()
        };
        lemma_lies_split(
            bytes,
            0,
            spaced_bytes(list, longer - 1) + spelled(list[longer - 1].0),
            mark,
        );
        lemma_lies_split(bytes, 0, spaced_bytes(list, longer - 1), spelled(list[longer - 1].0));
        lemma_spaced_prefix(bytes, list, shorter, longer - 1);
    }
}

/// Where the `count`-th token lies among the bytes of a list, and what
/// follows it: a space, the first byte of the next token, or the end.
proof fn lemma_token_lies(list: Spaced, count: int, bytes: Seq<u8>)
    requires
        readable(list),
        bytes == spaced_bytes(list, list.len() as int),
        0 <= count < list.len(),
    ensures
        ({
            let pos = spaced_bytes(list, count).len() as int;
            let spelling = spelled(list[count].0);
            &&& spelling.len() >= 1
            &&& lies(bytes, pos, spelling)
            &&& spaced_bytes(list, count + 1).len() == pos + spelling.len() + (if list[count].1 {
                1int
            } else {
                0int
            })
            &&& spaced_bytes(list, count + 1).len() <= bytes.len()
            &&& list[count].1 ==> byte_at(bytes, pos + spelling.len()) == 32
            &&& !list[count].1 && count + 1 < list.len() ==> byte_at(bytes, pos + spelling.len())
                == spelled(list[count + 1].0)[0]
            &&& !list[count].1 && count + 1 == list.len() ==> byte_at(bytes, pos + spelling.len())
                == 0
        }),
{
    let pos = spaced_bytes(list, count).len() as int;
    let spelling = spelled(list[count].0);
    let mark = if list[count].1 {
        seq![32u8]
    } else {
        Seq::<u8>::empty()
    };
    assert(spellable(list[count].0));
    lemma_spelled(list[count].0);
    lemma_lies_whole(bytes);
    lemma_spaced_prefix(bytes, list, count + 1, list.len() as int);
    lemma_lies_split(bytes, 0, spaced_bytes(list, count) + spelling, mark);
    lemma_lies_split(bytes, 0, spaced_bytes(list, count), spelling);
    lemma_lies_bounds(bytes, 0, spaced_bytes(list, count + 1));
    if list[count].1 {
        lemma_lies_first(bytes, pos + spelling.len(), mark);
    } else if count + 1 < list.len() {
        let next = spelled(list[count + 1].0);
        let next_mark = if list[count + 1].1 {
            seq![32u8]
        } else {
            Seq::<u8>::empty()
        };
        assert(spellable(list[count + 1].0));
        lemma_spelled(list[count + 1].0);
        lemma_spaced_prefix(bytes, list, count + 2, list.len() as int);
        lemma_lies_split(bytes, 0, spaced_bytes(list, count + 1) + next, next_mark);
        lemma_lies_split(bytes, 0, spaced_bytes(list, count + 1), next);
        lemma_lies_first(bytes, pos + spelling.len(), next);
    } else {
        assert(spaced_bytes(list, count + 1) == bytes);
    }
}

/// The `count`-th token of a readable list is read where it lies.
proof fn lemma_scan_token(list: Spaced, count: int, bytes: Seq<u8>)
    requires
        readable(list),
        bytes == spaced_bytes(list, list.len() as int),
        0 <= count < list.len(),
    ensures
        scan(bytes, spaced_bytes(list, count).len() as int) == (
            Some(list[count].0),
            (spaced_bytes(list, count).len() + spelled(list[count].0).len()) as int,
        ),
{
    let pos = spaced_bytes(list, count).len() as int;
    let token = list[count].0;
    let spelling = spelled(token);
    lemma_token_lies(list, count, bytes);
    assert(spellable(token));
    let follows = byte_at(bytes, pos + spelling.len());
    assert(!merges(token, follows)) by {
        if list[count].1 {
        } else if count + 1 < list.len() {
        } else {
        }
    }
    match token {
        TokenView::Int(digits) => {
            lemma_scan_number(bytes, pos, digits);
        },
        _ => {
            if word_of(token) is Some {
                lemma_keywords(token);
                lemma_scan_word(bytes, pos, word_of(token)->0);
            } else {
                lemma_scan_signs(bytes, pos, token);
            }
        },
    }
}

/// At the end of the bytes of a list nothing is read.
proof fn lemma_scan_end(bytes: Seq<u8>)
    ensures
        scan(bytes, bytes.len() as int).0 is None,
        scan_all(bytes, bytes.len() as int) == Seq::<TokenView>::empty(),
{
}

/// The lexer reads a readable list of tokens back from its bytes: from the
/// position of the `count`-th token on it yields that token and those
/// behind it.
pub proof fn lemma_scan_list(list: Spaced, count: int, bytes: Seq<u8>)
    requires
        readable(list),
        bytes == spaced_bytes(list, list.len() as int),
        0 <= count <= list.len(),
    ensures
        scan_all(bytes, spaced_bytes(list, count).len() as int) == tokens_from(list, count),
    decreases list.len() - count,
{
    let pos = spaced_bytes(list, count).len() as int;
    if count == list.len() {
        lemma_scan_end(bytes);
    } else {
        let token = list[count].0;
        let behind = pos + spelled(token).len();
        lemma_token_lies(list, count, bytes);
        lemma_scan_token(list, count, bytes);
        lemma_scan_list(list, count + 1, bytes);
        assert(scan_all(bytes, pos) == seq![token] + scan_all(bytes, behind));
        if list[count].1 {
            lemma_scan_space(bytes, behind);
            if count + 1 < list.len() {
                lemma_token_lies(list, count + 1, bytes);
                lemma_scan_token(list, count + 1, bytes);
            } else {
                lemma_scan_end(bytes);
            }
            assert(scan_all(bytes, behind) == scan_all(bytes, behind + 1));
        }
    }
}

/// The tokens of a list.
pub open spec fn tokens_of(list: Spaced) -> Seq<TokenView> {
    Seq::new(list.len(), |i: int| list[i].0)
}

/// The bytes of a list: its tokens with their spaces.
pub open spec fn all_bytes(list: Spaced) -> Seq<u8> {
    spaced_bytes(list, list.len() as int)
}

/// A list with a space behind its last token.
pub open spec fn with_space(list: Spaced) -> Spaced {
    if list.len() == 0 {
        list
    } else {
        list.update(list.len() - 1, (list.last().0, true))
    }
}

/// Whether a list renders given tokens as given bytes, readably.
pub open spec fn composed(list: Spaced, tokens: Seq<TokenView>, bytes: Seq<u8>) -> bool {
    &&& tokens_of(list) == tokens
    &&& all_bytes(list) == bytes
    &&& readable(list)
}

/// Whether two lists can be joined readably: the last token of the first
/// has a space behind it or does not merge with the first byte of the
/// second.
pub open spec fn joinable(first: Spaced, second_bytes: Seq<u8>) -> bool {
    first.len() == 0 || second_bytes.len() == 0 || first.last().1 || !merges(
        first.last().0,
        second_bytes[0],
    )
}

/// The tokens from the first on are the tokens.
pub proof fn lemma_tokens_from(list: Spaced, from: int)
    requires
        0 <= from <= list.len(),
    ensures
        tokens_from(list, from) == tokens_of(list).subrange(from, list.len() as int),
    decreases list.len() - from,
{
    if from < list.len() {
        lemma_tokens_from(list, from + 1);
        assert(tokens_of(list).subrange(from, list.len() as int) =~= seq![list[from].0]
            + tokens_of(list).subrange(from + 1, list.len() as int));
    } else {
        assert(tokens_of(list).subrange(from, list.len() as int) =~= Seq::empty());
    }
}

/// The bytes of a list depend on the tokens that are counted only.
proof fn lemma_spaced_bytes_prefix(first: Spaced, second: Spaced, upto: int)
    requires
        0 <= upto <= first.len(),
        upto <= second.len(),
        forall|i: int| 0 <= i < upto ==> first[i] == second[i],
    ensures
        spaced_bytes(first, upto) == spaced_bytes(second, upto),
    decreases upto,
{
    if upto > 0 {
        lemma_spaced_bytes_prefix(first, second, upto - 1);
    }
}

/// The bytes of two lists one after the other are the bytes of the one and
/// then those of the other.
proof fn lemma_bytes_concat(first: Spaced, second: Spaced, upto: int)
    requires
        0 <= upto <= second.len(),
    ensures
        spaced_bytes(first + second, first.len() + upto) == all_bytes(first) + spaced_bytes(
            second,
            upto,
        ),
    decreases upto,
{
    let both = first + second;
    if upto == 0 {
        lemma_spaced_bytes_prefix(both, first, first.len() as int);
        assert(all_bytes(first) + spaced_bytes(second, 0) =~= all_bytes(first));
    } else {
        lemma_bytes_concat(first, second, upto - 1);
        assert(both[first.len() + upto - 1] == second[upto - 1]);
        let mark = if second[upto - 1].1 {
            seq![32u8]
        } else {
            Seq::<u8>::empty()
        };
        assert(all_bytes(first) + spaced_bytes(second, upto - 1) + spelled(second[upto - 1].0)
            + mark =~= all_bytes(first) + (spaced_bytes(second, upto - 1) + spelled(
            second[upto - 1].0,
        ) + mark));
    }
}

/// The bytes of a list begin with the spelling of its first token.
pub proof fn lemma_first_byte(list: Spaced)
    requires
        list.len() >= 1,
        spellable(list[0].0),
    ensures
        all_bytes(list).len() >= 1,
        all_bytes(list)[0] == spelled(list[0].0)[0],
{
    lemma_spelled(list[0].0);
    lemma_first_byte_upto(list, list.len() as int);
}

proof fn lemma_first_byte_upto(list: Spaced, upto: int)
    requires
        1 <= upto <= list.len(),
        spelled(list[0].0).len() >= 1,
    ensures
        spaced_bytes(list, upto).len() >= 1,
        spaced_bytes(list, upto)[0] == spelled(list[0].0)[0],
    decreases upto,
{
    if upto > 1 {
        lemma_first_byte_upto(list, upto - 1);
    } else {
        assert(spaced_bytes(list, 0).len() == 0);
    }
}

/// A single spellable token renders itself.
pub proof fn lemma_single(token: TokenView, space: bool)
    requires
        spellable(token),
    ensures
        composed(
            seq![(token, space)],
            seq![token],
            spelled(token) + (if space {
                seq![32u8]
            } else {
                Seq::<u8>::empty()
            }),
        ),
{
    let list = seq![(token, space)];
    assert(tokens_of(list) =~= seq![token]);
    assert(spaced_bytes(list, 0) =~= Seq::<u8>::empty());
    let mark = if space {
        seq![32u8]
    } else {
        Seq::<u8>::empty()
    };
    assert(all_bytes(list) =~= spelled(token) + mark);
}

/// Two renderings that can be joined render, one after the other, the
/// tokens and the bytes of both.
pub proof fn lemma_join(
    first: Spaced,
    first_tokens: Seq<TokenView>,
    first_bytes: Seq<u8>,
    second: Spaced,
    second_tokens: Seq<TokenView>,
    second_bytes: Seq<u8>,
)
    requires
        composed(first, first_tokens, first_bytes),
        composed(second, second_tokens, second_bytes),
        joinable(first, second_bytes),
    ensures
        composed(first + second, first_tokens + second_tokens, first_bytes + second_bytes),
{
    let both = first + second;
    assert(tokens_of(both) =~= first_tokens + second_tokens);
    lemma_bytes_concat(first, second, second.len() as int);
    assert forall|i: int| 0 <= i < both.len() implies spellable((#[trigger] both[i]).0) && (i + 1
        < both.len() && !both[i].1 ==> !merges(both[i].0, spelled(both[i + 1].0)[0])) by {
        if i < first.len() {
            assert(both[i] == first[i]);
            if i + 1 < first.len() {
                assert(both[i + 1] == first[i + 1]);
            } else if i + 1 < both.len() {
                assert(both[i + 1] == second[0]);
                assert(spellable(second[0].0));
                lemma_first_byte(second);
            }
        } else {
            assert(both[i] == second[i - first.len()]);
            if i + 1 < both.len() {
                assert(both[i + 1] == second[i + 1 - first.len()]);
            }
        }
    }
}

/// A rendering with a space behind its last token renders the same tokens,
/// and its bytes with a space behind them.
pub proof fn lemma_with_space(list: Spaced, tokens: Seq<TokenView>, bytes: Seq<u8>)
    requires
        composed(list, tokens, bytes),
        list.len() >= 1,
        !list.last().1,
    ensures
        composed(with_space(list), tokens, bytes + seq![32u8]),
{
    let spaced = with_space(list);
    let last = list.len() - 1;
    assert(tokens_of(spaced) =~= tokens);
    lemma_spaced_bytes_prefix(spaced, list, last);
    assert(all_bytes(list) == spaced_bytes(list, last) + spelled(list[last].0) + Seq::<
        u8,
    >::empty());
    assert(all_bytes(spaced) =~= bytes + seq![32u8]);
    assert forall|i: int| 0 <= i < spaced.len() implies spellable((#[trigger] spaced[i]).0) && (i
        + 1 < spaced.len() && !spaced[i].1 ==> !merges(spaced[i].0, spelled(spaced[i + 1].0)[0]))
    by {
        assert(spellable(list[i].0));
        if i + 1 < spaced.len() {
            assert(spaced[i] == list[i]);
            assert(spaced[i + 1].0 == list[i + 1].0);
        }
    }
}

/// The lexer reads what a list renders back as the tokens of the list.
pub proof fn lemma_scan_composed(list: Spaced, tokens: Seq<TokenView>, bytes: Seq<u8>)
    requires
        composed(list, tokens, bytes),
    ensures
        scan_all(bytes, 0) == tokens,
{
    lemma_scan_list(list, 0, bytes);
    lemma_tokens_from(list, 0);
    assert(tokens_of(list).subrange(0, list.len() as int) =~= tokens_of(list));
}

} // verus!
