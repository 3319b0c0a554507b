//! Text helpers shared by every stage: conversion between bytes and strings,
//! string comparison, and the decimal rendering of integers.

use vstd::prelude::*;
use vstd::string::*;
use vstd::utf8::*;

verus! {

/// Calls `std::str::from_utf8` and copies the text that it returns. The
/// standard library returns the text of the bytes where they are well-formed
/// UTF-8, and an error where they are not.
#[verifier::external_body]
pub(crate) fn text_of_bytes(bytes: &[u8]) -> (text: Option<String>)
    ensures
        valid_utf8(bytes@) ==> text is Some && text->0@ == decode_utf8(bytes@),
        !valid_utf8(bytes@) ==> text is None,
{
    std::str::from_utf8(bytes).ok().map(String::from)
}

/// The text of well-formed UTF-8.
pub(crate) fn decoded(bytes: &[u8]) -> (text: String)
    requires
        valid_utf8(bytes@),
    ensures
        text@ == decode_utf8(bytes@),
{
    match text_of_bytes(bytes) {
        Some(text) => text,
        None => String::new(),
    }
}

/// What stands in well-formed UTF-8 behind an ASCII byte, up to an ASCII
/// byte or to the end, is well-formed UTF-8.
pub proof fn lemma_between_ascii(bytes: Seq<u8>, from: int, to: int)
    requires
        valid_utf8(bytes),
        0 < from <= to <= bytes.len(),
        bytes[from - 1] < 128,
        to < bytes.len() ==> bytes[to] < 128,
    ensures
        valid_utf8(bytes.subrange(from, to)),
{
    let before = from - 1;
    is_char_boundary_iff_not_is_continuation_byte(bytes, before);
    valid_utf8_split(bytes, before);
    let tail = bytes.subrange(before, bytes.len() as int);
    assert(tail[0] == bytes[before]);
    assert(valid_utf8(pop_first_scalar(tail)));
    let rest = tail.subrange(1, tail.len() as int);
    assert(pop_first_scalar(tail) == rest);
    let cut = to - from;
    if cut < rest.len() {
        assert(rest[cut] == bytes[to]);
        is_char_boundary_iff_not_is_continuation_byte(rest, cut);
    } else {
        is_char_boundary_start_end_of_seq(rest);
    }
    valid_utf8_split(rest, cut);
    assert(rest.subrange(0, cut) =~= bytes.subrange(from, to));
}

/// Every byte is below 128.
pub open spec fn is_ascii_bytes(bytes: Seq<u8>) -> bool {
    forall|i: int| 0 <= i < bytes.len() ==> #[trigger] bytes[i] < 128
}

/// The characters that a sequence of ASCII bytes stands for.
pub open spec fn ascii_text(bytes: Seq<u8>) -> Seq<char> {
    Seq::new(bytes.len(), |i: int| bytes[i] as char)
}

/// ASCII bytes are well-formed UTF-8 and decode byte by byte.
pub proof fn lemma_ascii_text(bytes: Seq<u8>)
    requires
        is_ascii_bytes(bytes),
    ensures
        valid_utf8(bytes),
        decode_utf8(bytes) == ascii_text(bytes),
        encode_utf8(ascii_text(bytes)) == bytes,
{
    let chars = ascii_text(bytes);
    assert forall|i: int| 0 <= i < chars.len() implies '\0' <= #[trigger] chars[i] <= '\u{7f}' by {
        assert(bytes[i] < 128);
    }
    is_ascii_chars_encode_utf8(chars);
    assert(encode_utf8(chars) =~= bytes);
    encode_utf8_valid_utf8(chars);
    encode_utf8_decode_utf8(chars);
}

/// Whether two string slices hold the same text.
pub fn str_eq(a: &str, b: &str) -> (r: bool)
    ensures
        r == (a@ == b@),
{
    let x = a.as_bytes();
    let y = b.as_bytes();
    proof {
        encode_utf8_decode_utf8(a@);
        encode_utf8_decode_utf8(b@);
    }
    if x.len() != y.len() {
        return false;
    }
    let mut i: usize = 0;
    while i < x.len()
        invariant
            i <= x.len(),
            x.len() == y.len(),
            x@ == a.spec_bytes(),
            y@ == b.spec_bytes(),
            forall|j: int| 0 <= j < i ==> x@[j] == y@[j],
        decreases x.len() - i,
    {
        if x[i] != y[i] {
            assert(x@[i as int] != y@[i as int]);
            assert(x@ != y@);
            return false;
        }
        i += 1;
    }
    assert(x@ =~= y@);
    true
}

/// The decimal digits of a natural number, most significant first, as ASCII
/// bytes.
pub open spec fn natural_digits(n: nat) -> Seq<u8>
    decreases n,
{
    if n < 10 {
        seq![(48 + n) as u8]
    } else {
        natural_digits(n / 10).push((48 + n % 10) as u8)
    }
}

/// The decimal rendering of an integer, with a leading minus sign when it is
/// negative, as ASCII bytes.
pub open spec fn integer_digits(v: int) -> Seq<u8> {
    if v < 0 {
        seq![45u8] + natural_digits((-v) as nat)
    } else {
        natural_digits(v as nat)
    }
}

/// The decimal rendering of an integer.
pub open spec fn integer_text(v: int) -> Seq<char> {
    ascii_text(integer_digits(v))
}

pub proof fn lemma_natural_digits_ascii(n: nat)
    ensures
        is_ascii_bytes(natural_digits(n)),
        natural_digits(n).len() >= 1,
    decreases n,
{
    if n >= 10 {
        lemma_natural_digits_ascii(n / 10);
    }
}

/// Renders an integer in decimal.
pub fn integer_to_text(v: i64) -> (text: String)
    ensures
        text@ == integer_text(v as int),
{
    let negative = v < 0;
    let start: u64 = if negative {
        (-(v as i128)) as u64
    } else {
        v as u64
    };
    let mut digits: Vec<u8> = Vec::new();
    digits.push((48 + start % 10) as u8);
    let mut rest: u64 = start / 10;
    while rest > 0
        invariant
            natural_digits(start as nat) == (if rest > 0 {
                natural_digits(rest as nat)
            } else {
                Seq::<u8>::empty()
            }) + digits@,
        decreases rest,
    {
        let ghost before = digits@;
        digits.insert(0, (48 + rest % 10) as u8);
        assert(digits@ =~= seq![(48 + rest % 10) as u8] + before);
        let ghost head = if rest / 10 > 0 {
            natural_digits((rest / 10) as nat)
        } else {
            Seq::<u8>::empty()
        };
        assert(natural_digits(rest as nat) =~= head + seq![(48 + rest % 10) as u8]);
        assert(natural_digits(start as nat) =~= head + digits@);
        rest = rest / 10;
    }
    assert(natural_digits(start as nat) =~= digits@);
    if negative {
        digits.insert(0, 45u8);
        assert(digits@ =~= integer_digits(v as int));
    }
    proof {
        lemma_natural_digits_ascii(start as nat);
        lemma_ascii_text(digits@);
    }
    decoded(digits.as_slice())
}

} // verus!
