//! Hexadecimal text: the sixteen digits and the two-digits-per-byte encoding
//! of byte strings, high digit first.

use vstd::prelude::*;

verus! {

/// The value of a hexadecimal digit, upper or lower case; `None` for every
/// other character.
pub open spec fn hex_digit_value(c: char) -> Option<u8> {
    if '0' <= c <= '9' {
        Some((c as int - '0' as int) as u8)
    } else if 'a' <= c <= 'f' {
        Some((c as int - 'a' as int + 10) as u8)
    } else if 'A' <= c <= 'F' {
        Some((c as int - 'A' as int + 10) as u8)
    } else {
        None
    }
}

/// The lower-case hexadecimal digit that stands for `v`, for `v` below 16.
pub open spec fn hex_digit(v: u8) -> char
    recommends
        v < 16,
{
    if v < 10 {
        ('0' as int + v) as char
    } else {
        ('a' as int + v - 10) as char
    }
}

/// Every character of `text` is a hexadecimal digit.
pub open spec fn is_hex(text: Seq<char>) -> bool {
    forall|i: int| 0 <= i < text.len() ==> (#[trigger] hex_digit_value(text[i])) is Some
}

/// The text that encodes `bytes`: two lower-case digits per byte, the high
/// four bits first.
pub open spec fn hex_encode(bytes: Seq<u8>) -> Seq<char> {
    Seq::new(
        2 * bytes.len(),
        |i: int|
            if i % 2 == 0 {
                hex_digit(bytes[i / 2] / 16)
            } else {
                hex_digit(bytes[i / 2] % 16)
            },
    )
}

/// The byte that the digits `high` and `low` encode.
pub open spec fn hex_pair(high: char, low: char) -> u8
    recommends
        hex_digit_value(high) is Some,
        hex_digit_value(low) is Some,
{
    (16 * hex_digit_value(high).unwrap() + hex_digit_value(low).unwrap()) as u8
}

/// The bytes that `text` encodes, for a text of hexadecimal digits of even
/// length.
pub open spec fn hex_decode(text: Seq<char>) -> Seq<u8>
    recommends
        is_hex(text),
        text.len() % 2 == 0,
{
    Seq::new(text.len() / 2, |i: int| hex_pair(text[2 * i], text[2 * i + 1]))
}

/// The digit written for a value reads back as that value, and is lower case.
pub proof fn lemma_hex_digit_reads_back(v: u8)
    requires
        v < 16,
    ensures
        hex_digit_value(hex_digit(v)) == Some(v),
        '0' <= hex_digit(v) <= '9' || 'a' <= hex_digit(v) <= 'f',
{
}

/// Decoding undoes encoding: the encoding of any byte string is a text of
/// hexadecimal digits, twice as long, that decodes to the same bytes.
pub proof fn lemma_hex_decode_encode(bytes: Seq<u8>)
    ensures
        hex_encode(bytes).len() == 2 * bytes.len(),
        is_hex(hex_encode(bytes)),
        hex_decode(hex_encode(bytes)) == bytes,
{
    let text = hex_encode(bytes);
    assert forall|i: int| 0 <= i < text.len() implies (#[trigger] hex_digit_value(text[i]))
        is Some by {
        let b = bytes[i / 2];
        lemma_hex_digit_reads_back(b / 16);
        lemma_hex_digit_reads_back(b % 16);
    }
    assert forall|k: int| 0 <= k < bytes.len() implies hex_decode(text)[k] == bytes[k] by {
        let b = bytes[k];
        assert((2 * k) / 2 == k && (2 * k) % 2 == 0);
        assert((2 * k + 1) / 2 == k && (2 * k + 1) % 2 == 1);
        lemma_hex_digit_reads_back(b / 16);
        lemma_hex_digit_reads_back(b % 16);
        assert(text[2 * k] == hex_digit(b / 16));
        assert(text[2 * k + 1] == hex_digit(b % 16));
        assert(16 * (b / 16) + b % 16 == b);
    }
    assert(hex_decode(text) =~= bytes);
}

/// The value of the hexadecimal digit `c`, if it is one.
pub(crate) fn digit_value(c: char) -> (r: Option<u8>)
    ensures
        r == hex_digit_value(c),
{
    if '0' <= c && c <= '9' {
        Some(c as u8 - '0' as u8)
    } else if 'a' <= c && c <= 'f' {
        Some(c as u8 - 'a' as u8 + 10)
    } else if 'A' <= c && c <= 'F' {
        Some(c as u8 - 'A' as u8 + 10)
    } else {
        None
    }
}

/// The lower-case hexadecimal digit for `v`.
pub(crate) fn digit_char(v: u8) -> (c: char)
    requires
        v < 16,
    ensures
        c == hex_digit(v),
{
    if v < 10 {
        ('0' as u8 + v) as char
    } else {
        ('a' as u8 + (v - 10)) as char
    }
}

} // verus!
