//! Hex text for destination hashes and interface ids, through the `hex`
//! crate: lowercase encoding of bytes, and decoding of a hex string.
use vstd::prelude::*;

use crate::text::{chars_of, is_white, lemma_trim_no_white, string_of, trim_bounds, trim_spec};

verus! {

/// Why a hex string did not decode (the `hex` crate's `FromHexError`).
#[derive(Debug, Clone, Copy, PartialEq, Eq, Structural)]
pub enum HexError {
    /// A character that is not a hex digit, at a byte position.
    InvalidHexCharacter { c: char, index: usize },
    /// An odd number of digits.
    OddLength,
    /// A length that does not fit a fixed-size target.
    InvalidStringLength,
}

/// Whether `c` is a hex digit (`0-9`, `a-f`, `A-F`).
pub open spec fn is_hex_digit(c: char) -> bool {
    ('0' <= c && c <= '9') || ('a' <= c && c <= 'f') || ('A' <= c && c <= 'F')
}

/// The value of a hex digit.
pub open spec fn hex_value(c: char) -> int {
    if '0' <= c && c <= '9' {
        c as int - '0' as int
    } else if 'a' <= c && c <= 'f' {
        c as int - 'a' as int + 10
    } else {
        c as int - 'A' as int + 10
    }
}

/// Whether every character of `s` is a hex digit.
pub open spec fn all_hex(s: Seq<char>) -> bool {
    forall|i: int| 0 <= i < s.len() ==> is_hex_digit(#[trigger] s[i])
}

/// Whether every character of `s` is ASCII.
pub open spec fn all_ascii(s: Seq<char>) -> bool {
    forall|i: int| 0 <= i < s.len() ==> (#[trigger] s[i] as int) < 128
}

/// The index of the first character of `s` that is not a hex digit
/// (`s.len()` when there is none).
pub open spec fn first_non_hex(s: Seq<char>) -> nat
    decreases s.len(),
{
    if s.len() == 0 {
        0
    } else if !is_hex_digit(s[0]) {
        0
    } else {
        1 + first_non_hex(s.drop_first())
    }
}

/// The bytes a string of hex digit pairs spells, high digit first.
pub open spec fn hex_decode_spec(s: Seq<char>) -> Seq<u8> {
    Seq::new(s.len() / 2, |i: int| (hex_value(s[2 * i]) * 16 + hex_value(s[2 * i + 1])) as u8)
}

/// The lowercase hex digit for `n < 16`.
pub open spec fn lower_hex_digit(n: int) -> char {
    if n < 10 {
        ('0' as int + n) as char
    } else {
        ('a' as int + n - 10) as char
    }
}

/// The lowercase hex text of `bytes`: two digits per byte, high digit first.
pub open spec fn hex_encode_spec(bytes: Seq<u8>) -> Seq<char> {
    Seq::new(
        2 * bytes.len(),
        |i: int|
            if i % 2 == 0 {
                lower_hex_digit(bytes[i / 2] as int / 16)
            } else {
                lower_hex_digit(bytes[i / 2] as int % 16)
            },
    )
}

/// The error `hex::decode` reports for an ASCII string that is not an even
/// number of hex digits: the length is checked first, then the characters.
pub open spec fn ascii_decode_error(s: Seq<char>) -> HexError {
    if s.len() % 2 == 1 {
        HexError::OddLength
    } else {
        HexError::InvalidHexCharacter {
            c: s[first_non_hex(s) as int],
            index: first_non_hex(s) as usize,
        }
    }
}

/// `hex::decode` on the UTF-8 bytes of `s`. The contract states what the
/// crate's source shows: the result is `Ok` exactly when `s` is an even
/// number of hex digits, the bytes are the digit pairs' values, and for an
/// ASCII string an odd length gives `OddLength` while an even one names the
/// first non-hex character and its index. For a non-ASCII string, which
/// error comes back is not stated.
#[verifier::external_body]
pub(crate) fn decode(s: &str) -> (r: Result<Vec<u8>, HexError>)
    ensures
        r.is_ok() == (all_hex(s@) && s@.len() % 2 == 0),
        r matches Ok(v) ==> v@ == hex_decode_spec(s@),
        r matches Err(e) ==> (all_ascii(s@) ==> e == ascii_decode_error(s@)),
{
    match hex::decode(s) {
        Ok(v) => Ok(v),
        Err(hex::FromHexError::InvalidHexCharacter { c, index }) => Err(
            HexError::InvalidHexCharacter { c, index },
        ),
        Err(hex::FromHexError::OddLength) => Err(HexError::OddLength),
        Err(hex::FromHexError::InvalidStringLength) => Err(HexError::InvalidStringLength),
    }
}

/// `hex::encode`: the lowercase hex text of `bytes`, two digits per byte,
/// high digit first, as the crate's source writes it.
#[verifier::external_body]
pub(crate) fn encode(bytes: &[u8]) -> (r: String)
    ensures
        r@ == hex_encode_spec(bytes@),
{
    hex::encode(bytes)
}

/// The hex text of `text` with surrounding whitespace removed, decoded.
pub fn decode_trimmed(text: &str) -> (r: Result<Vec<u8>, HexError>)
    ensures
        r.is_ok() == (all_hex(trim_spec(text@)) && trim_spec(text@).len() % 2 == 0),
        r matches Ok(v) ==> v@ == hex_decode_spec(trim_spec(text@)),
        r matches Err(e) ==> (all_ascii(trim_spec(text@)) ==> e == ascii_decode_error(
            trim_spec(text@),
        )),
{
    let cs = chars_of(text);
    let (start, end) = trim_bounds(cs.as_slice(), 0, cs.len());
    assert(cs@.subrange(0, cs@.len() as int) =~= text@);
    let trimmed = string_of(cs.as_slice(), start, end);
    decode(trimmed.as_str())
}

proof fn lemma_lower_hex_digit(n: int)
    requires
        0 <= n < 16,
    ensures
        is_hex_digit(lower_hex_digit(n)),
        hex_value(lower_hex_digit(n)) == n,
        'a' <= lower_hex_digit(n) ==> lower_hex_digit(n) <= 'f',
{
}

/// Hex text has no surrounding whitespace to trim.
pub proof fn lemma_hex_text_is_trimmed(bytes: Seq<u8>)
    ensures
        trim_spec(hex_encode_spec(bytes)) == hex_encode_spec(bytes),
        hex_encode_spec(bytes).len() == 2 * bytes.len(),
{
    let t = hex_encode_spec(bytes);
    assert forall|i: int| 0 <= i < t.len() implies !is_white(#[trigger] t[i]) by {
        let b = bytes[i / 2] as int;
        lemma_lower_hex_digit(b / 16);
        lemma_lower_hex_digit(b % 16);
        assert(is_hex_digit(t[i]));
    }
    lemma_trim_no_white(t);
}

/// Law: hex text written by `encode` is accepted by `decode`, which gives
/// back the very bytes it was made from.
pub proof fn hex_round_trip(bytes: Seq<u8>)
    ensures
        all_hex(hex_encode_spec(bytes)),
        hex_encode_spec(bytes).len() % 2 == 0,
        hex_decode_spec(hex_encode_spec(bytes)) == bytes,
{
    let t = hex_encode_spec(bytes);
    assert forall|i: int| 0 <= i < t.len() implies is_hex_digit(#[trigger] t[i]) by {
        let b = bytes[i / 2] as int;
        lemma_lower_hex_digit(b / 16);
        lemma_lower_hex_digit(b % 16);
    }
    assert forall|i: int| 0 <= i < bytes.len() implies #[trigger] hex_decode_spec(t)[i]
        == bytes[i] by {
        let b = bytes[i] as int;
        lemma_lower_hex_digit(b / 16);
        lemma_lower_hex_digit(b % 16);
        assert((2 * i) / 2 == i);
        assert((2 * i + 1) / 2 == i);
        assert((2 * i) % 2 == 0);
        assert((2 * i + 1) % 2 == 1);
        assert(b / 16 * 16 + b % 16 == b);
    }
    assert(hex_decode_spec(t) =~= bytes);
}

} // verus!
