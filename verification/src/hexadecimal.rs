//! Lowercase hexadecimal text for digests, and its decoding.

use vstd::prelude::*;
use crate::text::{ascii_string, ascii_text, is_ascii_bytes};

verus! {

/// `hex::FromHexError`: why hex text could not be read. Nothing is known
/// of a value of it.
#[verifier::external_type_specification]
#[verifier::external_body]
pub struct ExFromHexError(hex::FromHexError);

/// The ASCII code of the lowercase hex digit for a value below 16.
pub open spec fn hex_digit(nibble: int) -> u8 {
    if nibble < 10 {
        (48 + nibble) as u8
    } else {
        (87 + nibble) as u8
    }
}

/// The lowercase hex digits of the bytes, two for each, high nibble first.
pub open spec fn hex_digits(bytes: Seq<u8>) -> Seq<u8> {
    Seq::new(
        2 * bytes.len(),
        |i: int|
            if i % 2 == 0 {
                hex_digit(bytes[i / 2] as int / 16)
            } else {
                hex_digit(bytes[i / 2] as int % 16)
            },
    )
}

/// The bytes as lowercase hexadecimal text.
pub open spec fn hex_text(bytes: Seq<u8>) -> Seq<char> {
    ascii_text(hex_digits(bytes))
}

/// The value of a hex digit of either case, if the character is one.
pub open spec fn hex_value(c: char) -> Option<int> {
    if '0' <= c <= '9' {
        Some(c as int - 48)
    } else if 'a' <= c <= 'f' {
        Some(c as int - 87)
    } else if 'A' <= c <= 'F' {
        Some(c as int - 55)
    } else {
        None
    }
}

/// An even number of characters, each a hex digit.
pub open spec fn is_hex_text(text: Seq<char>) -> bool {
    &&& text.len() % 2 == 0
    &&& forall|i: int| 0 <= i < text.len() ==> (#[trigger] hex_value(text[i])) is Some
}

/// The bytes that hex text stands for: each pair of digits is one byte.
pub open spec fn hex_bytes(text: Seq<char>) -> Seq<u8> {
    Seq::new(
        text.len() / 2,
        |i: int| (16 * hex_value(text[2 * i]).unwrap() + hex_value(text[2 * i + 1]).unwrap()) as u8,
    )
}

/// Decoding undoes encoding: the hex text of any bytes is well formed and
/// stands for exactly those bytes.
pub proof fn lemma_hex_round_trip(bytes: Seq<u8>)
    ensures
        is_hex_text(hex_text(bytes)),
        hex_bytes(hex_text(bytes)) == bytes,
        hex_text(bytes).len() == 2 * bytes.len(),
        is_ascii_bytes(hex_digits(bytes)),
{
    let text = hex_text(bytes);
    assert forall|i: int| 0 <= i < text.len() implies (#[trigger] hex_value(text[i])) is Some by {
        lemma_hex_digit(bytes[i / 2] as int / 16);
        lemma_hex_digit(bytes[i / 2] as int % 16);
    }
    assert forall|k: int| 0 <= k < bytes.len() implies #[trigger] hex_bytes(text)[k] == bytes[k] by {
        let b = bytes[k] as int;
        lemma_hex_digit(b / 16);
        lemma_hex_digit(b % 16);
        assert(text[2 * k] == hex_digit(b / 16) as char);
        assert(text[2 * k + 1] == hex_digit(b % 16) as char);
    }
    assert(hex_bytes(text) =~= bytes);
    assert forall|i: int| 0 <= i < hex_digits(bytes).len() implies #[trigger] hex_digits(bytes)[i] < 128 by {
        lemma_hex_digit(bytes[i / 2] as int / 16);
        lemma_hex_digit(bytes[i / 2] as int % 16);
    }
}

/// A hex digit is an ASCII character whose value is the nibble it was made of.
pub proof fn lemma_hex_digit(nibble: int)
    requires
        0 <= nibble < 16,
    ensures
        hex_digit(nibble) < 128,
        hex_value(hex_digit(nibble) as char) == Some(nibble),
{
    let d = hex_digit(nibble);
    if nibble < 10 {
        assert(48 <= d <= 57);
        assert('0' as int == 48 && '9' as int == 57);
    } else {
        assert(97 <= d <= 102);
        assert('a' as int == 97 && 'f' as int == 102);
    }
    assert((d as char) as int == d as int);
}

/// The lowercase hex digit for a value below 16.
fn digit_of(nibble: u8) -> (d: u8)
    requires
        nibble < 16,
    ensures
        d == hex_digit(nibble as int),
{
    if nibble < 10 {
        48 + nibble
    } else {
        87 + nibble
    }
}

/// Writes bytes as lowercase hexadecimal text.
pub fn encode_hex(bytes: &[u8]) -> (text: String)
    requires
        2 * bytes@.len() <= usize::MAX,
    ensures
        text@ == hex_text(bytes@),
{
    let mut digits: Vec<u8> = Vec::new();
    let mut i: usize = 0;
    while i < bytes.len()
        invariant
            i <= bytes@.len(),
            digits@.len() == 2 * i,
            forall|j: int| 0 <= j < digits@.len() ==> digits@[j] == hex_digits(bytes@)[j],
        decreases bytes@.len() - i,
    {
        let b: u8 = bytes[i];
        digits.push(digit_of(b / 16));
        digits.push(digit_of(b % 16));
        i += 1;
    }
    proof {
        assert(digits@ =~= hex_digits(bytes@));
        lemma_hex_round_trip(bytes@);
    }
    ascii_string(digits)
}

/// `hex::decode`: succeeds exactly on an even number of hex digits of either
/// case, and then returns one byte for each pair, the first digit of a pair
/// being the high nibble.
#[verifier::external_body]
fn decode_with_hex(text: &str) -> (outcome: Result<Vec<u8>, hex::FromHexError>)
    ensures
        outcome is Ok <==> is_hex_text(text@),
        outcome matches Ok(bytes) ==> bytes@ == hex_bytes(text@),
{
    hex::decode(text)
}

/// Reads hexadecimal text of either case back into bytes; `None` when the
/// text is not an even number of hex digits.
pub fn decode_hex(text: &str) -> (bytes: Option<Vec<u8>>)
    ensures
        bytes is Some <==> is_hex_text(text@),
        bytes matches Some(b) ==> b@ == hex_bytes(text@),
{
    match decode_with_hex(text) {
        Ok(b) => Some(b),
        Err(_) => None,
    }
}

} // verus!
