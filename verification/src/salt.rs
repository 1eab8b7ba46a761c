//! The salt: sixteen random symbols, drawn once for a whole redaction.

use vstd::prelude::*;
use vstd::utf8::{encode_utf8, is_ascii_chars, is_ascii_chars_encode_utf8};
use rand::Rng;
use crate::text::{ascii_string, ascii_text, lemma_ascii_is_utf8};

verus! {

/// The number of symbols in a salt.
pub const SALT_LENGTH: usize = 16;

/// The number of symbols to draw from.
pub const ALPHABET_SIZE: usize = 73;

/// The symbols to draw from, in order: the capital letters, the small
/// letters, the digits, and `)(*&^%$#@!~`.
pub open spec fn alphabet_symbol(i: int) -> u8 {
    if i < 26 {
        (65 + i) as u8
    } else if i < 52 {
        (97 + (i - 26)) as u8
    } else if i < 62 {
        (48 + (i - 52)) as u8
    } else if i == 62 {
        41
    } else if i == 63 {
        40
    } else if i == 64 {
        42
    } else if i == 65 {
        38
    } else if i == 66 {
        94
    } else if i == 67 {
        37
    } else if i == 68 {
        36
    } else if i == 69 {
        35
    } else if i == 70 {
        64
    } else if i == 71 {
        33
    } else {
        126
    }
}

/// The byte is a letter, a digit or one of the symbols `)(*&^%$#@!~`.
pub open spec fn is_salt_byte(b: u8) -> bool {
    ||| 65 <= b <= 90
    ||| 97 <= b <= 122
    ||| 48 <= b <= 57
    ||| b == 41 || b == 40 || b == 42 || b == 38 || b == 94 || b == 37
    ||| b == 36 || b == 35 || b == 64 || b == 33 || b == 126
}

/// The text is a salt: sixteen symbols of the alphabet.
pub open spec fn is_salt(text: Seq<char>) -> bool {
    &&& text.len() == SALT_LENGTH
    &&& is_ascii_chars(text)
    &&& forall|i: int| 0 <= i < text.len() ==> is_salt_byte(#[trigger] text[i] as u8)
}

/// A salt takes sixteen bytes of a preimage, whatever its symbols.
pub proof fn lemma_salt_bytes(salt: Seq<char>)
    requires
        is_salt(salt),
    ensures
        encode_utf8(salt).len() == SALT_LENGTH,
{
    is_ascii_chars_encode_utf8(salt);
}

/// `Rng::gen_range` on the generator of the current thread: some number
/// below the bound.
#[verifier::external_body]
fn random_below(bound: usize) -> (n: usize)
    requires
        bound > 0,
    ensures
        n < bound,
{
    rand::thread_rng().gen_range(0..bound)
}

/// Symbol `i` of the alphabet.
fn symbol_at(i: usize) -> (b: u8)
    requires
        i < ALPHABET_SIZE,
    ensures
        b == alphabet_symbol(i as int),
        is_salt_byte(b),
{
    if i < 26 {
        65 + i as u8
    } else if i < 52 {
        97 + (i - 26) as u8
    } else if i < 62 {
        48 + (i - 52) as u8
    } else if i == 62 {
        41
    } else if i == 63 {
        40
    } else if i == 64 {
        42
    } else if i == 65 {
        38
    } else if i == 66 {
        94
    } else if i == 67 {
        37
    } else if i == 68 {
        36
    } else if i == 69 {
        35
    } else if i == 70 {
        64
    } else if i == 71 {
        33
    } else {
        126
    }
}

/// Draws a salt.
pub fn gen_salt() -> (salt: String)
    ensures
        is_salt(salt@),
{
    let mut symbols: Vec<u8> = Vec::new();
    let mut i: usize = 0;
    while i < SALT_LENGTH
        invariant
            i <= SALT_LENGTH,
            symbols@.len() == i,
            forall|k: int| 0 <= k < i ==> is_salt_byte(#[trigger] symbols@[k]),
        decreases SALT_LENGTH - i,
    {
        let pick = random_below(ALPHABET_SIZE);
        symbols.push(symbol_at(pick));
        i += 1;
    }
    proof {
        assert forall|k: int| 0 <= k < symbols@.len() implies #[trigger] symbols@[k] < 128 by {
            assert(is_salt_byte(symbols@[k]));
        }
        lemma_ascii_is_utf8(symbols@);
        let text = ascii_text(symbols@);
        assert forall|k: int| 0 <= k < text.len() implies is_salt_byte(#[trigger] text[k] as u8) by {
            assert(is_salt_byte(symbols@[k]));
            assert(text[k] == symbols@[k] as char);
        }
    }
    ascii_string(symbols)
}

} // verus!
