//! Bytes and text: ASCII as a special case of UTF-8.

use vstd::prelude::*;
use vstd::utf8::*;

verus! {

/// Every byte is below 128.
pub open spec fn is_ascii_bytes(bytes: Seq<u8>) -> bool {
    forall|i: int| 0 <= i < bytes.len() ==> #[trigger] bytes[i] < 128
}

/// The text whose characters are the given ASCII bytes, one for one.
pub open spec fn ascii_text(bytes: Seq<u8>) -> Seq<char> {
    Seq::new(bytes.len(), |i: int| bytes[i] as char)
}

/// ASCII bytes are valid UTF-8 and decode to the characters they number.
pub proof fn lemma_ascii_is_utf8(bytes: Seq<u8>)
    requires
        is_ascii_bytes(bytes),
    ensures
        valid_utf8(bytes),
        decode_utf8(bytes) == ascii_text(bytes),
        encode_utf8(ascii_text(bytes)) == bytes,
        is_ascii_chars(ascii_text(bytes)),
{
    let chars = ascii_text(bytes);
    assert(is_ascii_chars(chars)) by {
        assert forall|i: int| 0 <= i < chars.len() implies '\0' <= #[trigger] chars[i] <= '\u{7f}' by {
            assert(bytes[i] < 128);
        }
    }
    is_ascii_chars_encode_utf8(chars);
    assert(encode_utf8(chars) =~= bytes) by {
        assert forall|i: int| 0 <= i < bytes.len() implies encode_utf8(chars)[i] == bytes[i] by {
            assert(bytes[i] < 128);
            assert(chars[i] as u8 == encode_utf8(chars)[i]);
            assert((bytes[i] as char) as u8 == bytes[i]);
        }
    }
    encode_utf8_valid_utf8(chars);
    encode_utf8_decode_utf8(chars);
}

/// `std::string::FromUtf8Error`: why bytes could not be read as text.
/// Nothing is known of a value of it.
#[verifier::external_type_specification]
#[verifier::external_body]
pub struct ExFromUtf8Error(std::string::FromUtf8Error);

/// `String::from_utf8`: the text that the bytes encode, when they are valid
/// UTF-8, and an error otherwise.
#[verifier::external_body]
fn from_utf8(bytes: Vec<u8>) -> (text: Result<String, std::string::FromUtf8Error>)
    ensures
        text is Ok <==> valid_utf8(bytes@),
        text matches Ok(s) ==> s@ == decode_utf8(bytes@),
{
    String::from_utf8(bytes)
}

/// Reads bytes as UTF-8 text; `None` when they are not valid UTF-8.
pub fn string_from_utf8(bytes: Vec<u8>) -> (text: Option<String>)
    ensures
        text is Some <==> valid_utf8(bytes@),
        text matches Some(s) ==> s@ == decode_utf8(bytes@),
{
    match from_utf8(bytes) {
        Ok(s) => Some(s),
        Err(_) => None,
    }
}

/// Copies the bytes from one position up to another.
pub(crate) fn copy_range(bytes: &[u8], from: usize, to: usize) -> (out: Vec<u8>)
    requires
        from <= to <= bytes@.len(),
    ensures
        out@ == bytes@.subrange(from as int, to as int),
{
    let mut out: Vec<u8> = Vec::new();
    let mut i: usize = from;
    while i < to
        invariant
            from <= i <= to <= bytes@.len(),
            out@ == bytes@.subrange(from as int, i as int),
        decreases to - i,
    {
        out.push(bytes[i]);
        proof {
            assert(out@ =~= bytes@.subrange(from as int, i + 1));
        }
        i += 1;
    }
    out
}

/// The string made of the given ASCII bytes.
pub fn ascii_string(bytes: Vec<u8>) -> (text: String)
    requires
        is_ascii_bytes(bytes@),
    ensures
        text@ == ascii_text(bytes@),
{
    proof {
        lemma_ascii_is_utf8(bytes@);
    }
    match string_from_utf8(bytes) {
        Some(s) => s,
        // ASCII is valid UTF-8: this arm is never taken
        None => String::new(),
    }
}

} // verus!
