//! Commitments: the double SHA-256 digest of a preimage buffer.

use vstd::prelude::*;
use sha2::{Digest, Sha256};
use crate::hexadecimal::{encode_hex, hex_text, lemma_hex_round_trip};
use crate::preimage::{pad_preimage, salt_value, salted, zero_padded, PREIMAGE_CAPACITY};

verus! {

/// The number of bytes in a digest and in a commitment.
pub const DIGEST_LENGTH: usize = 32;

/// The SHA-256 digest of a byte sequence, as the `sha2` crate computes it.
pub uninterp spec fn sha256_digest(data: Seq<u8>) -> Seq<u8>;

/// `Sha256::digest` of the `sha2` crate: the SHA-256 digest of the data,
/// which has 32 bytes.
#[verifier::external_body]
fn sha256(data: &[u8]) -> (digest: Vec<u8>)
    ensures
        digest@ == sha256_digest(data@),
        digest@.len() == DIGEST_LENGTH,
{
    Sha256::digest(data).to_vec()
}

/// The commitment to a buffer: the digest of its digest.
pub open spec fn commitment_of(buffer: Seq<u8>) -> Seq<u8> {
    sha256_digest(sha256_digest(buffer))
}

/// The commitment that stands for a field's text under a salt, as it is
/// stored in a redacted record.
pub open spec fn commitment_text(value: Seq<char>, salt: Seq<char>) -> Seq<char> {
    hex_text(commitment_of(zero_padded(salted(value, salt))))
}

/// Computes the commitment to a preimage buffer.
pub fn commit(buffer: &[u8; 80]) -> (commitment: Vec<u8>)
    ensures
        commitment@ == commitment_of(buffer@),
        commitment@.len() == DIGEST_LENGTH,
{
    let inner = sha256(buffer.as_slice());
    sha256(inner.as_slice())
}

/// Computes the stored form of the commitment to a field's text under a
/// salt: 64 lowercase hex digits. `None` when text and salt exceed the
/// preimage capacity.
pub fn commit_value(value: &str, salt: &str) -> (text: Option<String>)
    ensures
        text is Some <==> salted(value@, salt@).len() <= PREIMAGE_CAPACITY,
        text matches Some(t) ==> t@ == commitment_text(value@, salt@) && t@.len() == 64,
{
    let bytes = salt_value(value, salt);
    match pad_preimage(bytes.as_slice()) {
        Some(buffer) => {
            let commitment = commit(&buffer);
            proof {
                lemma_hex_round_trip(commitment@);
            }
            Some(encode_hex(commitment.as_slice()))
        },
        None => None,
    }
}

} // verus!
