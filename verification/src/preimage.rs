//! The fixed-capacity buffer that a commitment hides.
//!
//! A preimage is a field's text followed by the salt, both in UTF-8, padded
//! with zero bytes to [`PREIMAGE_CAPACITY`]. Text that does not fit is
//! refused, never cut.

use vstd::prelude::*;
use vstd::utf8::encode_utf8;

verus! {

/// The number of bytes in a preimage buffer.
pub const PREIMAGE_CAPACITY: usize = 80;

/// The number of bits in a preimage buffer.
pub const PREIMAGE_BITS: usize = 640;

/// The bytes of a field's text followed by those of the salt.
pub open spec fn salted(value: Seq<char>, salt: Seq<char>) -> Seq<u8> {
    encode_utf8(value) + encode_utf8(salt)
}

/// The text and the salt fit the buffer.
pub open spec fn fits(value: Seq<char>, salt: Seq<char>) -> bool {
    salted(value, salt).len() <= PREIMAGE_CAPACITY
}

/// The buffer that holds the given bytes: the bytes, then zeros.
pub open spec fn zero_padded(bytes: Seq<u8>) -> Seq<u8> {
    Seq::new(
        PREIMAGE_CAPACITY as nat,
        |i: int|
            if i < bytes.len() {
                bytes[i]
            } else {
                0u8
            },
    )
}

/// Bit `j` of a byte, bit 0 being the least significant.
pub open spec fn bit_at(byte: u8, j: u8) -> bool {
    (byte >> j) & 1u8 == 1u8
}

/// The bits of the bytes, eight for each, least significant bit first.
pub open spec fn bits_le(bytes: Seq<u8>) -> Seq<bool> {
    Seq::new(8 * bytes.len(), |i: int| bit_at(bytes[i / 8], (i % 8) as u8))
}

/// Joins a field's text with the salt.
pub fn salt_value(value: &str, salt: &str) -> (bytes: Vec<u8>)
    ensures
        bytes@ == salted(value@, salt@),
{
    let mut bytes: Vec<u8> = Vec::new();
    bytes.extend_from_slice(value.as_bytes());
    bytes.extend_from_slice(salt.as_bytes());
    bytes
}

/// Pads bytes with zeros to the buffer's capacity; `None` when they exceed
/// it.
pub fn pad_preimage(bytes: &[u8]) -> (buffer: Option<[u8; 80]>)
    ensures
        buffer is Some <==> bytes@.len() <= PREIMAGE_CAPACITY,
        buffer matches Some(b) ==> b@ == zero_padded(bytes@),
{
    if bytes.len() > PREIMAGE_CAPACITY {
        return None;
    }
    let mut buffer: [u8; 80] = [0u8; 80];
    let mut i: usize = 0;
    while i < bytes.len()
        invariant
            i <= bytes@.len() <= PREIMAGE_CAPACITY,
            forall|j: int| 0 <= j < i ==> buffer@[j] == bytes@[j],
            forall|j: int| i <= j < PREIMAGE_CAPACITY ==> buffer@[j] == 0u8,
        decreases bytes@.len() - i,
    {
        buffer[i] = bytes[i];
        i += 1;
    }
    proof {
        assert(buffer@ =~= zero_padded(bytes@));
    }
    Some(buffer)
}

/// The bits of a buffer, least significant bit of each byte first.
pub fn buffer_bits(buffer: &[u8; 80]) -> (bits: Vec<bool>)
    ensures
        bits@ == bits_le(buffer@),
        bits@.len() == PREIMAGE_BITS,
{
    let mut bits: Vec<bool> = Vec::new();
    let mut i: usize = 0;
    while i < PREIMAGE_CAPACITY
        invariant
            i <= PREIMAGE_CAPACITY,
            bits@.len() == 8 * i,
            forall|k: int| 0 <= k < bits@.len() ==> bits@[k] == bits_le(buffer@)[k],
        decreases PREIMAGE_CAPACITY - i,
    {
        let byte: u8 = buffer[i];
        let mut j: u8 = 0;
        while j < 8
            invariant
                i < PREIMAGE_CAPACITY,
                j <= 8,
                byte == buffer@[i as int],
                bits@.len() == 8 * i + j,
                forall|k: int| 0 <= k < bits@.len() ==> bits@[k] == bits_le(buffer@)[k],
            decreases 8 - j,
        {
            bits.push((byte >> j) & 1u8 == 1u8);
            j += 1;
        }
        i += 1;
    }
    proof {
        assert(bits@ =~= bits_le(buffer@));
    }
    bits
}

} // verus!
