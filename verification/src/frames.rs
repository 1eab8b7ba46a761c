//! A framing of proof bundles that no payload can break.
//!
//! Every record is the record index in eight bytes, then the key and the
//! proof, each behind its length in four bytes, all numbers most
//! significant byte first. No byte of a key or a proof is ever taken for a
//! separator, so every bundle reads back as it was written:
//! [`lemma_frames_round_trip`].

use vstd::prelude::*;
use vstd::utf8::{decode_utf8, encode_utf8, valid_utf8};
use crate::bundle::{entries_of, ProofEntry, ProofRecord};
use crate::error::Error;
use crate::text::{copy_range, string_from_utf8};

verus! {

/// The number of bytes that hold a record index.
pub const INDEX_WIDTH: usize = 8;

/// The number of bytes that hold a length.
pub const LENGTH_WIDTH: usize = 4;

/// The largest length that a frame can state.
pub const MAX_LENGTH: usize = 0xffff_ffff;

/// The bytes of a number in the given width, most significant byte first.
/// What does not fit the width is lost.
pub open spec fn be_bytes(n: nat, width: nat) -> Seq<u8>
    decreases width,
{
    if width == 0 {
        Seq::empty()
    } else {
        be_bytes(n / 256, (width - 1) as nat).push((n % 256) as u8)
    }
}

/// The number that bytes stand for, most significant byte first.
pub open spec fn be_value(bytes: Seq<u8>) -> nat
    decreases bytes.len(),
{
    if bytes.len() == 0 {
        0
    } else {
        256 * be_value(bytes.drop_last()) + bytes.last() as nat
    }
}

/// The number of values that the given width can hold.
pub open spec fn capacity(width: nat) -> nat
    decreases width,
{
    if width == 0 {
        1
    } else {
        256 * capacity((width - 1) as nat)
    }
}

/// A number in a width that holds it reads back as the number.
pub proof fn lemma_be_round_trip(n: nat, width: nat)
    requires
        n < capacity(width),
    ensures
        be_bytes(n, width).len() == width,
        be_value(be_bytes(n, width)) == n,
    decreases width,
{
    if width > 0 {
        lemma_be_round_trip(n / 256, (width - 1) as nat);
        assert(be_bytes(n, width).drop_last() =~= be_bytes(n / 256, (width - 1) as nat));
    }
}

/// Bytes stand for a number that their count can hold.
pub proof fn lemma_be_value_bound(bytes: Seq<u8>)
    ensures
        be_value(bytes) < capacity(bytes.len()),
    decreases bytes.len(),
{
    if bytes.len() > 0 {
        lemma_be_value_bound(bytes.drop_last());
    }
}

/// What four and eight bytes can hold.
pub proof fn lemma_capacities()
    ensures
        capacity(4) == 0x1_0000_0000,
        capacity(8) == 0x1_0000_0000_0000_0000,
{
    reveal_with_fuel(capacity, 9);
}

/// The bytes of one record.
pub open spec fn frame_entry(e: ProofEntry) -> Seq<u8> {
    be_bytes(e.record_index, INDEX_WIDTH as nat) + be_bytes(
        encode_utf8(e.field_key).len(),
        LENGTH_WIDTH as nat,
    ) + encode_utf8(e.field_key) + be_bytes(e.proof.len(), LENGTH_WIDTH as nat) + e.proof
}

/// The bytes of a bundle: its records' bytes, one after the other.
pub open spec fn frame_entries(entries: Seq<ProofEntry>) -> Seq<u8>
    decreases entries.len(),
{
    if entries.len() == 0 {
        Seq::empty()
    } else {
        frame_entry(entries.first()) + frame_entries(entries.drop_first())
    }
}

/// A record that frames can hold: its index fits the machine word, and
/// the lengths of its key and its proof fit four bytes.
pub open spec fn fits_frame(e: ProofEntry) -> bool {
    &&& e.record_index <= usize::MAX
    &&& encode_utf8(e.field_key).len() <= MAX_LENGTH
    &&& e.proof.len() <= MAX_LENGTH
}

/// The record at the head of the bytes, and the number of bytes it takes;
/// nothing when the bytes end inside it, when its index exceeds the
/// machine word, or when its key is not UTF-8.
pub open spec fn unframe_entry(bytes: Seq<u8>) -> Option<(ProofEntry, int)> {
    if bytes.len() < 12 {
        None
    } else {
        let index = be_value(bytes.subrange(0, 8));
        let key_length = be_value(bytes.subrange(8, 12)) as int;
        if index > usize::MAX || bytes.len() < 16 + key_length {
            None
        } else {
            let key = bytes.subrange(12, 12 + key_length);
            let proof_length = be_value(bytes.subrange(12 + key_length, 16 + key_length)) as int;
            if !valid_utf8(key) || bytes.len() < 16 + key_length + proof_length {
                None
            } else {
                Some(
                    (
                        ProofEntry {
                            record_index: index,
                            field_key: decode_utf8(key),
                            proof: bytes.subrange(
                                16 + key_length,
                                16 + key_length + proof_length,
                            ),
                        },
                        16 + key_length + proof_length,
                    ),
                )
            }
        }
    }
}

/// The records that the bytes hold; nothing when one of them is cut short
/// or malformed.
pub open spec fn unframe_entries(bytes: Seq<u8>) -> Option<Seq<ProofEntry>>
    decreases bytes.len(),
{
    if bytes.len() == 0 {
        Some(Seq::empty())
    } else {
        match unframe_entry(bytes) {
            Some((e, used)) => if 0 < used <= bytes.len() {
                match unframe_entries(bytes.skip(used)) {
                    Some(rest) => Some(seq![e] + rest),
                    None => None,
                }
            } else {
                None
            },
            None => None,
        }
    }
}

/// A record that frames can hold is read from the head of its bytes,
/// whatever follows.
pub proof fn lemma_frame_entry_round_trip(e: ProofEntry, rest: Seq<u8>)
    requires
        fits_frame(e),
    ensures
        unframe_entry(frame_entry(e) + rest) == Some((e, frame_entry(e).len() as int)),
        frame_entry(e).len() >= 16,
        (frame_entry(e) + rest).skip(frame_entry(e).len() as int) == rest,
{
    let key = encode_utf8(e.field_key);
    let bytes = frame_entry(e) + rest;
    lemma_capacities();
    lemma_be_round_trip(e.record_index, 8);
    lemma_be_round_trip(key.len(), 4);
    lemma_be_round_trip(e.proof.len(), 4);
    let k = key.len() as int;
    let p = e.proof.len() as int;
    assert(bytes.subrange(0, 8) =~= be_bytes(e.record_index, 8));
    assert(bytes.subrange(8, 12) =~= be_bytes(key.len(), 4));
    assert(bytes.subrange(12, 12 + k) =~= key);
    assert(bytes.subrange(12 + k, 16 + k) =~= be_bytes(e.proof.len(), 4));
    assert(bytes.subrange(16 + k, 16 + k + p) =~= e.proof);
    assert(bytes.skip(16 + k + p) =~= rest);
    vstd::utf8::encode_utf8_valid_utf8(e.field_key);
    vstd::utf8::encode_utf8_decode_utf8(e.field_key);
}

/// Reading gives back what was written, whatever the keys and the proofs
/// hold.
pub proof fn lemma_frames_round_trip(entries: Seq<ProofEntry>)
    requires
        forall|i: int| 0 <= i < entries.len() ==> fits_frame(#[trigger] entries[i]),
    ensures
        unframe_entries(frame_entries(entries)) == Some(entries),
    decreases entries.len(),
{
    if entries.len() == 0 {
        assert(unframe_entries(frame_entries(entries)).unwrap() =~= entries);
    } else {
        let e = entries.first();
        let others = entries.drop_first();
        assert forall|i: int| 0 <= i < others.len() implies fits_frame(#[trigger] others[i]) by {
            assert(others[i] == entries[i + 1]);
        }
        lemma_frames_round_trip(others);
        lemma_frame_entry_round_trip(e, frame_entries(others));
        assert(seq![e] + others =~= entries);
    }
}

/// Appending a record to a bundle appends its bytes.
pub proof fn lemma_frame_push(entries: Seq<ProofEntry>, e: ProofEntry)
    ensures
        frame_entries(entries.push(e)) == frame_entries(entries) + frame_entry(e),
    decreases entries.len(),
{
    let all = entries.push(e);
    if entries.len() == 0 {
        assert(all.drop_first() =~= Seq::<ProofEntry>::empty());
        assert(frame_entries(all.drop_first()) =~= Seq::<u8>::empty());
        assert(frame_entries(all) =~= frame_entry(e));
        assert(frame_entries(entries) + frame_entry(e) =~= frame_entry(e));
    } else {
        assert(all.drop_first() =~= entries.drop_first().push(e));
        lemma_frame_push(entries.drop_first(), e);
        assert(frame_entries(all) =~= frame_entries(entries) + frame_entry(e));
    }
}

/// Appends a number in the given width, most significant byte first.
fn push_be(n: u64, width: u8, out: &mut Vec<u8>)
    ensures
        final(out)@ == old(out)@ + be_bytes(n as nat, width as nat),
    decreases width,
{
    if width > 0 {
        push_be(n / 256, width - 1, out);
        out.push((n % 256) as u8);
    }
    proof {
        assert(final(out)@ =~= old(out)@ + be_bytes(n as nat, width as nat));
    }
}

/// Reads the number that stands in `width` bytes from position `from`.
fn read_be(bytes: &[u8], from: usize, width: usize) -> (n: u64)
    requires
        width <= 8,
        from + width <= bytes@.len(),
    ensures
        n == be_value(bytes@.subrange(from as int, from + width)),
{
    let total = bytes.len();
    let mut n: u64 = 0;
    let mut i: usize = 0;
    proof {
        lemma_capacities();
        assert(bytes@.subrange(from as int, from as int).len() == 0);
    }
    while i < width
        invariant
            i <= width <= 8,
            from + width <= total,
            total == bytes@.len(),
            capacity(8) == 0x1_0000_0000_0000_0000,
            n == be_value(bytes@.subrange(from as int, from + i)),
        decreases width - i,
    {
        let byte: u8 = bytes[from + i];
        proof {
            let upto = bytes@.subrange(from as int, from + i + 1);
            assert(upto.drop_last() =~= bytes@.subrange(from as int, from + i));
            assert(upto.last() == byte);
            assert(be_value(upto) == 256 * n + byte);
            lemma_be_value_bound(upto);
            lemma_capacity_grows(upto.len(), 8);
        }
        n = n * 256 + byte as u64;
        i += 1;
    }
    n
}

/// A larger width holds at least as many values.
proof fn lemma_capacity_grows(small: nat, large: nat)
    requires
        small <= large,
    ensures
        capacity(small) <= capacity(large),
    decreases large,
{
    if small < large {
        lemma_capacity_grows(small, (large - 1) as nat);
    }
}

/// Writes a list of proof records as one bundle of frames. Fails with
/// [`Error::Serialization`] when a key or a proof is longer than four
/// bytes can state.
pub fn encode_frames(records: &Vec<ProofRecord>) -> (out: Result<Vec<u8>, Error>)
    ensures
        match out {
            Ok(bytes) => {
                &&& forall|i: int| 0 <= i < records@.len() ==> fits_frame(#[trigger] records@[i]@)
                &&& bytes@ == frame_entries(entries_of(records@))
                &&& unframe_entries(bytes@) == Some(entries_of(records@))
            },
            Err(e) => e == Error::Serialization && exists|i: int|
                0 <= i < records@.len() && !fits_frame(#[trigger] records@[i]@),
        },
{
    let mut bytes: Vec<u8> = Vec::new();
    let mut i: usize = 0;
    while i < records.len()
        invariant
            i <= records@.len(),
            forall|k: int| 0 <= k < i ==> fits_frame(#[trigger] records@[k]@),
            bytes@ == frame_entries(entries_of(records@).take(i as int)),
        decreases records@.len() - i,
    {
        let record = &records[i];
        let key = record.field_key.as_str().as_bytes();
        if key.len() > MAX_LENGTH || record.proof.len() > MAX_LENGTH {
            proof {
                assert(!fits_frame(records@[i as int]@));
            }
            return Err(Error::Serialization);
        }
        let ghost before = bytes@;
        push_be(record.record_index as u64, 8, &mut bytes);
        push_be(key.len() as u64, 4, &mut bytes);
        bytes.extend_from_slice(key);
        push_be(record.proof.len() as u64, 4, &mut bytes);
        bytes.extend_from_slice(record.proof.as_slice());
        proof {
            let entries = entries_of(records@);
            assert(entries[i as int] == record@);
            assert(bytes@ =~= before + frame_entry(record@));
            lemma_frame_push(entries.take(i as int), record@);
            assert(entries.take(i as int).push(record@) =~= entries.take(i + 1));
        }
        i += 1;
    }
    proof {
        let entries = entries_of(records@);
        assert(entries.take(i as int) =~= entries);
        assert forall|k: int| 0 <= k < entries.len() implies fits_frame(#[trigger] entries[k]) by {
            assert(entries[k] == records@[k]@);
        }
        lemma_frames_round_trip(entries);
    }
    Ok(bytes)
}

/// Reads the record at position `at` of the bytes. Returns it with the
/// position behind it.
fn read_frame(bytes: &[u8], at: usize) -> (out: Option<(ProofRecord, usize)>)
    requires
        at <= bytes@.len(),
    ensures
        match unframe_entry(bytes@.skip(at as int)) {
            Some((e, used)) => out matches Some((record, next)) && record@ == e && next == at
                + used && at < next <= bytes@.len(),
            None => out is None,
        },
{
    let ghost tail = bytes@.skip(at as int);
    let left = bytes.len() - at;
    if left < 12 {
        return None;
    }
    proof {
        assert(tail.subrange(0, 8) =~= bytes@.subrange(at as int, at + 8));
        assert(tail.subrange(8, 12) =~= bytes@.subrange(at + 8, at + 12));
        lemma_capacities();
        lemma_be_value_bound(tail.subrange(8, 12));
    }
    let index = read_be(bytes, at, 8);
    let key_length = read_be(bytes, at + 8, 4);
    if index > usize::MAX as u64 || key_length > (left - 12) as u64 {
        return None;
    }
    let key_length = key_length as usize;
    if left - 12 - key_length < 4 {
        return None;
    }
    proof {
        assert(tail.subrange(12, 12 + key_length) =~= bytes@.subrange(
            at + 12,
            at + 12 + key_length,
        ));
        assert(tail.subrange(12 + key_length, 16 + key_length) =~= bytes@.subrange(
            at + 12 + key_length,
            at + 16 + key_length,
        ));
        lemma_be_value_bound(tail.subrange(12 + key_length, 16 + key_length));
    }
    let key = copy_range(bytes, at + 12, at + 12 + key_length);
    let proof_length = read_be(bytes, at + 12 + key_length, 4);
    if proof_length > (left - 16 - key_length) as u64 {
        return None;
    }
    let proof_length = proof_length as usize;
    let field_key = string_from_utf8(key)?;
    let from = at + 16 + key_length;
    let proof = copy_range(bytes, from, from + proof_length);
    proof {
        assert(tail.subrange(16 + key_length, 16 + key_length + proof_length) =~= proof@);
    }
    Some((ProofRecord { record_index: index as usize, field_key, proof }, from + proof_length))
}

/// Reads a bundle of frames back into its proof records. Fails with
/// [`Error::BundleFraming`] when a record is cut short or malformed.
pub fn decode_frames(bytes: &[u8]) -> (out: Result<Vec<ProofRecord>, Error>)
    ensures
        match unframe_entries(bytes@) {
            Some(entries) => out matches Ok(records) && entries_of(records@) == entries,
            None => out matches Err(Error::BundleFraming),
        },
{
    let mut records: Vec<ProofRecord> = Vec::new();
    let mut at: usize = 0;
    proof {
        assert(bytes@.skip(0) =~= bytes@);
        assert(entries_of(records@) =~= Seq::<ProofEntry>::empty());
    }
    while at < bytes.len()
        invariant
            at <= bytes@.len(),
            unframe_entries(bytes@) == match unframe_entries(bytes@.skip(at as int)) {
                Some(rest) => Some(entries_of(records@) + rest),
                None => None,
            },
        decreases bytes@.len() - at,
    {
        let ghost tail = bytes@.skip(at as int);
        let ghost done = entries_of(records@);
        match read_frame(bytes, at) {
            Some((record, next)) => {
                proof {
                    assert(tail.skip(next - at) =~= bytes@.skip(next as int));
                    assert(entries_of(records@.push(record)) =~= done.push(record@));
                    match unframe_entries(bytes@.skip(next as int)) {
                        Some(rest) => {
                            assert(done.push(record@) + rest =~= done + (seq![record@] + rest));
                        },
                        None => {},
                    }
                }
                records.push(record);
                at = next;
            },
            None => {
                return Err(Error::BundleFraming);
            },
        }
    }
    proof {
        assert(bytes@.skip(at as int).len() == 0);
        assert(entries_of(records@) + Seq::<ProofEntry>::empty() =~= entries_of(records@));
    }
    Ok(records)
}

} // verus!
