//! The proof bundle: many per-field proofs in one binary artifact.
//!
//! A bundle is the concatenation of its records, with no header and no
//! count. A record is the record index in decimal ASCII, the field key in
//! UTF-8 and the raw proof bytes, each followed by the two-byte delimiter
//! `::`. Reading scans for delimiters from the left and resumes after each
//! one, so a key or a proof that holds the delimiter, or ends in its first
//! byte, does not survive the trip: [`frameable`] says which fields do, and
//! [`lemma_bundle_round_trip`] that those are read back unchanged.

use vstd::prelude::*;
use vstd::utf8::{decode_utf8, encode_utf8, valid_utf8};
use crate::error::Error;
use crate::text::{copy_range, string_from_utf8};

verus! {

/// The byte `:`; two of them delimit fields.
pub const COLON: u8 = 58;

/// The byte `"`; a key may be wrapped in them.
pub const QUOTE: u8 = 34;

/// One proof, addressed by the record and the field it belongs to.
#[derive(Clone, Debug, PartialEq, Eq)]
pub struct ProofRecord {
    pub record_index: usize,
    pub field_key: String,
    pub proof: Vec<u8>,
}

/// The mathematical content of a [`ProofRecord`].
pub struct ProofEntry {
    pub record_index: nat,
    pub field_key: Seq<char>,
    pub proof: Seq<u8>,
}

impl View for ProofRecord {
    type V = ProofEntry;

    open spec fn view(&self) -> ProofEntry {
        ProofEntry {
            record_index: self.record_index as nat,
            field_key: self.field_key@,
            proof: self.proof@,
        }
    }
}

/// The entries of a list of proof records.
pub open spec fn entries_of(records: Seq<ProofRecord>) -> Seq<ProofEntry> {
    records.map_values(|r: ProofRecord| r@)
}

/// The two delimiter bytes.
pub open spec fn delimiter() -> Seq<u8> {
    seq![COLON, COLON]
}

/// The decimal ASCII digits of a number, most significant first.
pub open spec fn decimal_digits(n: nat) -> Seq<u8>
    decreases n,
{
    if n < 10 {
        seq![(48 + n) as u8]
    } else {
        decimal_digits(n / 10).push((48 + n % 10) as u8)
    }
}

/// The bytes of one record: index, key and proof, each followed by the
/// delimiter.
pub open spec fn encode_entry(e: ProofEntry) -> Seq<u8> {
    decimal_digits(e.record_index) + delimiter() + encode_utf8(e.field_key) + delimiter() + e.proof
        + delimiter()
}

/// The bytes of a bundle: its records' bytes, one after the other.
pub open spec fn encode_entries(entries: Seq<ProofEntry>) -> Seq<u8>
    decreases entries.len(),
{
    if entries.len() == 0 {
        Seq::empty()
    } else {
        encode_entry(entries.first()) + encode_entries(entries.drop_first())
    }
}

/// Appending a record to a bundle appends its bytes.
pub proof fn lemma_encode_push(entries: Seq<ProofEntry>, e: ProofEntry)
    ensures
        encode_entries(entries.push(e)) == encode_entries(entries) + encode_entry(e),
    decreases entries.len(),
{
    let all = entries.push(e);
    if entries.len() == 0 {
        assert(all.drop_first() =~= Seq::<ProofEntry>::empty());
        assert(encode_entries(all.drop_first()) =~= Seq::<u8>::empty());
        assert(encode_entries(all) =~= encode_entry(e));
        assert(encode_entries(entries) + encode_entry(e) =~= encode_entry(e));
    } else {
        assert(all.drop_first() =~= entries.drop_first().push(e));
        assert(all.first() == entries.first());
        lemma_encode_push(entries.drop_first(), e);
        assert(encode_entries(all) =~= encode_entries(entries) + encode_entry(e));
    }
}

/// Appends the decimal digits of a number.
fn push_decimal(n: usize, out: &mut Vec<u8>)
    ensures
        final(out)@ == old(out)@ + decimal_digits(n as nat),
    decreases n,
{
    if n >= 10 {
        push_decimal(n / 10, out);
    }
    let digit: u8 = (n % 10) as u8;
    out.push(48 + digit);
    proof {
        assert(final(out)@ =~= old(out)@ + decimal_digits(n as nat));
    }
}

/// Appends the delimiter.
fn push_delimiter(out: &mut Vec<u8>)
    ensures
        final(out)@ == old(out)@ + delimiter(),
{
    out.push(COLON);
    out.push(COLON);
    proof {
        assert(final(out)@ =~= old(out)@ + delimiter());
    }
}

/// Writes a list of proof records as one bundle.
pub fn encode_bundle(records: &Vec<ProofRecord>) -> (bytes: Vec<u8>)
    ensures
        bytes@ == encode_entries(entries_of(records@)),
{
    let mut out: Vec<u8> = Vec::new();
    let mut i: usize = 0;
    while i < records.len()
        invariant
            i <= records@.len(),
            out@ == encode_entries(entries_of(records@).take(i as int)),
        decreases records@.len() - i,
    {
        let record = &records[i];
        let ghost before = out@;
        push_decimal(record.record_index, &mut out);
        push_delimiter(&mut out);
        out.extend_from_slice(record.field_key.as_str().as_bytes());
        push_delimiter(&mut out);
        out.extend_from_slice(record.proof.as_slice());
        push_delimiter(&mut out);
        proof {
            let entries = entries_of(records@);
            assert(entries[i as int] == record@);
            assert(out@ =~= before + encode_entry(record@));
            lemma_encode_push(entries.take(i as int), record@);
            assert(entries.take(i as int).push(record@) =~= entries.take(i + 1));
        }
        i += 1;
    }
    proof {
        assert(entries_of(records@).take(i as int) =~= entries_of(records@));
    }
    out
}

/// A delimiter starts at position `i`.
pub open spec fn delimiter_at(s: Seq<u8>, i: int) -> bool {
    0 <= i && i + 1 < s.len() && s[i] == COLON && s[i + 1] == COLON
}

/// The least position at or after `from` where a delimiter starts, and the
/// length of `s` when there is none.
pub open spec fn next_delimiter(s: Seq<u8>, from: int) -> int
    decreases s.len() - from,
{
    if from < 0 || from + 1 >= s.len() {
        s.len() as int
    } else if delimiter_at(s, from) {
        from
    } else {
        next_delimiter(s, from + 1)
    }
}

/// The fields that delimiters close, in order: the scan takes the leftmost
/// delimiter and resumes behind it.
pub open spec fn terminated_fields(s: Seq<u8>) -> Seq<Seq<u8>>
    decreases s.len(),
{
    let p = next_delimiter(s, 0);
    if p < 0 || p + 2 > s.len() {
        Seq::empty()
    } else {
        seq![s.subrange(0, p)] + terminated_fields(s.subrange(p + 2, s.len() as int))
    }
}

/// What follows the last delimiter that the scan finds.
pub open spec fn unterminated_rest(s: Seq<u8>) -> Seq<u8>
    decreases s.len(),
{
    let p = next_delimiter(s, 0);
    if p < 0 || p + 2 > s.len() {
        s
    } else {
        unterminated_rest(s.subrange(p + 2, s.len() as int))
    }
}

/// The number that decimal ASCII digits stand for; nothing for an empty
/// field or one that holds anything but digits.
pub open spec fn parse_decimal(s: Seq<u8>) -> Option<nat>
    decreases s.len(),
{
    if s.len() == 0 || !(48 <= s.last() <= 57) {
        None
    } else if s.len() == 1 {
        Some((s.last() - 48) as nat)
    } else {
        match parse_decimal(s.drop_last()) {
            Some(n) => Some(10 * n + (s.last() - 48) as nat),
            None => None,
        }
    }
}

/// A key without the quotes that open it.
pub open spec fn trim_front(s: Seq<u8>) -> Seq<u8>
    decreases s.len(),
{
    if s.len() > 0 && s.first() == QUOTE {
        trim_front(s.drop_first())
    } else {
        s
    }
}

/// A key without the quotes that close it.
pub open spec fn trim_back(s: Seq<u8>) -> Seq<u8>
    decreases s.len(),
{
    if s.len() > 0 && s.last() == QUOTE {
        trim_back(s.drop_last())
    } else {
        s
    }
}

/// A key field without the quotes around it.
pub open spec fn trim_quotes(s: Seq<u8>) -> Seq<u8> {
    trim_back(trim_front(s))
}

/// The record that three fields stand for: an index that fits the machine
/// word, a key that is UTF-8 once its quotes are off, and the proof as it is.
pub open spec fn parse_entry(index: Seq<u8>, key: Seq<u8>, proof: Seq<u8>) -> Option<ProofEntry> {
    match parse_decimal(index) {
        Some(n) => if n <= usize::MAX && valid_utf8(trim_quotes(key)) {
            Some(ProofEntry { record_index: n, field_key: decode_utf8(trim_quotes(key)), proof })
        } else {
            None
        },
        None => None,
    }
}

/// The records that a list of fields stands for, three fields to a record.
pub open spec fn parse_entries(fields: Seq<Seq<u8>>) -> Option<Seq<ProofEntry>>
    decreases fields.len(),
{
    if fields.len() == 0 {
        Some(Seq::empty())
    } else if fields.len() < 3 {
        None
    } else {
        match (parse_entry(fields[0], fields[1], fields[2]), parse_entries(fields.skip(3))) {
            (Some(e), Some(rest)) => Some(seq![e] + rest),
            _ => None,
        }
    }
}

/// The records of a bundle; nothing when bytes follow the last delimiter,
/// when a record lacks a field, or when an index or a key is malformed.
pub open spec fn decode_entries(bytes: Seq<u8>) -> Option<Seq<ProofEntry>> {
    if unterminated_rest(bytes).len() != 0 {
        None
    } else {
        parse_entries(terminated_fields(bytes))
    }
}

/// The byte sequences that a list of byte vectors holds.
pub open spec fn contents(fields: Seq<Vec<u8>>) -> Seq<Seq<u8>> {
    fields.map_values(|f: Vec<u8>| f@)
}

/// Splits a bundle at its delimiters. Returns the closed fields and the
/// position where the unclosed rest begins.
fn split_fields(bytes: &[u8]) -> (out: (Vec<Vec<u8>>, usize))
    ensures
        contents(out.0@) == terminated_fields(bytes@),
        out.1 <= bytes@.len(),
        bytes@.skip(out.1 as int) == unterminated_rest(bytes@),
{
    let mut fields: Vec<Vec<u8>> = Vec::new();
    let mut start: usize = 0;
    let mut i: usize = 0;
    proof {
        assert(bytes@.skip(0) =~= bytes@);
        assert(contents(fields@) =~= Seq::<Seq<u8>>::empty());
        assert(contents(fields@) + terminated_fields(bytes@) =~= terminated_fields(bytes@));
    }
    while i < bytes.len() && i + 1 < bytes.len()
        invariant
            start <= i <= bytes@.len(),
            terminated_fields(bytes@) == contents(fields@) + terminated_fields(
                bytes@.skip(start as int),
            ),
            unterminated_rest(bytes@) == unterminated_rest(bytes@.skip(start as int)),
            next_delimiter(bytes@.skip(start as int), 0) == next_delimiter(
                bytes@.skip(start as int),
                i - start,
            ),
        decreases bytes@.len() - i,
    {
        let ghost tail = bytes@.skip(start as int);
        let ghost k = i - start;
        if bytes[i] == COLON && bytes[i + 1] == COLON {
            let field = copy_range(bytes, start, i);
            proof {
                assert(delimiter_at(tail, k));
                assert(next_delimiter(tail, k) == k);
                assert(tail.subrange(0, k) =~= field@);
                assert(tail.subrange(k + 2, tail.len() as int) =~= bytes@.skip(i + 2));
                assert(contents(fields@.push(field)) =~= contents(fields@).push(field@));
                assert(contents(fields@).push(field@) + terminated_fields(bytes@.skip(i + 2))
                    =~= contents(fields@) + (seq![field@] + terminated_fields(
                    bytes@.skip(i + 2),
                )));
            }
            fields.push(field);
            i += 2;
            start = i;
        } else {
            proof {
                assert(!delimiter_at(tail, k));
                assert(next_delimiter(tail, k) == next_delimiter(tail, k + 1));
            }
            i += 1;
        }
    }
    proof {
        let tail = bytes@.skip(start as int);
        assert(next_delimiter(tail, i - start) == tail.len());
        assert(terminated_fields(tail) =~= Seq::<Seq<u8>>::empty());
        assert(contents(fields@) + terminated_fields(tail) =~= contents(fields@));
    }
    (fields, start)
}

/// More digits never make a number smaller.
proof fn lemma_parse_decimal_grows(s: Seq<u8>, k: int)
    requires
        0 < k <= s.len(),
        parse_decimal(s) is Some,
    ensures
        parse_decimal(s.take(k)) is Some,
        parse_decimal(s.take(k)).unwrap() <= parse_decimal(s).unwrap(),
    decreases s.len(),
{
    if k == s.len() {
        assert(s.take(k) =~= s);
    } else {
        assert(s.drop_last().take(k) =~= s.take(k));
        lemma_parse_decimal_grows(s.drop_last(), k);
    }
}

/// Reads a decimal index that fits the machine word.
fn read_decimal(field: &Vec<u8>) -> (value: Option<usize>)
    ensures
        value == match parse_decimal(field@) {
            Some(n) => if n <= usize::MAX {
                Some(n as usize)
            } else {
                None
            },
            None => None,
        },
{
    if field.len() == 0 {
        return None;
    }
    let mut value: usize = 0;
    let mut i: usize = 0;
    while i < field.len()
        invariant
            i <= field@.len(),
            i > 0 ==> parse_decimal(field@.take(i as int)) == Some(value as nat),
            i == 0 ==> value == 0,
        decreases field@.len() - i,
    {
        let b: u8 = field[i];
        let ghost next = field@.take(i + 1);
        proof {
            assert(next.last() == b);
            assert(next.drop_last() =~= field@.take(i as int));
        }
        if b < 48 || b > 57 {
            proof {
                assert(parse_decimal(next) is None);
                if parse_decimal(field@) is Some {
                    lemma_parse_decimal_grows(field@, i + 1);
                }
            }
            return None;
        }
        let digit: usize = (b - 48) as usize;
        if value > (usize::MAX - digit) / 10 {
            proof {
                assert(10 * value + digit > usize::MAX);
                assert(i > 0);
                assert(parse_decimal(next) == Some((10 * value + digit) as nat));
                if parse_decimal(field@) is Some {
                    lemma_parse_decimal_grows(field@, i + 1);
                }
            }
            return None;
        }
        proof {
            if i > 0 {
                assert(parse_decimal(next) == Some((10 * value + digit) as nat));
            } else {
                assert(parse_decimal(next) == Some(digit as nat));
            }
        }
        value = 10 * value + digit;
        i += 1;
    }
    proof {
        assert(field@.take(i as int) =~= field@);
    }
    Some(value)
}

/// Copies a key field without the quotes around it.
fn strip_quotes(field: &Vec<u8>) -> (key: Vec<u8>)
    ensures
        key@ == trim_quotes(field@),
{
    let mut lo: usize = 0;
    proof {
        assert(field@.skip(0) =~= field@);
    }
    while lo < field.len() && field[lo] == QUOTE
        invariant
            lo <= field@.len(),
            trim_front(field@) == trim_front(field@.skip(lo as int)),
        decreases field@.len() - lo,
    {
        proof {
            assert(field@.skip(lo as int).drop_first() =~= field@.skip(lo + 1));
        }
        lo += 1;
    }
    let mut hi: usize = field.len();
    proof {
        assert(field@.skip(lo as int) =~= field@.subrange(lo as int, hi as int));
        if lo < field@.len() {
            assert(field@.skip(lo as int).first() != QUOTE);
        }
    }
    while hi > lo && field[hi - 1] == QUOTE
        invariant
            lo <= hi <= field@.len(),
            trim_front(field@) == field@.subrange(lo as int, field@.len() as int),
            trim_quotes(field@) == trim_back(field@.subrange(lo as int, hi as int)),
        decreases hi,
    {
        proof {
            assert(field@.subrange(lo as int, hi as int).drop_last() =~= field@.subrange(
                lo as int,
                hi - 1,
            ));
        }
        hi -= 1;
    }
    proof {
        let kept = field@.subrange(lo as int, hi as int);
        if hi > lo {
            assert(kept.last() != QUOTE);
        }
        assert(trim_back(kept) == kept);
    }
    copy_range(field.as_slice(), lo, hi)
}

/// Builds the records that a list of fields stands for.
fn read_entries(fields: Vec<Vec<u8>>) -> (records: Option<Vec<ProofRecord>>)
    ensures
        match parse_entries(contents(fields@)) {
            Some(entries) => records matches Some(v) && entries_of(v@) == entries,
            None => records is None,
        },
{
    let ghost all = contents(fields@);
    let mut records: Vec<ProofRecord> = Vec::new();
    let mut taken: usize = 0;
    let total = fields.len();
    proof {
        assert(all.skip(0) =~= all);
        assert(entries_of(records@) =~= Seq::<ProofEntry>::empty());
    }
    while taken < total
        invariant
            taken <= total,
            total == fields@.len(),
            all == contents(fields@),
            parse_entries(all) == match parse_entries(all.skip(taken as int)) {
                Some(rest) => Some(entries_of(records@) + rest),
                None => None,
            },
        decreases total - taken,
    {
        let ghost tail = all.skip(taken as int);
        if total - taken < 3 {
            proof {
                assert(0 < tail.len() < 3);
            }
            return None;
        }
        proof {
            assert(tail[0] == fields@[taken as int]@);
            assert(tail[1] == fields@[taken + 1]@);
            assert(tail[2] == fields@[taken + 2]@);
            assert(tail.skip(3) =~= all.skip(taken + 3));
        }
        let index = read_decimal(&fields[taken]);
        let key_bytes = strip_quotes(&fields[taken + 1]);
        let key = string_from_utf8(key_bytes);
        match (index, key) {
            (Some(record_index), Some(field_key)) => {
                let mut proof_bytes: Vec<u8> = Vec::new();
                proof_bytes.extend_from_slice(fields[taken + 2].as_slice());
                let record = ProofRecord { record_index, field_key, proof: proof_bytes };
                proof {
                    assert(proof_bytes@ =~= tail[2]);
                    let e = parse_entry(tail[0], tail[1], tail[2]).unwrap();
                    assert(record@ == e);
                    assert(entries_of(records@.push(record)) =~= entries_of(records@).push(e));
                    match parse_entries(tail.skip(3)) {
                        Some(rest) => {
                            assert(entries_of(records@).push(e) + rest =~= entries_of(records@) + (
                            seq![e] + rest));
                        },
                        None => {},
                    }
                }
                records.push(record);
                taken += 3;
            },
            _ => {
                proof {
                    assert(parse_entry(tail[0], tail[1], tail[2]) is None);
                }
                return None;
            },
        }
    }
    proof {
        assert(all.skip(taken as int) =~= Seq::<Seq<u8>>::empty());
        assert(entries_of(records@) + Seq::<ProofEntry>::empty() =~= entries_of(records@));
    }
    Some(records)
}

/// Reads a bundle back into its proof records. Fails with
/// [`Error::BundleFraming`] when the bytes are not a sequence of complete,
/// well-formed records.
pub fn decode_bundle(bytes: &[u8]) -> (outcome: Result<Vec<ProofRecord>, Error>)
    ensures
        match decode_entries(bytes@) {
            Some(entries) => outcome matches Ok(records) && entries_of(records@) == entries,
            None => outcome matches Err(Error::BundleFraming),
        },
{
    let (fields, rest) = split_fields(bytes);
    if rest != bytes.len() {
        return Err(Error::BundleFraming);
    }
    match read_entries(fields) {
        Some(records) => Ok(records),
        None => Err(Error::BundleFraming),
    }
}

/// A field that framing leaves intact: it holds no delimiter and does not
/// end in a colon, which would merge with the delimiter behind it.
pub open spec fn frameable(field: Seq<u8>) -> bool {
    &&& forall|i: int| !delimiter_at(field, i)
    &&& field.len() > 0 ==> field.last() != COLON
}

/// A key field that neither begins nor ends with a quote.
pub open spec fn unquoted(field: Seq<u8>) -> bool {
    field.len() > 0 ==> field.first() != QUOTE && field.last() != QUOTE
}

/// A record that a bundle gives back as it was: the index fits the machine
/// word, the key's bytes and the proof are frameable, and the key has no
/// quote at either end.
pub open spec fn survives(e: ProofEntry) -> bool {
    &&& e.record_index <= usize::MAX
    &&& frameable(encode_utf8(e.field_key))
    &&& unquoted(encode_utf8(e.field_key))
    &&& frameable(e.proof)
}

/// Tells whether framing leaves a field intact.
pub fn is_frameable(field: &[u8]) -> (ok: bool)
    ensures
        ok == frameable(field@),
{
    let n = field.len();
    if n == 0 {
        return true;
    }
    if field[n - 1] == COLON {
        return false;
    }
    let mut i: usize = 0;
    while i + 1 < n
        invariant
            n == field@.len(),
            i < n,
            forall|j: int| 0 <= j < i ==> !delimiter_at(field@, j),
        decreases n - i,
    {
        if field[i] == COLON && field[i + 1] == COLON {
            proof {
                assert(delimiter_at(field@, i as int));
            }
            return false;
        }
        i += 1;
    }
    true
}

/// Tells whether a bundle gives a record back as it was.
pub fn can_frame(record: &ProofRecord) -> (ok: bool)
    ensures
        ok == survives(record@),
{
    let key = record.field_key.as_str().as_bytes();
    let n = key.len();
    if n > 0 && (key[0] == QUOTE || key[n - 1] == QUOTE) {
        return false;
    }
    is_frameable(key) && is_frameable(record.proof.as_slice())
}

/// Writes a list of proof records as one bundle, if the bundle will give
/// them back. Fails with [`Error::BundleFraming`] when a record does not
/// survive framing.
pub fn encode_bundle_checked(records: &Vec<ProofRecord>) -> (out: Result<Vec<u8>, Error>)
    ensures
        match out {
            Ok(bytes) => {
                &&& forall|i: int| 0 <= i < records@.len() ==> survives(#[trigger] records@[i]@)
                &&& bytes@ == encode_entries(entries_of(records@))
                &&& decode_entries(bytes@) == Some(entries_of(records@))
            },
            Err(e) => e == Error::BundleFraming && exists|i: int|
                0 <= i < records@.len() && !survives(#[trigger] records@[i]@),
        },
{
    let mut i: usize = 0;
    while i < records.len()
        invariant
            i <= records@.len(),
            forall|k: int| 0 <= k < i ==> survives(#[trigger] records@[k]@),
        decreases records@.len() - i,
    {
        if !can_frame(&records[i]) {
            proof {
                assert(!survives(records@[i as int]@));
            }
            return Err(Error::BundleFraming);
        }
        i += 1;
    }
    proof {
        let entries = entries_of(records@);
        assert forall|k: int| 0 <= k < entries.len() implies survives(#[trigger] entries[k]) by {
            assert(entries[k] == records@[k]@);
        }
        lemma_bundle_round_trip(entries);
    }
    Ok(encode_bundle(records))
}

/// A scan that starts before a delimiter, with none in between, stops at
/// that delimiter.
proof fn lemma_scan_reaches(s: Seq<u8>, at: int, k: int)
    requires
        0 <= k <= at,
        delimiter_at(s, at),
        forall|j: int| k <= j < at ==> !delimiter_at(s, j),
    ensures
        next_delimiter(s, k) == at,
    decreases at - k,
{
    if k < at {
        assert(!delimiter_at(s, k));
        lemma_scan_reaches(s, at, k + 1);
    }
}

/// Behind a frameable field and its delimiter, the scan goes on as if it
/// had started there.
pub proof fn lemma_field_then_delimiter(field: Seq<u8>, rest: Seq<u8>)
    requires
        frameable(field),
    ensures
        terminated_fields(field + delimiter() + rest) == seq![field] + terminated_fields(rest),
        unterminated_rest(field + delimiter() + rest) == unterminated_rest(rest),
{
    let s = field + delimiter() + rest;
    let at = field.len() as int;
    assert(s[at] == COLON && s[at + 1] == COLON);
    assert forall|j: int| 0 <= j < at implies !delimiter_at(s, j) by {
        if j + 1 < at {
            assert(!delimiter_at(field, j));
            assert(s[j] == field[j] && s[j + 1] == field[j + 1]);
        } else {
            assert(s[j] == field.last());
        }
    }
    lemma_scan_reaches(s, at, 0);
    assert(s.subrange(0, at) =~= field);
    assert(s.subrange(at + 2, s.len() as int) =~= rest);
}

/// The digits of a number are a frameable field that reads back as the
/// number.
pub proof fn lemma_decimal_digits(n: nat)
    ensures
        frameable(decimal_digits(n)),
        parse_decimal(decimal_digits(n)) == Some(n),
        decimal_digits(n).len() > 0,
        forall|i: int| 0 <= i < decimal_digits(n).len() ==> 48 <= #[trigger] decimal_digits(n)[i] <= 57,
    decreases n,
{
    let d = decimal_digits(n);
    if n >= 10 {
        lemma_decimal_digits(n / 10);
        assert(d.drop_last() =~= decimal_digits(n / 10));
        assert(d.last() == (48 + n % 10) as u8);
    }
    assert forall|i: int| !delimiter_at(d, i) by {
        if 0 <= i < d.len() {
            assert(48 <= d[i] <= 57);
        }
    }
}

/// A key without quotes at its ends is what trimming leaves of it.
pub proof fn lemma_trim_unquoted(field: Seq<u8>)
    requires
        unquoted(field),
    ensures
        trim_quotes(field) == field,
{
}

/// The three fields of a record that survives, and how they read back.
pub proof fn lemma_entry_round_trip(e: ProofEntry, rest: Seq<u8>)
    requires
        survives(e),
    ensures
        terminated_fields(encode_entry(e) + rest) == seq![
            decimal_digits(e.record_index),
            encode_utf8(e.field_key),
            e.proof,
        ] + terminated_fields(rest),
        unterminated_rest(encode_entry(e) + rest) == unterminated_rest(rest),
        parse_entry(decimal_digits(e.record_index), encode_utf8(e.field_key), e.proof) == Some(e),
{
    let digits = decimal_digits(e.record_index);
    let key = encode_utf8(e.field_key);
    let after_proof = rest;
    let after_key = e.proof + delimiter() + after_proof;
    let after_index = key + delimiter() + after_key;
    lemma_decimal_digits(e.record_index);
    lemma_field_then_delimiter(e.proof, after_proof);
    lemma_field_then_delimiter(key, after_key);
    lemma_field_then_delimiter(digits, after_index);
    assert(encode_entry(e) + rest =~= digits + delimiter() + after_index);
    assert(seq![digits] + (seq![key] + (seq![e.proof] + terminated_fields(rest))) =~= seq![
        digits,
        key,
        e.proof,
    ] + terminated_fields(rest));
    lemma_trim_unquoted(key);
    vstd::utf8::encode_utf8_valid_utf8(e.field_key);
    vstd::utf8::encode_utf8_decode_utf8(e.field_key);
}

/// Reading gives back what was written: a bundle made of records that
/// survive framing decodes to exactly those records, in order.
pub proof fn lemma_bundle_round_trip(entries: Seq<ProofEntry>)
    requires
        forall|i: int| 0 <= i < entries.len() ==> survives(#[trigger] entries[i]),
    ensures
        decode_entries(encode_entries(entries)) == Some(entries),
    decreases entries.len(),
{
    if entries.len() == 0 {
        let none = Seq::<u8>::empty();
        assert(encode_entries(entries) =~= none);
        assert(terminated_fields(none) =~= Seq::<Seq<u8>>::empty());
        assert(parse_entries(terminated_fields(none)).unwrap() =~= entries);
    } else {
        let e = entries.first();
        let others = entries.drop_first();
        let tail = encode_entries(others);
        assert forall|i: int| 0 <= i < others.len() implies survives(#[trigger] others[i]) by {
            assert(others[i] == entries[i + 1]);
        }
        lemma_bundle_round_trip(others);
        lemma_entry_round_trip(e, tail);
        let fields = terminated_fields(encode_entry(e) + tail);
        assert(fields.skip(3) =~= terminated_fields(tail));
        assert(seq![e] + others =~= entries);
    }
}

} // verus!
