//! Verification: every proof of a bundle is checked against the commitment
//! that it addresses in a redacted record set.
//!
//! The outcome is one result for each proof, in the bundle's order. A proof
//! that cannot be checked is a failure of its own field and of no other.
//! The verifier is what the caller brings: any function that decides on a
//! commitment and a proof will do.

use vstd::prelude::*;
use crate::bundle::{decode_bundle, decode_entries, entries_of, ProofEntry, ProofRecord};
use crate::error::Error;
use crate::hexadecimal::{decode_hex, hex_bytes, is_hex_text};
use crate::record::{records_view, value_at, FieldModel, FieldValue, Record, ValueModel};

verus! {

/// How the check of one proof ended.
#[derive(Clone, Copy, Debug, PartialEq, Eq, Structural)]
pub enum FieldStatus {
    /// The proof attests the commitment in the addressed field.
    Verified,
    /// The record set has no such record, or the record no such field.
    Mismatch,
    /// The addressed field holds no commitment that the proof attests.
    Failed,
}

/// The outcome for one proof of a bundle.
#[derive(Clone, Debug, PartialEq, Eq)]
pub struct FieldResult {
    pub record_index: usize,
    pub field_key: String,
    pub status: FieldStatus,
}

/// The mathematical content of a [`FieldResult`].
pub struct ResultModel {
    pub record_index: nat,
    pub field_key: Seq<char>,
    pub status: FieldStatus,
}

impl View for FieldResult {
    type V = ResultModel;

    open spec fn view(&self) -> ResultModel {
        ResultModel {
            record_index: self.record_index as nat,
            field_key: self.field_key@,
            status: self.status,
        }
    }
}

/// The contents of a list of results.
pub open spec fn results_view(results: Seq<FieldResult>) -> Seq<ResultModel> {
    results.map_values(|r: FieldResult| r@)
}

/// How the check of a proof ends: a mismatch when nothing is addressed, a
/// success when the addressed value is the hex text of a commitment that the
/// verifier accepts the proof for, and a failure otherwise.
pub open spec fn status_of(
    accepts: spec_fn(Seq<u8>, Seq<u8>) -> bool,
    records: Seq<Seq<FieldModel>>,
    entry: ProofEntry,
) -> FieldStatus {
    match value_at(records, entry.record_index, entry.field_key) {
        None => FieldStatus::Mismatch,
        Some(ValueModel::Text(text)) => if is_hex_text(text) && accepts(
            hex_bytes(text),
            entry.proof,
        ) {
            FieldStatus::Verified
        } else {
            FieldStatus::Failed
        },
        Some(ValueModel::Other(_)) => FieldStatus::Failed,
    }
}

/// The outcome for a proof.
pub open spec fn result_of(
    accepts: spec_fn(Seq<u8>, Seq<u8>) -> bool,
    records: Seq<Seq<FieldModel>>,
    entry: ProofEntry,
) -> ResultModel {
    ResultModel {
        record_index: entry.record_index,
        field_key: entry.field_key,
        status: status_of(accepts, records, entry),
    }
}

/// The outcomes for the proofs of a bundle, in the bundle's order.
pub open spec fn results_of(
    accepts: spec_fn(Seq<u8>, Seq<u8>) -> bool,
    records: Seq<Seq<FieldModel>>,
    entries: Seq<ProofEntry>,
) -> Seq<ResultModel> {
    entries.map_values(|e: ProofEntry| result_of(accepts, records, e))
}

/// The verifier may give this answer for this commitment and proof.
pub open spec fn decided<F: Fn(&[u8], &[u8]) -> bool>(
    check: F,
    commitment: Seq<u8>,
    proof: Seq<u8>,
    ok: bool,
) -> bool {
    exists|c: &[u8], p: &[u8]|
        c@ == commitment && p@ == proof && #[trigger] call_ensures(check, (c, p), ok)
}

/// The status of a proof is one that the verifier's answers allow: a
/// mismatch when nothing is addressed, a failure when the addressed value
/// is no hex text, and otherwise what the verifier may say of the bytes
/// behind the text and the proof.
pub open spec fn judged<F: Fn(&[u8], &[u8]) -> bool>(
    check: F,
    records: Seq<Seq<FieldModel>>,
    entry: ProofEntry,
    status: FieldStatus,
) -> bool {
    match value_at(records, entry.record_index, entry.field_key) {
        None => status == FieldStatus::Mismatch,
        Some(ValueModel::Text(text)) => if is_hex_text(text) {
            status != FieldStatus::Mismatch && decided(
                check,
                hex_bytes(text),
                entry.proof,
                status == FieldStatus::Verified,
            )
        } else {
            status == FieldStatus::Failed
        },
        Some(ValueModel::Other(_)) => status == FieldStatus::Failed,
    }
}

/// The verifier answers as the function says, whatever it is asked.
pub open spec fn decides_as<F: Fn(&[u8], &[u8]) -> bool>(
    check: F,
    accepts: spec_fn(Seq<u8>, Seq<u8>) -> bool,
) -> bool {
    forall|c: &[u8], p: &[u8], ok: bool| #[trigger]
        call_ensures(check, (c, p), ok) ==> ok == accepts(c@, p@)
}

/// With a verifier that answers as a function says, the status of a proof
/// is what [`status_of`] gives for that function.
pub proof fn lemma_judged_by_function<F: Fn(&[u8], &[u8]) -> bool>(
    check: F,
    accepts: spec_fn(Seq<u8>, Seq<u8>) -> bool,
    records: Seq<Seq<FieldModel>>,
    entry: ProofEntry,
    status: FieldStatus,
)
    requires
        decides_as(check, accepts),
        judged(check, records, entry, status),
    ensures
        status == status_of(accepts, records, entry),
{
}

/// Each proof is judged on its own: bundles that agree on a proof agree on
/// its result, whatever their other proofs are.
pub proof fn lemma_results_are_independent(
    accepts: spec_fn(Seq<u8>, Seq<u8>) -> bool,
    records: Seq<Seq<FieldModel>>,
    first: Seq<ProofEntry>,
    second: Seq<ProofEntry>,
    k: int,
)
    requires
        0 <= k < first.len(),
        k < second.len(),
        first[k] == second[k],
    ensures
        results_of(accepts, records, first)[k] == results_of(accepts, records, second)[k],
{
}

impl FieldResult {
    /// Whether the proof was verified.
    pub fn ok(&self) -> (ok: bool)
        ensures
            ok == (self.status == FieldStatus::Verified),
    {
        self.status == FieldStatus::Verified
    }

    /// The failure that the result stands for, if it is one.
    pub fn failure(&self) -> (failure: Option<Error>)
        ensures
            match self.status {
                FieldStatus::Verified => failure is None,
                FieldStatus::Mismatch => failure matches Some(
                    Error::VerificationMismatch { record_index, field_key },
                ) && record_index == self.record_index && field_key@ == self.field_key@,
                FieldStatus::Failed => failure matches Some(
                    Error::VerificationFailed { record_index, field_key },
                ) && record_index == self.record_index && field_key@ == self.field_key@,
            },
    {
        match self.status {
            FieldStatus::Verified => None,
            FieldStatus::Mismatch => Some(
                Error::VerificationMismatch {
                    record_index: self.record_index,
                    field_key: self.field_key.clone(),
                },
            ),
            FieldStatus::Failed => Some(
                Error::VerificationFailed {
                    record_index: self.record_index,
                    field_key: self.field_key.clone(),
                },
            ),
        }
    }
}

/// Checks one proof against the record set.
pub fn check_record<F: Fn(&[u8], &[u8]) -> bool>(
    records: &Vec<Record>,
    record: &ProofRecord,
    check: &F,
) -> (status: FieldStatus)
    requires
        forall|c: &[u8], p: &[u8]| call_requires(*check, (c, p)),
    ensures
        judged(*check, records_view(records@), record@, status),
{
    if record.record_index >= records.len() {
        return FieldStatus::Mismatch;
    }
    let target = &records[record.record_index];
    proof {
        assert(records_view(records@)[record.record_index as int] == target@);
    }
    match target.get(&record.field_key) {
        None => FieldStatus::Mismatch,
        Some(FieldValue::Text(text)) => match decode_hex(text.as_str()) {
            Some(commitment) => {
                let c = commitment.as_slice();
                let p = record.proof.as_slice();
                let ok = check(c, p);
                proof {
                    assert(call_ensures(*check, (c, p), ok));
                    assert(decided(*check, commitment@, record.proof@, ok));
                }
                if ok {
                    FieldStatus::Verified
                } else {
                    FieldStatus::Failed
                }
            },
            None => FieldStatus::Failed,
        },
        Some(FieldValue::Other(_)) => FieldStatus::Failed,
    }
}

/// The results answer the proofs one for one, each under its proof's
/// record index and field key, with a status that the verifier's answers
/// allow.
pub open spec fn judged_all<F: Fn(&[u8], &[u8]) -> bool>(
    check: F,
    records: Seq<Seq<FieldModel>>,
    entries: Seq<ProofEntry>,
    results: Seq<ResultModel>,
) -> bool {
    &&& results.len() == entries.len()
    &&& forall|k: int|
        0 <= k < results.len() ==> {
            &&& (#[trigger] results[k]).record_index == entries[k].record_index
            &&& results[k].field_key == entries[k].field_key
            &&& judged(check, records, entries[k], results[k].status)
        }
}

/// Checks every proof of a bundle against the record set. Fails with
/// [`Error::BundleFraming`] when the bundle cannot be read; otherwise
/// returns one result for each proof, whatever the checks gave.
pub fn verify_bundle<F: Fn(&[u8], &[u8]) -> bool>(
    records: &Vec<Record>,
    bundle: &[u8],
    check: &F,
) -> (out: Result<Vec<FieldResult>, Error>)
    requires
        forall|c: &[u8], p: &[u8]| call_requires(*check, (c, p)),
    ensures
        match decode_entries(bundle@) {
            Some(entries) => out matches Ok(results) && judged_all(
                *check,
                records_view(records@),
                entries,
                results_view(results@),
            ),
            None => out matches Err(Error::BundleFraming),
        },
{
    let proofs = match decode_bundle(bundle) {
        Ok(proofs) => proofs,
        Err(e) => {
            return Err(e);
        },
    };
    let ghost entries = entries_of(proofs@);
    let ghost all = records_view(records@);
    let mut results: Vec<FieldResult> = Vec::new();
    let mut k: usize = 0;
    while k < proofs.len()
        invariant
            k <= proofs@.len(),
            entries == entries_of(proofs@),
            all == records_view(records@),
            results@.len() == k,
            forall|c: &[u8], p: &[u8]| call_requires(*check, (c, p)),
            forall|n: int|
                0 <= n < k ==> {
                    &&& (#[trigger] results@[n]).record_index == entries[n].record_index
                    &&& results@[n].field_key@ == entries[n].field_key
                    &&& judged(*check, all, entries[n], results@[n].status)
                },
        decreases proofs@.len() - k,
    {
        let record = &proofs[k];
        let status = check_record(records, record, check);
        proof {
            assert(entries[k as int] == record@);
        }
        results.push(
            FieldResult {
                record_index: record.record_index,
                field_key: record.field_key.clone(),
                status,
            },
        );
        k += 1;
    }
    proof {
        let models = results_view(results@);
        assert forall|n: int| 0 <= n < models.len() implies {
            &&& (#[trigger] models[n]).record_index == entries[n].record_index
            &&& models[n].field_key == entries[n].field_key
            &&& judged(*check, all, entries[n], models[n].status)
        } by {
            assert(models[n] == results@[n]@);
        }
    }
    Ok(results)
}

/// With a verifier that answers as a function says, the results are what
/// [`results_of`] gives for that function.
pub proof fn lemma_judged_all_by_function<F: Fn(&[u8], &[u8]) -> bool>(
    check: F,
    accepts: spec_fn(Seq<u8>, Seq<u8>) -> bool,
    records: Seq<Seq<FieldModel>>,
    entries: Seq<ProofEntry>,
    results: Seq<ResultModel>,
)
    requires
        decides_as(check, accepts),
        judged_all(check, records, entries, results),
    ensures
        results == results_of(accepts, records, entries),
{
    let expected = results_of(accepts, records, entries);
    assert forall|k: int| 0 <= k < results.len() implies results[k] == expected[k] by {
        lemma_judged_by_function(check, accepts, records, entries[k], results[k].status);
    }
    assert(results =~= expected);
}

/// Whether every proof was verified: the conjunction of the results.
pub fn all_verified(results: &Vec<FieldResult>) -> (ok: bool)
    ensures
        ok == forall|k: int| 0 <= k < results@.len() ==> (#[trigger] results@[k]).status
            == FieldStatus::Verified,
{
    let mut k: usize = 0;
    while k < results.len()
        invariant
            k <= results@.len(),
            forall|n: int| 0 <= n < k ==> (#[trigger] results@[n]).status == FieldStatus::Verified,
        decreases results@.len() - k,
    {
        if !results[k].ok() {
            return false;
        }
        k += 1;
    }
    true
}

} // verus!
