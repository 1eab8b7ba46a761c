//! The two commands of the tool, on values: hiding fields of a record set
//! and verifying a hidden record set against its proofs.

use vstd::prelude::*;
use vstd::string::StringExecFns;
use vstd::utf8::encode_utf8;
use crate::bundle::{decode_entries, entries_of, ProofEntry, ProofRecord};
use crate::commitment::commitment_of;
use crate::error::Error;
use crate::hexadecimal::lemma_hex_round_trip;
use crate::preimage::{fits, PREIMAGE_CAPACITY};
use crate::record::{distinct_keys, records_view, texts, FieldModel, Record};
use crate::redaction::{
    all_fit, all_tasks, answers, commit_records, lemma_tasks_address_commitments, may_fail,
    may_prove, names_first_unfit, prove_tasks, proved, redacted_records, stopped_at, tasks_view,
    ProofTask, TaskModel,
};
use crate::salt::{gen_salt, is_salt, lemma_salt_bytes, SALT_LENGTH};
use crate::verification::{
    lemma_judged_all_by_function, results_of, results_view, status_of, verify_bundle, FieldResult,
    FieldStatus,
};
use crate::zk::{
    may_return, parses_as_verifying_key, proof_parses, prove_buffer, setup, verifies, verify,
    verifying_key_parses, ProvingError, ProvingParameters,
};

verus! {

/// The tool.
pub struct Zk4log;

/// What hiding hands back: the record set with commitments in place of the
/// selected texts, one proof for each commitment, and the key to verify
/// them with.
#[derive(Clone, Debug, PartialEq, Eq)]
pub struct Hidden {
    pub records: Vec<Record>,
    pub bundle: Vec<ProofRecord>,
    pub verifying_key: Vec<u8>,
}

/// How a record set is written out.
#[derive(Clone, Copy, Debug, PartialEq, Eq, Structural)]
pub enum OutputShape {
    /// The one record by itself.
    Object,
    /// The records in an array.
    Array,
}

/// What a successful hiding under a salt gives: every selected text fits
/// and is replaced by its commitment, and the bundle holds one proof for
/// each, in order.
pub open spec fn hidden_under(
    selected: Seq<Seq<char>>,
    salt: Seq<char>,
    records: Seq<Seq<FieldModel>>,
    hidden: Seq<Seq<FieldModel>>,
    bundle: Seq<ProofEntry>,
) -> bool {
    &&& all_fit(selected, salt, records)
    &&& hidden == redacted_records(selected, salt, records)
    &&& answers(bundle, all_tasks(selected, salt, records))
}

/// Every proof of the bundle is accepted under the key for the commitment
/// to the buffer of the task it answers.
pub open spec fn accepted_all(key: Seq<u8>, bundle: Seq<ProofEntry>, tasks: Seq<TaskModel>) -> bool {
    forall|k: int|
        0 <= k < bundle.len() && k < tasks.len() ==> verifies(
            key,
            commitment_of(tasks[k].buffer),
            (#[trigger] bundle[k]).proof,
        )
}

/// Some proof is accepted under the key for the commitment to the buffer.
pub open spec fn provable(key: Seq<u8>, buffer: Seq<u8>) -> bool {
    exists|proof: Seq<u8>| #[trigger] verifies(key, commitment_of(buffer), proof)
}

/// Proving the buffer under the key may end in an error.
pub open spec fn may_not_prove(key: Seq<u8>, buffer: Seq<u8>) -> bool {
    exists|e: ProvingError| #[trigger]
        may_return(key, buffer, Err::<Vec<u8>, ProvingError>(e))
}

/// Task `k` is where proving under the key stopped: every task before it
/// got a proof that is accepted, and proving its buffer ended in an error.
pub open spec fn proving_stopped_at(key: Seq<u8>, tasks: Seq<TaskModel>, k: int) -> bool {
    &&& 0 <= k < tasks.len()
    &&& may_not_prove(key, tasks[k].buffer)
    &&& forall|n: int| 0 <= n < k ==> provable(key, (#[trigger] tasks[n]).buffer)
}

/// Proving under the key stopped at a task for the given record index and
/// field key.
pub open spec fn proving_fails_task(
    key: Seq<u8>,
    tasks: Seq<TaskModel>,
    index: nat,
    field_key: Seq<char>,
) -> bool {
    exists|k: int| #[trigger]
        proving_stopped_at(key, tasks, k) && tasks[k].record_index == index && tasks[k].field_key
            == field_key
}

/// What proving the tasks of a committed record set with the keys of a key
/// generation may end in: the error of the key generation where it failed;
/// else the committed records with the verifying key and one accepted
/// proof for each task, or the field of the task where proving stopped.
pub open spec fn hides_with(
    kept: Vec<Record>,
    tasks: Seq<TaskModel>,
    keys: Result<ProvingParameters, Error>,
    out: Result<Hidden, Error>,
) -> bool {
    match keys {
        Err(e) => out == Err::<Hidden, Error>(e),
        Ok(params) => match out {
            Ok(done) => {
                &&& done.records == kept
                &&& done.verifying_key@ == params.key()
                &&& answers(entries_of(done.bundle@), tasks)
                &&& accepted_all(params.key(), entries_of(done.bundle@), tasks)
            },
            Err(Error::Proving { record_index, field_key }) => proving_fails_task(
                params.key(),
                tasks,
                record_index as nat,
                field_key@,
            ),
            Err(_) => false,
        },
    }
}

/// What hiding under a salt may end in.
pub open spec fn hides(
    selected: Seq<Seq<char>>,
    salt: Seq<char>,
    records: Seq<Seq<FieldModel>>,
    out: Result<Hidden, Error>,
) -> bool {
    match out {
        Ok(done) => {
            &&& hidden_under(
                selected,
                salt,
                records,
                records_view(done.records@),
                entries_of(done.bundle@),
            )
            &&& verifying_key_parses(done.verifying_key@)
            &&& accepted_all(
                done.verifying_key@,
                entries_of(done.bundle@),
                all_tasks(selected, salt, records),
            )
        },
        Err(Error::PreimageTooLong { record_index, field_key }) => names_first_unfit(
            selected,
            salt,
            records,
            record_index as int,
            field_key@,
        ),
        Err(Error::Proving { record_index, field_key }) => all_fit(selected, salt, records)
            && exists|key: Seq<u8>|
            verifying_key_parses(key) && #[trigger] proving_fails_task(
                key,
                all_tasks(selected, salt, records),
                record_index as nat,
                field_key@,
            ),
        Err(Error::Setup) => all_fit(selected, salt, records),
        Err(Error::Serialization) => all_fit(selected, salt, records),
        Err(_) => false,
    }
}

/// The words with one space between each two.
pub open spec fn joined(words: Seq<Seq<char>>) -> Seq<char>
    decreases words.len(),
{
    if words.len() == 0 {
        Seq::empty()
    } else if words.len() == 1 {
        words[0]
    } else {
        joined(words.drop_last()) + " "@ + words.last()
    }
}

/// The keys that a selection picks from a key universe, in the
/// selection's order.
pub open spec fn picked(keys: Seq<Seq<char>>, selections: Seq<usize>) -> Seq<Seq<char>> {
    Seq::new(selections.len(), |i: int| keys[selections[i] as int])
}

/// The shell command that shows the selected columns of a record file.
pub open spec fn open_command(path: Seq<char>, columns: Seq<Seq<char>>) -> Seq<char> {
    "open "@ + path + " | select -i "@ + joined(columns)
}

/// What the proof system's verifier accepts under a key.
pub open spec fn groth16_decision(key: Seq<u8>) -> spec_fn(Seq<u8>, Seq<u8>) -> bool {
    |commitment: Seq<u8>, proof: Seq<u8>| verifies(key, commitment, proof)
}

/// Whether a text fits beside a salt does not depend on the salt's symbols:
/// it fits when it has at most 64 bytes.
pub proof fn lemma_fits_any_salt(value: Seq<char>, salt: Seq<char>)
    requires
        is_salt(salt),
    ensures
        fits(value, salt) <==> encode_utf8(value).len() + SALT_LENGTH <= PREIMAGE_CAPACITY,
{
    lemma_salt_bytes(salt);
}

/// Verification finds what hiding wrote: in a record set whose records are
/// mappings, the proof for the `k`-th redacted field is never a mismatch,
/// and it is verified exactly when the verifier accepts it for the
/// commitment to that field's preimage buffer.
pub proof fn lemma_hidden_fields_are_found(
    accepts: spec_fn(Seq<u8>, Seq<u8>) -> bool,
    selected: Seq<Seq<char>>,
    salt: Seq<char>,
    records: Seq<Seq<FieldModel>>,
    bundle: Seq<ProofEntry>,
    k: int,
)
    requires
        forall|i: int| 0 <= i < records.len() ==> distinct_keys(#[trigger] records[i]),
        answers(bundle, all_tasks(selected, salt, records)),
        0 <= k < bundle.len(),
    ensures
        status_of(accepts, redacted_records(selected, salt, records), bundle[k]) == if accepts(
            commitment_of(all_tasks(selected, salt, records)[k].buffer),
            bundle[k].proof,
        ) {
            FieldStatus::Verified
        } else {
            FieldStatus::Failed
        },
{
    let task = all_tasks(selected, salt, records)[k];
    lemma_tasks_address_commitments(selected, salt, records, k);
    lemma_hex_round_trip(commitment_of(task.buffer));
    assert(bundle[k].record_index == task.record_index);
    assert(bundle[k].field_key == task.field_key);
}

/// What hiding hands back, verification accepts: in a record set whose
/// records are mappings, every proof of a bundle that answers the tasks
/// with accepted proofs is verified against the redacted record set.
pub proof fn lemma_hidden_fields_verify(
    key: Seq<u8>,
    selected: Seq<Seq<char>>,
    salt: Seq<char>,
    records: Seq<Seq<FieldModel>>,
    bundle: Seq<ProofEntry>,
)
    requires
        forall|i: int| 0 <= i < records.len() ==> distinct_keys(#[trigger] records[i]),
        answers(bundle, all_tasks(selected, salt, records)),
        accepted_all(key, bundle, all_tasks(selected, salt, records)),
    ensures
        forall|k: int|
            0 <= k < bundle.len() ==> (#[trigger] results_of(
                groth16_decision(key),
                redacted_records(selected, salt, records),
                bundle,
            )[k]).status == FieldStatus::Verified,
{
    let decision = groth16_decision(key);
    let hidden = redacted_records(selected, salt, records);
    assert forall|k: int| 0 <= k < bundle.len() implies (#[trigger] results_of(
        decision,
        hidden,
        bundle,
    )[k]).status == FieldStatus::Verified by {
        lemma_hidden_fields_are_found(decision, selected, salt, records, bundle, k);
    }
}

/// The verifier accepts the proof for no commitment at all.
pub open spec fn rejected(key: Seq<u8>, proof: Seq<u8>) -> bool {
    forall|commitment: Seq<u8>| !#[trigger] verifies(key, commitment, proof)
}

/// A proof that cannot be read is rejected, whatever the commitment.
pub proof fn lemma_unreadable_proof_is_rejected(key: Seq<u8>, proof: Seq<u8>)
    requires
        !proof_parses(proof),
    ensures
        rejected(key, proof),
{
}

/// A tampered proof fails its own field and no other: where two bundles
/// differ in one proof only, and the verifier rejects that proof in the
/// second, verification of the second gives as many results, the same
/// result for every other proof, and a result that is not verified for
/// that one.
pub proof fn lemma_tampered_proof_fails_alone(
    key: Seq<u8>,
    records: Seq<Seq<FieldModel>>,
    before: Seq<ProofEntry>,
    after: Seq<ProofEntry>,
    k: int,
)
    requires
        before.len() == after.len(),
        0 <= k < after.len(),
        forall|n: int| 0 <= n < after.len() && n != k ==> before[n] == after[n],
        rejected(key, after[k].proof),
    ensures
        results_of(groth16_decision(key), records, after).len() == before.len(),
        forall|n: int|
            0 <= n < after.len() && n != k ==> (#[trigger] results_of(
                groth16_decision(key),
                records,
                after,
            )[n]) == results_of(groth16_decision(key), records, before)[n],
        results_of(groth16_decision(key), records, after)[k].status != FieldStatus::Verified,
{
    let decision = groth16_decision(key);
    let entry = after[k];
    assert(results_of(decision, records, after)[k].status == status_of(decision, records, entry));
    match crate::record::value_at(records, entry.record_index, entry.field_key) {
        Some(crate::record::ValueModel::Text(text)) => {
            let commitment = crate::hexadecimal::hex_bytes(text);
            assert(!verifies(key, commitment, entry.proof));
            assert(!decision(commitment, entry.proof));
        },
        _ => {},
    }
}

impl Zk4log {
    /// Hides the selected fields of a record set under a fresh salt: every
    /// selected text is replaced by a commitment and gets a proof. The keys
    /// of the proof system are generated for this call alone.
    pub fn hide_fields(&self, records: &Vec<Record>, selected: &Vec<String>) -> (out: Result<
        Hidden,
        Error,
    >)
        ensures
            exists|salt: Seq<char>|
                is_salt(salt) && #[trigger] hides(
                    texts(selected@),
                    salt,
                    records_view(records@),
                    out,
                ),
    {
        let salt = gen_salt();
        let out = self.hide_fields_with_salt(records, selected, salt.as_str());
        proof {
            assert(is_salt(salt@) && hides(texts(selected@), salt@, records_view(records@), out));
        }
        out
    }

    /// Hides the selected fields of a record set under the given salt.
    /// Fails with [`Error::PreimageTooLong`] exactly when a selected text
    /// does not fit beside the salt, and then names the first such field;
    /// no key is generated in that case.
    pub fn hide_fields_with_salt(&self, records: &Vec<Record>, selected: &Vec<String>, salt: &str) -> (out:
        Result<Hidden, Error>)
        ensures
            hides(texts(selected@), salt@, records_view(records@), out),
            !all_fit(texts(selected@), salt@, records_view(records@)) ==> out matches Err(
                Error::PreimageTooLong { .. },
            ),
    {
        let (kept, tasks) = match commit_records(records, selected, salt) {
            Ok(committed) => committed,
            Err(e) => {
                proof {
                    lemma_first_unfit_is_unfit(
                        texts(selected@),
                        salt@,
                        records_view(records@),
                        e,
                    );
                }
                return Err(e);
            },
        };
        let keys = match setup() {
            Ok((params, _)) => Ok(params),
            Err(e) => Err(e),
        };
        let ghost key = if keys is Ok {
            keys->Ok_0.key()
        } else {
            Seq::empty()
        };
        let out = self.hide_with_keys(kept, &tasks, keys);
        proof {
            if out is Err && out->Err_0 is Proving {
                assert(verifying_key_parses(key) && proving_fails_task(
                    key,
                    all_tasks(texts(selected@), salt@, records_view(records@)),
                    out->Err_0->Proving_record_index as nat,
                    out->Err_0->Proving_field_key@,
                ));
            }
        }
        out
    }

    /// Proves the tasks of a committed record set with the keys of a key
    /// generation, or hands on the error of the key generation. With keys
    /// and no task, it hands back the records and the verifying key.
    pub fn hide_with_keys(
        &self,
        kept: Vec<Record>,
        tasks: &Vec<ProofTask>,
        keys: Result<ProvingParameters, Error>,
    ) -> (out: Result<Hidden, Error>)
        ensures
            hides_with(kept, tasks_view(tasks@), keys, out),
            keys is Ok && tasks@.len() == 0 ==> out is Ok,
    {
        let params = match keys {
            Ok(params) => params,
            Err(e) => {
                return Err(e);
            },
        };
        let verifying_key = params.verifying_key();
        let prove = |buffer: &[u8; 80]| -> (proof: Result<Vec<u8>, ProvingError>)
            ensures
                may_return(params.key(), buffer@, proof),
            { prove_buffer(&params, buffer) };
        match prove_tasks(tasks, &prove) {
            Ok(bundle) => {
                proof {
                    let entries = entries_of(bundle@);
                    let models = tasks_view(tasks@);
                    assert forall|k: int| 0 <= k < entries.len() && k < models.len() implies verifies(
                        params.key(),
                        commitment_of(models[k].buffer),
                        (#[trigger] entries[k]).proof,
                    ) by {
                        assert(proved(prove, models[k].buffer, entries[k].proof));
                    }
                }
                Ok(Hidden { records: kept, bundle, verifying_key })
            },
            Err(e) => {
                proof {
                    let models = tasks_view(tasks@);
                    let key = params.key();
                    if e is Proving {
                        let record_index = e->Proving_record_index;
                        let field_key = e->Proving_field_key;
                        let k = choose|k: int| #[trigger]
                            stopped_at(prove, models, k) && models[k].record_index
                                == record_index as nat && models[k].field_key == field_key@;
                        assert(may_fail(prove, models[k].buffer));
                        assert(may_not_prove(key, models[k].buffer));
                        assert forall|n: int| 0 <= n < k implies provable(
                            key,
                            (#[trigger] models[n]).buffer,
                        ) by {
                            assert(may_prove(prove, models[n].buffer));
                        }
                        assert(proving_stopped_at(key, models, k));
                    }
                }
                Err(e)
            },
        }
    }

    /// Verifies a hidden record set against a bundle of proofs under a
    /// verifying key. Fails with [`Error::Serialization`] when the key
    /// cannot be read and with [`Error::BundleFraming`] when the bundle
    /// cannot; otherwise returns one result for each proof.
    pub fn verify(&self, records: &Vec<Record>, bundle: &[u8], key: &[u8]) -> (out: Result<
        Vec<FieldResult>,
        Error,
    >)
        ensures
            !verifying_key_parses(key@) ==> (out matches Err(Error::Serialization)),
            verifying_key_parses(key@) ==> match decode_entries(bundle@) {
                Some(entries) => out matches Ok(results) && results_view(results@) == results_of(
                    groth16_decision(key@),
                    records_view(records@),
                    entries,
                ),
                None => out matches Err(Error::BundleFraming),
            },
    {
        if !parses_as_verifying_key(key) {
            return Err(Error::Serialization);
        }
        let check = |commitment: &[u8], proof: &[u8]| -> (ok: bool)
            ensures
                ok == verifies(key@, commitment@, proof@),
            { verify(key, commitment, proof) };
        match verify_bundle(records, bundle, &check) {
            Ok(results) => {
                proof {
                    lemma_judged_all_by_function(
                        check,
                        groth16_decision(key@),
                        records_view(records@),
                        decode_entries(bundle@).unwrap(),
                        results_view(results@),
                    );
                }
                Ok(results)
            },
            Err(e) => Err(e),
        }
    }

    /// Builds the shell command that shows the selected columns of a
    /// record file. A selection is a position in the key universe.
    pub fn open(&self, path: &str, keys: &Vec<String>, selections: &Vec<usize>) -> (command: String)
        requires
            forall|i: int| 0 <= i < selections@.len() ==> selections@[i] < keys@.len(),
        ensures
            command@ == open_command(path@, picked(texts(keys@), selections@)),
    {
        let ghost columns = picked(texts(keys@), selections@);
        let mut command = String::from_str("open ");
        command.append(path);
        command.append(" | select -i ");
        let ghost head = command@;
        let mut i: usize = 0;
        proof {
            assert(columns.take(0) =~= Seq::<Seq<char>>::empty());
            assert(head + joined(columns.take(0)) =~= head);
        }
        while i < selections.len()
            invariant
                i <= selections@.len(),
                columns == picked(texts(keys@), selections@),
                forall|k: int| 0 <= k < selections@.len() ==> selections@[k] < keys@.len(),
                command@ == head + joined(columns.take(i as int)),
            decreases selections@.len() - i,
        {
            let ghost before = command@;
            if i > 0 {
                command.append(" ");
            }
            command.append(keys[selections[i]].as_str());
            proof {
                let upto = columns.take(i + 1);
                assert(upto.drop_last() =~= columns.take(i as int));
                assert(upto.last() == keys@[selections@[i as int] as int]@);
                if i > 0 {
                    assert(command@ =~= head + joined(upto));
                } else {
                    assert(joined(columns.take(0)) =~= Seq::<char>::empty());
                    assert(command@ =~= head + joined(upto));
                }
            }
            i += 1;
        }
        proof {
            assert(columns.take(i as int) =~= columns);
        }
        command
    }

    /// How to write out a record set: one record stands by itself, any
    /// other number of records in an array.
    pub fn output_shape(count: usize) -> (shape: OutputShape)
        ensures
            shape == if count == 1 {
                OutputShape::Object
            } else {
                OutputShape::Array
            },
    {
        if count == 1 {
            OutputShape::Object
        } else {
            OutputShape::Array
        }
    }
}

/// An error that names a first unfit field shows that not every field fits.
proof fn lemma_first_unfit_is_unfit(
    selected: Seq<Seq<char>>,
    salt: Seq<char>,
    records: Seq<Seq<FieldModel>>,
    e: Error,
)
    requires
        e matches Error::PreimageTooLong { record_index, field_key } && names_first_unfit(
            selected,
            salt,
            records,
            record_index as int,
            field_key@,
        ),
    ensures
        !all_fit(selected, salt, records),
{
}

} // verus!
