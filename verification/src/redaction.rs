//! Redaction: selected text fields give way to commitments, and each one
//! gets a proof.
//!
//! The work is done in two passes. The first commits: it checks every
//! selected text against the preimage capacity, replaces it by the
//! commitment and notes a proof task. Nothing is proved before every field
//! has passed. The second proves the tasks in order, with the prover that
//! the caller brings: any function from a buffer to a proof will do.

use vstd::prelude::*;
use crate::bundle::{entries_of, ProofEntry, ProofRecord};
use crate::commitment::{commit, commitment_of, commitment_text};
use crate::error::Error;
use crate::hexadecimal::{encode_hex, hex_text};
use crate::preimage::{fits, pad_preimage, salt_value, salted, zero_padded};
use crate::record::{
    distinct_keys, has_text, lemma_value_of_distinct, records_view, texts, value_at, Field,
    FieldModel, FieldValue, Record, ValueModel,
};
use crate::zk::ProvingError;

verus! {

/// A proof still to be made: the preimage buffer behind the commitment that
/// now stands in a record, and where it stands.
#[derive(Clone, Debug, PartialEq, Eq)]
pub struct ProofTask {
    pub record_index: usize,
    pub field_key: String,
    pub buffer: [u8; 80],
}

/// The mathematical content of a [`ProofTask`].
pub struct TaskModel {
    pub record_index: nat,
    pub field_key: Seq<char>,
    pub buffer: Seq<u8>,
}

impl View for ProofTask {
    type V = TaskModel;

    open spec fn view(&self) -> TaskModel {
        TaskModel {
            record_index: self.record_index as nat,
            field_key: self.field_key@,
            buffer: self.buffer@,
        }
    }
}

/// The contents of a list of tasks.
pub open spec fn tasks_view(tasks: Seq<ProofTask>) -> Seq<TaskModel> {
    tasks.map_values(|t: ProofTask| t@)
}

/// The text of a value, and the empty text for a value that is none.
pub open spec fn text_of(value: ValueModel) -> Seq<char> {
    match value {
        ValueModel::Text(s) => s,
        ValueModel::Other(_) => Seq::empty(),
    }
}

/// The field is to be redacted: its key is selected and its value is text.
pub open spec fn is_redacted(selected: Seq<Seq<char>>, field: FieldModel) -> bool {
    field.value is Text && selected.contains(field.key)
}

/// The field is to be redacted and its text does not fit the preimage
/// buffer together with the salt.
pub open spec fn is_unfit(selected: Seq<Seq<char>>, salt: Seq<char>, field: FieldModel) -> bool {
    is_redacted(selected, field) && !fits(text_of(field.value), salt)
}

/// The buffer that a text is committed through.
pub open spec fn buffer_of(value: Seq<char>, salt: Seq<char>) -> Seq<u8> {
    zero_padded(salted(value, salt))
}

/// What redaction leaves of a field: the commitment to its text in place of
/// the text where it is to be redacted, and the field itself where not.
pub open spec fn redacted_field(selected: Seq<Seq<char>>, salt: Seq<char>, field: FieldModel)
    -> FieldModel {
    if is_redacted(selected, field) {
        FieldModel {
            key: field.key,
            value: ValueModel::Text(commitment_text(text_of(field.value), salt)),
        }
    } else {
        field
    }
}

/// What redaction leaves of a record: its fields, each redacted, in the
/// record's order.
pub open spec fn redacted_record(
    selected: Seq<Seq<char>>,
    salt: Seq<char>,
    record: Seq<FieldModel>,
) -> Seq<FieldModel> {
    record.map_values(|f: FieldModel| redacted_field(selected, salt, f))
}

/// What redaction leaves of a record set.
pub open spec fn redacted_records(
    selected: Seq<Seq<char>>,
    salt: Seq<char>,
    records: Seq<Seq<FieldModel>>,
) -> Seq<Seq<FieldModel>> {
    records.map_values(|r: Seq<FieldModel>| redacted_record(selected, salt, r))
}

/// The task that a redacted field gives rise to.
pub open spec fn task_of(index: nat, salt: Seq<char>, field: FieldModel) -> TaskModel {
    TaskModel {
        record_index: index,
        field_key: field.key,
        buffer: buffer_of(text_of(field.value), salt),
    }
}

/// The tasks of a record: one for each field to redact, in the record's
/// order.
pub open spec fn record_tasks(
    selected: Seq<Seq<char>>,
    salt: Seq<char>,
    index: nat,
    record: Seq<FieldModel>,
) -> Seq<TaskModel>
    decreases record.len(),
{
    if record.len() == 0 {
        Seq::empty()
    } else if is_redacted(selected, record.last()) {
        record_tasks(selected, salt, index, record.drop_last()).push(
            task_of(index, salt, record.last()),
        )
    } else {
        record_tasks(selected, salt, index, record.drop_last())
    }
}

/// The tasks of a record set: those of its records, in the records' order.
pub open spec fn all_tasks(
    selected: Seq<Seq<char>>,
    salt: Seq<char>,
    records: Seq<Seq<FieldModel>>,
) -> Seq<TaskModel>
    decreases records.len(),
{
    if records.len() == 0 {
        Seq::empty()
    } else {
        all_tasks(selected, salt, records.drop_last()) + record_tasks(
            selected,
            salt,
            (records.len() - 1) as nat,
            records.last(),
        )
    }
}

/// Field `j` is the first of the record that does not fit.
pub open spec fn first_unfit_field(
    selected: Seq<Seq<char>>,
    salt: Seq<char>,
    record: Seq<FieldModel>,
    j: int,
) -> bool {
    &&& 0 <= j < record.len()
    &&& is_unfit(selected, salt, record[j])
    &&& forall|k: int| 0 <= k < j ==> !is_unfit(selected, salt, #[trigger] record[k])
}

/// Every field of the record that is to be redacted fits.
pub open spec fn record_fits(selected: Seq<Seq<char>>, salt: Seq<char>, record: Seq<FieldModel>)
    -> bool {
    forall|k: int| 0 <= k < record.len() ==> !is_unfit(selected, salt, #[trigger] record[k])
}

/// Every field of the record set that is to be redacted fits.
pub open spec fn all_fit(selected: Seq<Seq<char>>, salt: Seq<char>, records: Seq<Seq<FieldModel>>)
    -> bool {
    forall|i: int| 0 <= i < records.len() ==> record_fits(selected, salt, #[trigger] records[i])
}

/// Field `j` of record `i` is the first of the record set that does not
/// fit, in the order of records and, within a record, of fields.
pub open spec fn first_unfit(
    selected: Seq<Seq<char>>,
    salt: Seq<char>,
    records: Seq<Seq<FieldModel>>,
    i: int,
    j: int,
) -> bool {
    &&& 0 <= i < records.len()
    &&& forall|k: int| 0 <= k < i ==> record_fits(selected, salt, #[trigger] records[k])
    &&& first_unfit_field(selected, salt, records[i], j)
}

/// The first field of the record set that does not fit is in record `i`
/// and has the given key.
pub open spec fn names_first_unfit(
    selected: Seq<Seq<char>>,
    salt: Seq<char>,
    records: Seq<Seq<FieldModel>>,
    i: int,
    key: Seq<char>,
) -> bool {
    exists|j: int| #[trigger]
        first_unfit(selected, salt, records, i, j) && records[i][j].key == key
}

/// Commits one field. `None` when its text does not fit.
fn commit_field(record_index: usize, field: &Field, selected: &Vec<String>, salt: &str) -> (out:
    Option<(Field, Option<ProofTask>)>)
    ensures
        out is None <==> is_unfit(texts(selected@), salt@, field@),
        out matches Some((kept, task)) ==> {
            &&& kept@ == redacted_field(texts(selected@), salt@, field@)
            &&& match task {
                Some(t) => is_redacted(texts(selected@), field@) && t@ == task_of(
                    record_index as nat,
                    salt@,
                    field@,
                ),
                None => !is_redacted(texts(selected@), field@),
            }
        },
{
    match &field.value {
        FieldValue::Text(text) => {
            if has_text(selected, &field.key) {
                let bytes = salt_value(text.as_str(), salt);
                match pad_preimage(bytes.as_slice()) {
                    Some(buffer) => {
                        let commitment = commit(&buffer);
                        let kept = Field {
                            key: field.key.clone(),
                            value: FieldValue::Text(encode_hex(commitment.as_slice())),
                        };
                        let task = ProofTask {
                            record_index,
                            field_key: field.key.clone(),
                            buffer,
                        };
                        Some((kept, Some(task)))
                    },
                    None => None,
                }
            } else {
                let kept = Field { key: field.key.clone(), value: FieldValue::Text(text.clone()) };
                Some((kept, None))
            }
        },
        FieldValue::Other(raw) => {
            let kept = Field { key: field.key.clone(), value: FieldValue::Other(raw.clone()) };
            Some((kept, None))
        },
    }
}

/// Commits one record. Fails with the position of the first field that
/// does not fit.
fn commit_record(record_index: usize, record: &Record, selected: &Vec<String>, salt: &str) -> (out:
    Result<(Record, Vec<ProofTask>), usize>)
    ensures
        match out {
            Ok((kept, tasks)) => {
                &&& record_fits(texts(selected@), salt@, record@)
                &&& kept@ == redacted_record(texts(selected@), salt@, record@)
                &&& tasks_view(tasks@) == record_tasks(
                    texts(selected@),
                    salt@,
                    record_index as nat,
                    record@,
                )
            },
            Err(j) => first_unfit_field(texts(selected@), salt@, record@, j as int),
        },
{
    let ghost chosen = texts(selected@);
    let mut fields: Vec<Field> = Vec::new();
    let mut tasks: Vec<ProofTask> = Vec::new();
    let mut j: usize = 0;
    proof {
        assert(record@.take(0) =~= Seq::<FieldModel>::empty());
        assert(fields@.map_values(|f: Field| f@) =~= Seq::<FieldModel>::empty());
        assert(tasks_view(tasks@) =~= Seq::<TaskModel>::empty());
    }
    while j < record.fields.len()
        invariant
            j <= record@.len(),
            record@.len() == record.fields@.len(),
            chosen == texts(selected@),
            forall|k: int| 0 <= k < j ==> !is_unfit(chosen, salt@, #[trigger] record@[k]),
            fields@.map_values(|f: Field| f@) == redacted_record(
                chosen,
                salt@,
                record@.take(j as int),
            ),
            tasks_view(tasks@) == record_tasks(
                chosen,
                salt@,
                record_index as nat,
                record@.take(j as int),
            ),
        decreases record@.len() - j,
    {
        let field = &record.fields[j];
        let ghost upto = record@.take(j + 1);
        let ghost done_fields = fields@.map_values(|f: Field| f@);
        let ghost done_tasks = tasks_view(tasks@);
        proof {
            assert(record@[j as int] == field@);
            assert(upto.drop_last() =~= record@.take(j as int));
            assert(upto.last() == field@);
        }
        match commit_field(record_index, field, selected, salt) {
            Some((kept, task)) => {
                proof {
                    assert(redacted_record(chosen, salt@, upto) =~= done_fields.push(kept@));
                }
                fields.push(kept);
                proof {
                    assert(fields@.map_values(|f: Field| f@) =~= done_fields.push(kept@));
                }
                match task {
                    Some(t) => {
                        tasks.push(t);
                        proof {
                            assert(tasks_view(tasks@) =~= done_tasks.push(t@));
                        }
                    },
                    None => {},
                }
            },
            None => {
                return Err(j);
            },
        }
        j += 1;
    }
    proof {
        assert(record@.take(j as int) =~= record@);
    }
    let kept = Record { fields };
    Ok((kept, tasks))
}

/// Commits a record set: replaces every selected text by the commitment to
/// it under the salt, and lists the proofs that this calls for. Fails with
/// [`Error::PreimageTooLong`], naming the first field whose text does not
/// fit, before anything is committed.
pub fn commit_records(records: &Vec<Record>, selected: &Vec<String>, salt: &str) -> (out: Result<
    (Vec<Record>, Vec<ProofTask>),
    Error,
>)
    ensures
        match out {
            Ok((kept, tasks)) => {
                &&& all_fit(texts(selected@), salt@, records_view(records@))
                &&& records_view(kept@) == redacted_records(
                    texts(selected@),
                    salt@,
                    records_view(records@),
                )
                &&& tasks_view(tasks@) == all_tasks(texts(selected@), salt@, records_view(records@))
            },
            Err(Error::PreimageTooLong { record_index, field_key }) => names_first_unfit(
                texts(selected@),
                salt@,
                records_view(records@),
                record_index as int,
                field_key@,
            ),
            Err(_) => false,
        },
{
    let ghost chosen = texts(selected@);
    let ghost all = records_view(records@);
    let mut kept: Vec<Record> = Vec::new();
    let mut tasks: Vec<ProofTask> = Vec::new();
    let mut i: usize = 0;
    proof {
        assert(all.take(0) =~= Seq::<Seq<FieldModel>>::empty());
        assert(records_view(kept@) =~= Seq::<Seq<FieldModel>>::empty());
        assert(tasks_view(tasks@) =~= Seq::<TaskModel>::empty());
    }
    while i < records.len()
        invariant
            i <= records@.len(),
            chosen == texts(selected@),
            all == records_view(records@),
            forall|k: int| 0 <= k < i ==> record_fits(chosen, salt@, #[trigger] all[k]),
            records_view(kept@) == redacted_records(chosen, salt@, all.take(i as int)),
            tasks_view(tasks@) == all_tasks(chosen, salt@, all.take(i as int)),
        decreases records@.len() - i,
    {
        let record = &records[i];
        let ghost upto = all.take(i + 1);
        let ghost done_records = records_view(kept@);
        let ghost done_tasks = tasks_view(tasks@);
        proof {
            assert(all[i as int] == record@);
            assert(upto.drop_last() =~= all.take(i as int));
            assert(upto.last() == record@);
        }
        match commit_record(i, record, selected, salt) {
            Ok((redacted, mut more)) => {
                proof {
                    assert(redacted_records(chosen, salt@, upto) =~= done_records.push(redacted@));
                    assert(tasks_view(tasks@ + more@) =~= done_tasks + tasks_view(more@));
                }
                kept.push(redacted);
                tasks.append(&mut more);
                proof {
                    assert(records_view(kept@) =~= done_records.push(redacted@));
                }
            },
            Err(j) => {
                let field_key = record.fields[j].key.clone();
                proof {
                    assert(all[i as int][j as int].key == field_key@);
                    assert(first_unfit(chosen, salt@, all, i as int, j as int));
                }
                return Err(Error::PreimageTooLong { record_index: i, field_key });
            },
        }
        i += 1;
    }
    proof {
        assert(all.take(i as int) =~= all);
    }
    Ok((kept, tasks))
}

/// A bundle holds one proof for each task, in the tasks' order, under the
/// task's record index and field key.
pub open spec fn answers(bundle: Seq<ProofEntry>, tasks: Seq<TaskModel>) -> bool {
    &&& bundle.len() == tasks.len()
    &&& forall|k: int|
        0 <= k < bundle.len() ==> (#[trigger] bundle[k]).record_index == tasks[k].record_index
            && bundle[k].field_key == tasks[k].field_key
}

/// The prover may give this proof for this buffer.
pub open spec fn proved<F: Fn(&[u8; 80]) -> Result<Vec<u8>, ProvingError>>(
    prove: F,
    buffer: Seq<u8>,
    proof: Seq<u8>,
) -> bool {
    exists|b: &[u8; 80], out: Vec<u8>|
        b@ == buffer && out@ == proof && #[trigger] call_ensures(
            prove,
            (b,),
            Ok::<Vec<u8>, ProvingError>(out),
        )
}

/// Every proof of the bundle is one that the prover may give for the buffer
/// of the task it answers.
pub open spec fn proved_all<F: Fn(&[u8; 80]) -> Result<Vec<u8>, ProvingError>>(
    prove: F,
    bundle: Seq<ProofEntry>,
    tasks: Seq<TaskModel>,
) -> bool {
    forall|k: int|
        0 <= k < bundle.len() && k < tasks.len() ==> proved(
            prove,
            tasks[k].buffer,
            (#[trigger] bundle[k]).proof,
        )
}

/// The prover may give a proof for this buffer.
pub open spec fn may_prove<F: Fn(&[u8; 80]) -> Result<Vec<u8>, ProvingError>>(
    prove: F,
    buffer: Seq<u8>,
) -> bool {
    exists|b: &[u8; 80], out: Vec<u8>|
        b@ == buffer && #[trigger] call_ensures(prove, (b,), Ok::<Vec<u8>, ProvingError>(out))
}

/// The prover may fail on this buffer.
pub open spec fn may_fail<F: Fn(&[u8; 80]) -> Result<Vec<u8>, ProvingError>>(
    prove: F,
    buffer: Seq<u8>,
) -> bool {
    exists|b: &[u8; 80], e: ProvingError|
        b@ == buffer && #[trigger] call_ensures(prove, (b,), Err::<Vec<u8>, ProvingError>(e))
}

/// Task `k` is where proving stopped: the prover gave a proof for every
/// task before it and failed on its buffer.
pub open spec fn stopped_at<F: Fn(&[u8; 80]) -> Result<Vec<u8>, ProvingError>>(
    prove: F,
    tasks: Seq<TaskModel>,
    k: int,
) -> bool {
    &&& 0 <= k < tasks.len()
    &&& may_fail(prove, tasks[k].buffer)
    &&& forall|n: int| 0 <= n < k ==> may_prove(prove, (#[trigger] tasks[n]).buffer)
}

/// Proving stopped at a task for the given record index and field key.
pub open spec fn fails_task<F: Fn(&[u8; 80]) -> Result<Vec<u8>, ProvingError>>(
    prove: F,
    tasks: Seq<TaskModel>,
    index: nat,
    key: Seq<char>,
) -> bool {
    exists|k: int| #[trigger]
        stopped_at(prove, tasks, k) && tasks[k].record_index == index && tasks[k].field_key == key
}

/// Proves the tasks in order. Fails with [`Error::Proving`], naming the
/// field of the task on which the prover failed, as soon as it fails.
pub fn prove_tasks<F: Fn(&[u8; 80]) -> Result<Vec<u8>, ProvingError>>(
    tasks: &Vec<ProofTask>,
    prove: &F,
) -> (out: Result<Vec<ProofRecord>, Error>)
    requires
        forall|b: &[u8; 80]| call_requires(*prove, (b,)),
    ensures
        match out {
            Ok(bundle) => answers(entries_of(bundle@), tasks_view(tasks@)) && proved_all(
                *prove,
                entries_of(bundle@),
                tasks_view(tasks@),
            ),
            Err(Error::Proving { record_index, field_key }) => fails_task(
                *prove,
                tasks_view(tasks@),
                record_index as nat,
                field_key@,
            ),
            Err(_) => false,
        },
{
    let mut bundle: Vec<ProofRecord> = Vec::new();
    let mut k: usize = 0;
    while k < tasks.len()
        invariant
            k <= tasks@.len(),
            bundle@.len() == k,
            forall|b: &[u8; 80]| call_requires(*prove, (b,)),
            forall|n: int|
                0 <= n < k ==> (#[trigger] bundle@[n]).record_index == tasks@[n].record_index
                    && bundle@[n].field_key@ == tasks@[n].field_key@ && proved(
                    *prove,
                    tasks@[n].buffer@,
                    bundle@[n].proof@,
                ),
        decreases tasks@.len() - k,
    {
        let task = &tasks[k];
        match prove(&task.buffer) {
            Ok(proof) => {
                proof {
                    assert(call_ensures(*prove, (&task.buffer,), Ok::<Vec<u8>, ProvingError>(proof)));
                    assert(proved(*prove, task.buffer@, proof@));
                }
                bundle.push(
                    ProofRecord {
                        record_index: task.record_index,
                        field_key: task.field_key.clone(),
                        proof,
                    },
                );
            },
            Err(e) => {
                let record_index = task.record_index;
                let field_key = task.field_key.clone();
                proof {
                    let models = tasks_view(tasks@);
                    assert(models[k as int] == task@);
                    assert(call_ensures(*prove, (&task.buffer,), Err::<Vec<u8>, ProvingError>(e)));
                    assert(may_fail(*prove, models[k as int].buffer));
                    assert forall|n: int| 0 <= n < k implies may_prove(
                        *prove,
                        (#[trigger] models[n]).buffer,
                    ) by {
                        assert(models[n] == tasks@[n]@);
                        assert(proved(*prove, tasks@[n].buffer@, bundle@[n].proof@));
                    }
                    assert(stopped_at(*prove, models, k as int));
                    assert(fails_task(*prove, models, record_index as nat, field_key@));
                }
                return Err(Error::Proving { record_index, field_key });
            },
        }
        k += 1;
    }
    proof {
        let entries = entries_of(bundle@);
        let models = tasks_view(tasks@);
        assert forall|n: int| 0 <= n < entries.len() implies (#[trigger] entries[n]).record_index
            == models[n].record_index && entries[n].field_key == models[n].field_key by {
            assert(entries[n] == bundle@[n]@);
            assert(models[n] == tasks@[n]@);
        }
        assert forall|n: int| 0 <= n < entries.len() && n < models.len() implies proved(
            *prove,
            models[n].buffer,
            (#[trigger] entries[n]).proof,
        ) by {
            assert(entries[n] == bundle@[n]@);
            assert(models[n] == tasks@[n]@);
        }
    }
    Ok(bundle)
}

/// The outcome of a redaction: the record set with commitments in place of
/// the selected texts, and the proofs for them.
#[derive(Clone, Debug, PartialEq, Eq)]
pub struct Redaction {
    pub records: Vec<Record>,
    pub bundle: Vec<ProofRecord>,
}

/// Redacts a record set under a salt: commits every selected text, then
/// proves every commitment with the given prover.
pub fn redact<F: Fn(&[u8; 80]) -> Result<Vec<u8>, ProvingError>>(
    records: &Vec<Record>,
    selected: &Vec<String>,
    salt: &str,
    prove: &F,
) -> (out: Result<Redaction, Error>)
    requires
        forall|b: &[u8; 80]| call_requires(*prove, (b,)),
    ensures
        match out {
            Ok(done) => {
                &&& all_fit(texts(selected@), salt@, records_view(records@))
                &&& records_view(done.records@) == redacted_records(
                    texts(selected@),
                    salt@,
                    records_view(records@),
                )
                &&& answers(
                    entries_of(done.bundle@),
                    all_tasks(texts(selected@), salt@, records_view(records@)),
                )
                &&& proved_all(
                    *prove,
                    entries_of(done.bundle@),
                    all_tasks(texts(selected@), salt@, records_view(records@)),
                )
            },
            Err(Error::PreimageTooLong { record_index, field_key }) => names_first_unfit(
                texts(selected@),
                salt@,
                records_view(records@),
                record_index as int,
                field_key@,
            ),
            Err(Error::Proving { record_index, field_key }) => {
                &&& all_fit(texts(selected@), salt@, records_view(records@))
                &&& fails_task(
                    *prove,
                    all_tasks(texts(selected@), salt@, records_view(records@)),
                    record_index as nat,
                    field_key@,
                )
            },
            Err(_) => false,
        },
{
    match commit_records(records, selected, salt) {
        Ok((kept, tasks)) => match prove_tasks(&tasks, prove) {
            Ok(bundle) => Ok(Redaction { records: kept, bundle }),
            Err(e) => Err(e),
        },
        Err(e) => Err(e),
    }
}

/// Every task of a record stands for one of its fields to redact.
pub proof fn lemma_record_tasks(
    selected: Seq<Seq<char>>,
    salt: Seq<char>,
    index: nat,
    record: Seq<FieldModel>,
    k: int,
) -> (j: int)
    requires
        0 <= k < record_tasks(selected, salt, index, record).len(),
    ensures
        0 <= j < record.len(),
        is_redacted(selected, record[j]),
        record_tasks(selected, salt, index, record)[k] == task_of(index, salt, record[j]),
    decreases record.len(),
{
    let before = record_tasks(selected, salt, index, record.drop_last());
    if is_redacted(selected, record.last()) && k == before.len() {
        record.len() - 1
    } else {
        lemma_record_tasks(selected, salt, index, record.drop_last(), k)
    }
}

/// Every task of a record set stands for a field to redact of one of its
/// records, and names that record.
pub proof fn lemma_all_tasks(
    selected: Seq<Seq<char>>,
    salt: Seq<char>,
    records: Seq<Seq<FieldModel>>,
    k: int,
) -> (at: (int, int))
    requires
        0 <= k < all_tasks(selected, salt, records).len(),
    ensures
        0 <= at.0 < records.len(),
        0 <= at.1 < records[at.0].len(),
        is_redacted(selected, records[at.0][at.1]),
        all_tasks(selected, salt, records)[k] == task_of(
            at.0 as nat,
            salt,
            records[at.0][at.1],
        ),
    decreases records.len(),
{
    let before = all_tasks(selected, salt, records.drop_last());
    if k < before.len() {
        lemma_all_tasks(selected, salt, records.drop_last(), k)
    } else {
        let i = records.len() - 1;
        let j = lemma_record_tasks(selected, salt, i as nat, records.last(), k - before.len());
        (i, j)
    }
}

/// Proofs find their commitments: in a record set whose records are
/// mappings, each task's record index and field key lead, after redaction,
/// to the hex text of the commitment to the task's buffer.
pub proof fn lemma_tasks_address_commitments(
    selected: Seq<Seq<char>>,
    salt: Seq<char>,
    records: Seq<Seq<FieldModel>>,
    k: int,
)
    requires
        forall|i: int| 0 <= i < records.len() ==> distinct_keys(#[trigger] records[i]),
        0 <= k < all_tasks(selected, salt, records).len(),
    ensures
        ({
            let task = all_tasks(selected, salt, records)[k];
            value_at(redacted_records(selected, salt, records), task.record_index, task.field_key)
                == Some(ValueModel::Text(hex_text(commitment_of(task.buffer))))
        }),
{
    let (i, j) = lemma_all_tasks(selected, salt, records, k);
    let record = records[i];
    let redacted = redacted_record(selected, salt, record);
    assert(redacted_records(selected, salt, records)[i] == redacted);
    assert(distinct_keys(record));
    assert forall|a: int, b: int| 0 <= a < b < redacted.len() implies redacted[a].key
        != redacted[b].key by {
        assert(record[a].key != record[b].key);
    }
    lemma_value_of_distinct(redacted, j);
}

} // verus!
