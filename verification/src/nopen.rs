//! The plain variant of hiding: selected fields give way to the SHA-256
//! digest of their value, without salt and without proof.

use vstd::prelude::*;
use vstd::utf8::encode_utf8;
use crate::commitment::sha256_digest;
use crate::hexadecimal::hex_text;
use crate::record::{
    has_text, records_view, texts, Field, FieldModel, FieldValue, Record, ValueModel,
};

verus! {

/// The plain variant of the tool.
pub struct Nopen;

/// The JSON text of a string, as `serde_json` writes it: quoted, with
/// escapes.
pub uninterp spec fn json_string_text(content: Seq<char>) -> Seq<char>;

/// `serde_json::Value::to_string` of a string value: its JSON text.
#[verifier::external_body]
fn json_string(content: &str) -> (text: String)
    ensures
        text@ == json_string_text(content@),
{
    serde_json::Value::String(content.to_owned()).to_string()
}

/// `sha256::digest`: the SHA-256 digest of the text's bytes, in lowercase
/// hex, which is 64 digits.
#[verifier::external_body]
fn digest_hex(text: String) -> (digest: String)
    ensures
        digest@ == hex_text(sha256_digest(encode_utf8(text@))),
        digest@.len() == 64,
{
    sha256::digest(text)
}

/// The text that denotes a value in a record set.
pub open spec fn json_text(value: ValueModel) -> Seq<char> {
    match value {
        ValueModel::Text(content) => json_string_text(content),
        ValueModel::Other(raw) => raw,
    }
}

/// What the plain variant leaves of a field: the digest of the value's
/// text where the key is selected, and the field itself where not.
pub open spec fn hashed_field(selected: Seq<Seq<char>>, field: FieldModel) -> FieldModel {
    if selected.contains(field.key) {
        FieldModel {
            key: field.key,
            value: ValueModel::Text(hex_text(sha256_digest(encode_utf8(json_text(field.value))))),
        }
    } else {
        field
    }
}

/// What the plain variant leaves of a record.
pub open spec fn hashed_record(selected: Seq<Seq<char>>, record: Seq<FieldModel>) -> Seq<
    FieldModel,
> {
    record.map_values(|f: FieldModel| hashed_field(selected, f))
}

/// What the plain variant leaves of a record set.
pub open spec fn hashed_records(selected: Seq<Seq<char>>, records: Seq<Seq<FieldModel>>) -> Seq<
    Seq<FieldModel>,
> {
    records.map_values(|r: Seq<FieldModel>| hashed_record(selected, r))
}

/// The value is a text of 64 characters, as a digest in hex is.
pub open spec fn is_digest(value: ValueModel) -> bool {
    value matches ValueModel::Text(text) && text.len() == 64
}

/// Every field with a selected key holds a digest.
pub open spec fn digests_in_place(selected: Seq<Seq<char>>, records: Seq<Seq<FieldModel>>) -> bool {
    forall|i: int, j: int|
        0 <= i < records.len() && 0 <= j < records[i].len() && selected.contains(
            (#[trigger] records[i][j]).key,
        ) ==> is_digest(records[i][j].value)
}

/// Hashes one field where its key is selected.
fn hash_field(field: &Field, selected: &Vec<String>) -> (kept: Field)
    ensures
        kept@ == hashed_field(texts(selected@), field@),
        texts(selected@).contains(field@.key) ==> is_digest(kept@.value),
{
    let key = field.key.clone();
    if has_text(selected, &field.key) {
        let text = match &field.value {
            FieldValue::Text(content) => json_string(content.as_str()),
            FieldValue::Other(raw) => raw.clone(),
        };
        Field { key, value: FieldValue::Text(digest_hex(text)) }
    } else {
        match &field.value {
            FieldValue::Text(content) => Field { key, value: FieldValue::Text(content.clone()) },
            FieldValue::Other(raw) => Field { key, value: FieldValue::Other(raw.clone()) },
        }
    }
}

/// Hashes the selected fields of one record.
fn hash_record(record: &Record, selected: &Vec<String>) -> (kept: Record)
    ensures
        kept@ == hashed_record(texts(selected@), record@),
        forall|j: int|
            0 <= j < kept@.len() && texts(selected@).contains((#[trigger] kept@[j]).key)
                ==> is_digest(kept@[j].value),
{
    let mut fields: Vec<Field> = Vec::new();
    let mut j: usize = 0;
    while j < record.fields.len()
        invariant
            j <= record.fields@.len(),
            fields@.len() == j,
            forall|k: int|
                0 <= k < j ==> (#[trigger] fields@[k])@ == hashed_field(
                    texts(selected@),
                    record.fields@[k]@,
                ) && (texts(selected@).contains(fields@[k]@.key) ==> is_digest(fields@[k]@.value)),
        decreases record.fields@.len() - j,
    {
        fields.push(hash_field(&record.fields[j], selected));
        j += 1;
    }
    let kept = Record { fields };
    proof {
        assert(kept@ =~= hashed_record(texts(selected@), record@));
        assert forall|j: int|
            0 <= j < kept@.len() && texts(selected@).contains(
                (#[trigger] kept@[j]).key,
            ) implies is_digest(kept@[j].value) by {
            assert(kept@[j] == kept.fields@[j]@);
        }
    }
    kept
}

impl Nopen {
    /// Replaces every selected field of every record by the digest of its
    /// value's text, 64 hex digits.
    pub fn nopen(&self, records: &Vec<Record>, selected: &Vec<String>) -> (out: Vec<Record>)
        ensures
            records_view(out@) == hashed_records(texts(selected@), records_view(records@)),
            digests_in_place(texts(selected@), records_view(out@)),
    {
        let mut out: Vec<Record> = Vec::new();
        let mut i: usize = 0;
        while i < records.len()
            invariant
                i <= records@.len(),
                out@.len() == i,
                forall|k: int|
                    0 <= k < i ==> (#[trigger] out@[k])@ == hashed_record(
                        texts(selected@),
                        records@[k]@,
                    ),
                forall|k: int, j: int|
                    0 <= k < i && 0 <= j < out@[k]@.len() && texts(selected@).contains(
                        (#[trigger] out@[k]@[j]).key,
                    ) ==> is_digest(out@[k]@[j].value),
            decreases records@.len() - i,
        {
            out.push(hash_record(&records[i], selected));
            i += 1;
        }
        proof {
            let hashed = records_view(out@);
            assert(hashed =~= hashed_records(texts(selected@), records_view(records@)));
            assert forall|i: int, j: int|
                0 <= i < hashed.len() && 0 <= j < hashed[i].len() && texts(selected@).contains(
                    (#[trigger] hashed[i][j]).key,
                ) implies is_digest(hashed[i][j].value) by {
                assert(hashed[i] == out@[i]@);
                assert(is_digest(out@[i]@[j].value));
            }
        }
        out
    }
}

} // verus!
