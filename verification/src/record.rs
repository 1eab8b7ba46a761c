//! Records: ordered mappings from string keys to values.
//!
//! Only text can be committed to. Every other value is carried along as it
//! was written in the record set and is never looked into.

use vstd::prelude::*;

verus! {

/// The value of a field.
#[derive(Clone, Debug, PartialEq, Eq)]
pub enum FieldValue {
    /// A string leaf, by its content.
    Text(String),
    /// Any other value, by the text that denotes it in the record set.
    Other(String),
}

/// The mathematical content of a [`FieldValue`].
pub enum ValueModel {
    Text(Seq<char>),
    Other(Seq<char>),
}

impl View for FieldValue {
    type V = ValueModel;

    open spec fn view(&self) -> ValueModel {
        match self {
            FieldValue::Text(s) => ValueModel::Text(s@),
            FieldValue::Other(s) => ValueModel::Other(s@),
        }
    }
}

/// One field of a record.
#[derive(Clone, Debug, PartialEq, Eq)]
pub struct Field {
    pub key: String,
    pub value: FieldValue,
}

/// The mathematical content of a [`Field`].
pub struct FieldModel {
    pub key: Seq<char>,
    pub value: ValueModel,
}

impl View for Field {
    type V = FieldModel;

    open spec fn view(&self) -> FieldModel {
        FieldModel { key: self.key@, value: self.value@ }
    }
}

/// A record: its fields in their own order.
#[derive(Clone, Debug, PartialEq, Eq)]
pub struct Record {
    pub fields: Vec<Field>,
}

impl View for Record {
    type V = Seq<FieldModel>;

    open spec fn view(&self) -> Seq<FieldModel> {
        self.fields@.map_values(|f: Field| f@)
    }
}

/// The contents of a record set.
pub open spec fn records_view(records: Seq<Record>) -> Seq<Seq<FieldModel>> {
    records.map_values(|r: Record| r@)
}

/// The texts of a list of strings.
pub open spec fn texts(strings: Seq<String>) -> Seq<Seq<char>> {
    strings.map_values(|s: String| s@)
}

/// No key occurs twice in the record: it is a mapping.
pub open spec fn distinct_keys(record: Seq<FieldModel>) -> bool {
    forall|i: int, j: int| 0 <= i < j < record.len() ==> record[i].key != record[j].key
}

/// The position of the first field with the given key, and the number of
/// fields when there is none.
pub open spec fn position_of(record: Seq<FieldModel>, key: Seq<char>) -> int
    decreases record.len(),
{
    if record.len() == 0 {
        0
    } else if record.first().key == key {
        0
    } else {
        1 + position_of(record.drop_first(), key)
    }
}

/// The value that a record maps a key to, if it has the key.
pub open spec fn value_of(record: Seq<FieldModel>, key: Seq<char>) -> Option<ValueModel> {
    let at = position_of(record, key);
    if 0 <= at < record.len() {
        Some(record[at].value)
    } else {
        None
    }
}

/// The value at a record index and key of a record set, if both exist.
pub open spec fn value_at(records: Seq<Seq<FieldModel>>, index: nat, key: Seq<char>) -> Option<
    ValueModel,
> {
    if index < records.len() {
        value_of(records[index as int], key)
    } else {
        None
    }
}

/// What `position_of` finds: the least position with the key.
pub proof fn lemma_position_of(record: Seq<FieldModel>, key: Seq<char>)
    ensures
        0 <= position_of(record, key) <= record.len(),
        position_of(record, key) < record.len() ==> record[position_of(record, key)].key == key,
        forall|i: int| 0 <= i < position_of(record, key) ==> record[i].key != key,
    decreases record.len(),
{
    if record.len() > 0 && record.first().key != key {
        let rest = record.drop_first();
        lemma_position_of(rest, key);
        assert forall|i: int| 0 <= i < position_of(record, key) implies record[i].key != key by {
            if i > 0 {
                assert(record[i] == rest[i - 1]);
            }
        }
        if position_of(record, key) < record.len() {
            assert(record[position_of(record, key)] == rest[position_of(rest, key)]);
        }
    }
}

/// In a mapping, the field at position `at` is what its key leads to.
pub proof fn lemma_value_of_distinct(record: Seq<FieldModel>, at: int)
    requires
        distinct_keys(record),
        0 <= at < record.len(),
    ensures
        position_of(record, record[at].key) == at,
        value_of(record, record[at].key) == Some(record[at].value),
{
    let key = record[at].key;
    lemma_position_of(record, key);
    let found = position_of(record, key);
    if found < at {
        assert(record[found].key != record[at].key);
    }
}

/// The keys with one more: unchanged when the key is already among them.
pub open spec fn with_key(keys: Seq<Seq<char>>, key: Seq<char>) -> Seq<Seq<char>> {
    if keys.contains(key) {
        keys
    } else {
        keys.push(key)
    }
}

/// The keys with those of a record's fields, taken in the record's order.
pub open spec fn with_keys_of(keys: Seq<Seq<char>>, record: Seq<FieldModel>) -> Seq<Seq<char>>
    decreases record.len(),
{
    if record.len() == 0 {
        keys
    } else {
        with_key(with_keys_of(keys, record.drop_last()), record.last().key)
    }
}

/// The key universe of a record set: every key of every record, once, in
/// the order in which the keys are first seen.
pub open spec fn key_universe(records: Seq<Seq<FieldModel>>) -> Seq<Seq<char>>
    decreases records.len(),
{
    if records.len() == 0 {
        Seq::empty()
    } else {
        with_keys_of(key_universe(records.drop_last()), records.last())
    }
}

/// No text occurs twice.
pub open spec fn no_repeats(keys: Seq<Seq<char>>) -> bool {
    forall|i: int, j: int| 0 <= i < j < keys.len() ==> keys[i] != keys[j]
}

/// The key is the key of some field of some record.
pub open spec fn occurs_in(records: Seq<Seq<FieldModel>>, key: Seq<char>) -> bool {
    exists|i: int, j: int|
        0 <= i < records.len() && 0 <= j < records[i].len() && (#[trigger] records[i][j]).key
            == key
}

/// Adding a record's keys keeps what was there, adds every key of the
/// record and nothing else, and repeats nothing.
pub proof fn lemma_with_keys_of(keys: Seq<Seq<char>>, record: Seq<FieldModel>)
    requires
        no_repeats(keys),
    ensures
        no_repeats(with_keys_of(keys, record)),
        forall|k: Seq<char>| keys.contains(k) ==> with_keys_of(keys, record).contains(k),
        forall|j: int|
            0 <= j < record.len() ==> with_keys_of(keys, record).contains(
                (#[trigger] record[j]).key,
            ),
        forall|k: Seq<char>|
            with_keys_of(keys, record).contains(k) ==> keys.contains(k) || exists|j: int|
                0 <= j < record.len() && (#[trigger] record[j]).key == k,
    decreases record.len(),
{
    if record.len() > 0 {
        let before = with_keys_of(keys, record.drop_last());
        let key = record.last().key;
        let after = with_keys_of(keys, record);
        lemma_with_keys_of(keys, record.drop_last());
        assert forall|k: Seq<char>| before.contains(k) implies after.contains(k) by {
            let at = choose|at: int| 0 <= at < before.len() && before[at] == k;
            assert(after[at] == k);
        }
        assert(after.contains(key)) by {
            if before.contains(key) {
            } else {
                assert(after[before.len() as int] == key);
            }
        }
        assert forall|j: int| 0 <= j < record.len() implies after.contains(
            (#[trigger] record[j]).key,
        ) by {
            if j < record.len() - 1 {
                assert(record.drop_last()[j] == record[j]);
            }
        }
        assert forall|k: Seq<char>| after.contains(k) implies keys.contains(k) || exists|j: int|
            0 <= j < record.len() && (#[trigger] record[j]).key == k by {
            let at = choose|at: int| 0 <= at < after.len() && after[at] == k;
            if at < before.len() {
                assert(before.contains(k));
                if !keys.contains(k) {
                    let j = choose|j: int|
                        0 <= j < record.drop_last().len() && (#[trigger] record.drop_last()[j]).key
                            == k;
                    assert(record[j].key == k);
                }
            } else {
                assert(record[record.len() - 1].key == k);
            }
        }
    }
}

/// The key universe holds every key of every record, each once, and
/// nothing else.
pub proof fn lemma_key_universe(records: Seq<Seq<FieldModel>>)
    ensures
        no_repeats(key_universe(records)),
        forall|i: int, j: int|
            0 <= i < records.len() && 0 <= j < records[i].len() ==> key_universe(
                records,
            ).contains((#[trigger] records[i][j]).key),
        forall|k: Seq<char>| key_universe(records).contains(k) ==> occurs_in(records, k),
    decreases records.len(),
{
    if records.len() > 0 {
        let earlier = records.drop_last();
        let before = key_universe(earlier);
        let last = records.last();
        let all = key_universe(records);
        lemma_key_universe(earlier);
        lemma_with_keys_of(before, last);
        assert forall|i: int, j: int|
            0 <= i < records.len() && 0 <= j < records[i].len() implies all.contains(
            (#[trigger] records[i][j]).key,
        ) by {
            if i < records.len() - 1 {
                assert(earlier[i] == records[i]);
                assert(before.contains(earlier[i][j].key));
            } else {
                assert(all.contains(last[j].key));
            }
        }
        assert forall|k: Seq<char>| all.contains(k) implies occurs_in(records, k) by {
            if before.contains(k) {
                assert(occurs_in(earlier, k));
                let (i, j) = choose|i: int, j: int|
                    0 <= i < earlier.len() && 0 <= j < earlier[i].len() && (
                    #[trigger] earlier[i][j]).key == k;
                assert(records[i][j].key == k);
            } else {
                let j = choose|j: int| 0 <= j < last.len() && (#[trigger] last[j]).key == k;
                assert(records[records.len() - 1][j].key == k);
            }
        }
    }
}

/// Finds a text among strings: the least position that holds it.
pub fn find_text(strings: &Vec<String>, wanted: &String) -> (found: Option<usize>)
    ensures
        match found {
            Some(at) => at < strings@.len() && strings@[at as int]@ == wanted@ && forall|i: int|
                0 <= i < at ==> strings@[i]@ != wanted@,
            None => !texts(strings@).contains(wanted@),
        },
{
    let mut i: usize = 0;
    while i < strings.len()
        invariant
            i <= strings@.len(),
            forall|k: int| 0 <= k < i ==> strings@[k]@ != wanted@,
        decreases strings@.len() - i,
    {
        if strings[i] == *wanted {
            return Some(i);
        }
        i += 1;
    }
    proof {
        let all = texts(strings@);
        if all.contains(wanted@) {
            let k = choose|k: int| 0 <= k < all.len() && all[k] == wanted@;
            assert(strings@[k]@ == wanted@);
        }
    }
    None
}

/// Tells whether a text is among strings.
pub fn has_text(strings: &Vec<String>, wanted: &String) -> (found: bool)
    ensures
        found == texts(strings@).contains(wanted@),
{
    match find_text(strings, wanted) {
        Some(at) => {
            proof {
                assert(texts(strings@)[at as int] == wanted@);
            }
            true
        },
        None => false,
    }
}

impl Record {
    /// A record without fields.
    pub fn new() -> (record: Record)
        ensures
            record@ == Seq::<FieldModel>::empty(),
    {
        let record = Record { fields: Vec::new() };
        proof {
            assert(record@ =~= Seq::<FieldModel>::empty());
        }
        record
    }

    /// The position of the first field with the given key.
    pub fn position(&self, key: &String) -> (found: Option<usize>)
        ensures
            match found {
                Some(at) => at == position_of(self@, key@) && at < self@.len(),
                None => position_of(self@, key@) == self@.len(),
            },
    {
        let mut i: usize = 0;
        proof {
            assert(self@.skip(0) =~= self@);
        }
        while i < self.fields.len()
            invariant
                i <= self@.len(),
                self@.len() == self.fields@.len(),
                position_of(self@, key@) == i + position_of(self@.skip(i as int), key@),
            decreases self@.len() - i,
        {
            proof {
                assert(self@.skip(i as int).first() == self.fields@[i as int]@);
                assert(self@.skip(i as int).drop_first() =~= self@.skip(i + 1));
            }
            if self.fields[i].key == *key {
                return Some(i);
            }
            i += 1;
        }
        proof {
            assert(self@.skip(i as int).len() == 0);
        }
        None
    }

    /// The value that the record maps the key to.
    pub fn get(&self, key: &String) -> (value: Option<&FieldValue>)
        ensures
            match value {
                Some(v) => value_of(self@, key@) == Some(v@),
                None => value_of(self@, key@) is None,
            },
    {
        match self.position(key) {
            Some(at) => Some(&self.fields[at].value),
            None => None,
        }
    }

    /// Maps the key to the value: in place where the record has the key,
    /// as a new last field where it has not.
    pub fn insert(&mut self, key: String, value: FieldValue)
        ensures
            position_of(old(self)@, key@) < old(self)@.len() ==> final(self)@ == old(self)@.update(
                position_of(old(self)@, key@),
                FieldModel { key: key@, value: value@ },
            ),
            position_of(old(self)@, key@) >= old(self)@.len() ==> final(self)@ == old(self)@.push(
                FieldModel { key: key@, value: value@ },
            ),
            distinct_keys(old(self)@) ==> distinct_keys(final(self)@),
    {
        let ghost before = self@;
        let ghost entry = FieldModel { key: key@, value: value@ };
        proof {
            lemma_position_of(before, key@);
        }
        match self.position(&key) {
            Some(at) => {
                self.fields[at] = Field { key, value };
                proof {
                    assert(self@ =~= before.update(at as int, entry));
                    if distinct_keys(before) {
                        assert forall|i: int, j: int| 0 <= i < j < self@.len() implies self@[i].key
                            != self@[j].key by {
                            assert(before[i].key != before[j].key);
                        }
                    }
                }
            },
            None => {
                self.fields.push(Field { key, value });
                proof {
                    assert(self@ =~= before.push(entry));
                    if distinct_keys(before) {
                        assert forall|i: int, j: int| 0 <= i < j < self@.len() implies self@[i].key
                            != self@[j].key by {
                            if j < before.len() {
                                assert(before[i].key != before[j].key);
                            }
                        }
                    }
                }
            },
        }
    }
}

/// Collects the key universe of a record set.
pub fn collect_keys(records: &Vec<Record>) -> (keys: Vec<String>)
    ensures
        texts(keys@) == key_universe(records_view(records@)),
{
    let ghost all = records_view(records@);
    let mut keys: Vec<String> = Vec::new();
    let mut i: usize = 0;
    proof {
        assert(texts(keys@) =~= Seq::<Seq<char>>::empty());
        assert(all.take(0) =~= Seq::<Seq<FieldModel>>::empty());
    }
    while i < records.len()
        invariant
            i <= records@.len(),
            all == records_view(records@),
            texts(keys@) == key_universe(all.take(i as int)),
        decreases records@.len() - i,
    {
        let record = &records[i];
        let ghost base = texts(keys@);
        let mut j: usize = 0;
        proof {
            assert(record@.take(0) =~= Seq::<FieldModel>::empty());
        }
        while j < record.fields.len()
            invariant
                j <= record@.len(),
                record@.len() == record.fields@.len(),
                texts(keys@) == with_keys_of(base, record@.take(j as int)),
            decreases record@.len() - j,
        {
            let key = &record.fields[j].key;
            let ghost before = texts(keys@);
            proof {
                let upto = record@.take(j + 1);
                assert(upto.drop_last() =~= record@.take(j as int));
                assert(upto.last().key == key@);
            }
            if !has_text(&keys, key) {
                keys.push(key.clone());
                proof {
                    assert(texts(keys@) =~= before.push(key@));
                }
            }
            j += 1;
        }
        proof {
            assert(record@.take(j as int) =~= record@);
            let upto = all.take(i + 1);
            assert(upto.drop_last() =~= all.take(i as int));
            assert(upto.last() == record@);
        }
        i += 1;
    }
    proof {
        assert(all.take(i as int) =~= all);
    }
    keys
}

} // verus!
