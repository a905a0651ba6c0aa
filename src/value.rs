//! Structured placeholder data and its flattening into flat key/value records.
use vstd::prelude::*;
use vstd::string::StringExecFns;

verus! {

/// A JSON-like value handed to the engine as placeholder data.
#[derive(Debug, PartialEq)]
pub enum JsonValue {
    Null,
    Bool(bool),
    /// A number: its JSON text, and the text that a table cell shows for it.
    Number { json: String, shown: String },
    Str(String),
    /// The elements, and the array's JSON text.
    Array(Vec<JsonValue>, String),
    /// The fields of an object, in order (keys are distinct), and the object's JSON
    /// text.
    Object(Vec<(String, JsonValue)>, String),
}

/// What a [`JsonValue`] holds, as a mathematical value.
pub enum JsonView {
    Null,
    Bool(bool),
    Number { json: Seq<char>, shown: Seq<char> },
    Str(Seq<char>),
    Array(Seq<JsonView>, Seq<char>),
    Object(Seq<(Seq<char>, JsonView)>, Seq<char>),
}

/// A flat record: keys paired with the values they map to, each key once.
pub type RecordView = Seq<(Seq<char>, JsonView)>;

/// A flat record as the engine holds it.
pub type Record = Vec<(String, JsonValue)>;

/// The mathematical value of a [`JsonValue`].
pub open spec fn json_view(v: JsonValue) -> JsonView
    decreases v,
{
    match v {
        JsonValue::Null => JsonView::Null,
        JsonValue::Bool(b) => JsonView::Bool(b),
        JsonValue::Number { json, shown } => JsonView::Number { json: json@, shown: shown@ },
        JsonValue::Str(s) => JsonView::Str(s@),
        JsonValue::Array(a, t) => JsonView::Array(
            Seq::new(
                a.len() as nat,
                |i: int|
                    if 0 <= i < a.len() {
                        json_view(a[i])
                    } else {
                        JsonView::Null
                    },
            ),
            t@,
        ),
        JsonValue::Object(f, t) => JsonView::Object(
            Seq::new(
                f.len() as nat,
                |i: int|
                    if 0 <= i < f.len() {
                        (f[i].0@, json_view(f[i].1))
                    } else {
                        (Seq::empty(), JsonView::Null)
                    },
            ),
            t@,
        ),
    }
}

impl View for JsonValue {
    type V = JsonView;

    open spec fn view(&self) -> JsonView {
        json_view(*self)
    }
}

/// The view of a record.
pub open spec fn record_view(r: Seq<(String, JsonValue)>) -> RecordView {
    Seq::new(r.len(), |i: int| (r[i].0@, r[i].1@))
}

/// The views of a sequence of records.
pub open spec fn records_view(rs: Seq<Record>) -> Seq<RecordView> {
    Seq::new(rs.len(), |i: int| record_view(rs[i]@))
}

/// Position of `k` in `rec`, or -1.
pub open spec fn key_index(rec: RecordView, k: Seq<char>) -> int
    decreases rec.len(),
{
    if rec.len() == 0 {
        -1
    } else if rec.last().0 == k {
        rec.len() - 1
    } else {
        key_index(rec.drop_last(), k)
    }
}

/// The position of a key is -1 or an index holding that key, and -1 only where no
/// entry holds it.
pub proof fn lemma_key_index_range(rec: RecordView, k: Seq<char>)
    ensures
        -1 <= key_index(rec, k) < rec.len(),
        key_index(rec, k) >= 0 ==> rec[key_index(rec, k)].0 == k,
        key_index(rec, k) == -1 ==> forall|j: int| 0 <= j < rec.len() ==> rec[j].0 != k,
    decreases rec.len(),
{
    if rec.len() > 0 {
        lemma_key_index_range(rec.drop_last(), k);
        assert forall|j: int| 0 <= j < rec.len() - 1 implies rec[j] == rec.drop_last()[j] by {}
    }
}

/// `rec` with `k` mapped to `v`: the entry of `k` is replaced where there is one, else
/// a new entry goes at the end.
pub open spec fn rec_insert(rec: RecordView, k: Seq<char>, v: JsonView) -> RecordView {
    let i = key_index(rec, k);
    if i >= 0 {
        rec.update(i, (k, v))
    } else {
        rec.push((k, v))
    }
}

/// The value of `k` in `rec`, if any.
pub open spec fn rec_get(rec: RecordView, k: Seq<char>) -> Option<JsonView> {
    let i = key_index(rec, k);
    if i >= 0 {
        Some(rec[i].1)
    } else {
        None
    }
}

/// No key occurs twice in `rec`.
pub open spec fn keys_distinct(rec: RecordView) -> bool {
    forall|i: int, j: int| 0 <= i < j < rec.len() ==> #[trigger] rec[i].0 != #[trigger] rec[j].0
}

/// Every record of `rs` has distinct keys.
pub open spec fn all_keys_distinct(rs: Seq<RecordView>) -> bool {
    forall|i: int| 0 <= i < rs.len() ==> keys_distinct(#[trigger] rs[i])
}

/// Inserting keeps keys distinct.
pub proof fn lemma_rec_insert_distinct(rec: RecordView, k: Seq<char>, v: JsonView)
    requires
        keys_distinct(rec),
    ensures
        keys_distinct(rec_insert(rec, k, v)),
{
    lemma_key_index_range(rec, k);
    let r = rec_insert(rec, k, v);
    assert forall|i: int, j: int| 0 <= i < j < r.len() implies #[trigger] r[i].0 != #[trigger] r[j].0 by {
        if key_index(rec, k) < 0 && j == rec.len() {
            assert(rec[i].0 != k);
        }
    }
}

/// Merging keeps keys distinct.
pub proof fn lemma_merge_prefixed_distinct(rec: RecordView, prefix: Seq<char>, sub: RecordView)
    requires
        keys_distinct(rec),
    ensures
        keys_distinct(merge_prefixed(rec, prefix, sub)),
    decreases sub.len(),
{
    if sub.len() > 0 {
        lemma_merge_prefixed_distinct(rec, prefix, sub.drop_last());
        lemma_rec_insert_distinct(
            merge_prefixed(rec, prefix, sub.drop_last()),
            prefixed_key(prefix, sub.last().0),
            sub.last().1,
        );
    }
}

/// `{prefix}.{k}`
pub open spec fn prefixed_key(prefix: Seq<char>, k: Seq<char>) -> Seq<char> {
    prefix + seq!['.'] + k
}

/// `rec` with each entry of `sub` inserted in order, under its key prefixed by `prefix`.
pub open spec fn merge_prefixed(rec: RecordView, prefix: Seq<char>, sub: RecordView) -> RecordView
    decreases sub.len(),
{
    if sub.len() == 0 {
        rec
    } else {
        rec_insert(
            merge_prefixed(rec, prefix, sub.drop_last()),
            prefixed_key(prefix, sub.last().0),
            sub.last().1,
        )
    }
}

/// The records that a value flattens to. A value that is no object gives one empty
/// record. An object's fields are taken in order, starting from one empty record: a
/// non-empty array replaces each record by one copy per record of each element's
/// flattening, with that record's keys prefixed by the field's key; an object does the
/// same with its own flattening; any other value (an empty array too) is inserted
/// into every record.
pub open spec fn flatten(v: JsonView) -> Seq<RecordView>
    decreases v, 0nat, 0nat,
{
    match v {
        JsonView::Object(fields, _) => flatten_fields(fields, fields.len()),
        _ => seq![Seq::empty()],
    }
}

/// The records after the first `n` fields.
pub open spec fn flatten_fields(fields: Seq<(Seq<char>, JsonView)>, n: nat) -> Seq<RecordView>
    decreases fields, n, 0nat,
{
    if n == 0 || n > fields.len() {
        seq![Seq::empty()]
    } else {
        expand_all(flatten_fields(fields, (n - 1) as nat), fields[n - 1].0, fields[n - 1].1)
    }
}

/// Each record of `recs` expanded by the field `key: val`, in order.
pub open spec fn expand_all(recs: Seq<RecordView>, key: Seq<char>, val: JsonView) -> Seq<
    RecordView,
>
    decreases val, 2nat, recs.len(),
{
    if recs.len() == 0 {
        Seq::empty()
    } else {
        expand_all(recs.drop_last(), key, val) + expand_one(recs.last(), key, val)
    }
}

/// The records that one record becomes under the field `key: val`.
pub open spec fn expand_one(rec: RecordView, key: Seq<char>, val: JsonView) -> Seq<RecordView>
    decreases val, 1nat, 0nat,
{
    match val {
        JsonView::Array(items, _) => if items.len() > 0 {
            expand_items(rec, key, items, items.len())
        } else {
            seq![rec_insert(rec, key, val)]
        },
        JsonView::Object(..) => merge_each(rec, key, flatten(val)),
        _ => seq![rec_insert(rec, key, val)],
    }
}

/// The records that one record becomes under the first `m` elements of an array field.
pub open spec fn expand_items(rec: RecordView, key: Seq<char>, items: Seq<JsonView>, m: nat) -> Seq<
    RecordView,
>
    decreases items, m, 0nat,
{
    if m == 0 || m > items.len() {
        Seq::empty()
    } else {
        expand_items(rec, key, items, (m - 1) as nat) + merge_each(rec, key, flatten(items[m - 1]))
    }
}

/// One copy of `rec` per record of `subs`, merged with it under `key`.
pub open spec fn merge_each(rec: RecordView, key: Seq<char>, subs: Seq<RecordView>) -> Seq<
    RecordView,
> {
    Seq::new(subs.len(), |i: int| merge_prefixed(rec, key, subs[i]))
}

impl JsonValue {
    /// A copy of this value.
    pub fn deep_copy(&self) -> (r: JsonValue)
        ensures
            r@ == self@,
        decreases self,
    {
        match self {
            JsonValue::Null => JsonValue::Null,
            JsonValue::Bool(b) => JsonValue::Bool(*b),
            JsonValue::Number { json, shown } => JsonValue::Number {
                json: json.clone(),
                shown: shown.clone(),
            },
            JsonValue::Str(t) => JsonValue::Str(t.clone()),
            JsonValue::Array(a, t) => {
                let mut out: Vec<JsonValue> = Vec::new();
                let mut i: usize = 0;
                while i < a.len()
                    invariant
                        *self == JsonValue::Array(*a, *t),
                        i <= a.len(),
                        out@.len() == i,
                        forall|j: int| 0 <= j < i ==> out@[j]@ == a@[j]@,
                    decreases a.len() - i,
                {
                    proof {
                        assert(decreases_to!(*self => (*self)->Array_0));
                        assert(decreases_to!(*a => a[i as int]));
                    }
                    out.push(a[i].deep_copy());
                    i = i + 1;
                }
                let r = JsonValue::Array(out, t.clone());
                assert(r@ == self@) by {
                    if let JsonView::Array(x, _) = r@ {
                        if let JsonView::Array(y, _) = self@ {
                            assert(x =~= y);
                        }
                    }
                }
                r
            },
            JsonValue::Object(f, t) => {
                let out = copy_record(f);
                let r = JsonValue::Object(out, t.clone());
                assert(r@ == self@) by {
                    if let JsonView::Object(x, _) = r@ {
                        if let JsonView::Object(y, _) = self@ {
                            assert(x =~= record_view(out@));
                            assert(y =~= record_view(f@));
                        }
                    }
                }
                r
            },
        }
    }
}

/// A copy of a record.
pub fn copy_record(rec: &Record) -> (r: Record)
    ensures
        record_view(r@) == record_view(rec@),
    decreases rec,
{
    let mut out: Record = Vec::new();
    let mut i: usize = 0;
    while i < rec.len()
        invariant
            i <= rec.len(),
            out@.len() == i,
            forall|j: int| 0 <= j < i ==> out@[j].0@ == rec@[j].0@ && out@[j].1@ == rec@[j].1@,
        decreases rec.len() - i,
    {
        proof {
            assert(decreases_to!(*rec => rec[i as int]));
            assert(decreases_to!(rec[i as int] => rec[i as int].1));
        }
        let v = rec[i].1.deep_copy();
        out.push((rec[i].0.clone(), v));
        i = i + 1;
    }
    assert(record_view(out@) =~= record_view(rec@));
    out
}

/// Position of the entry of `k` in `rec`.
pub fn find_key(rec: &Record, k: &String) -> (r: Option<usize>)
    ensures
        match r {
            Some(i) => i as int == key_index(record_view(rec@), k@),
            None => key_index(record_view(rec@), k@) == -1,
        },
{
    let mut i: usize = rec.len();
    assert(record_view(rec@).take(i as int) =~= record_view(rec@));
    while i > 0
        invariant
            i <= rec.len(),
            key_index(record_view(rec@), k@) == key_index(record_view(rec@).take(i as int), k@),
        decreases i,
    {
        let ghost t = record_view(rec@).take(i as int);
        assert(t.drop_last() =~= record_view(rec@).take(i - 1));
        if rec[i - 1].0 == *k {
            return Some(i - 1);
        }
        i = i - 1;
    }
    None
}

/// Maps `k` to `v` in `rec`, replacing the entry of `k` where there is one.
pub fn record_insert(rec: &mut Record, k: String, v: JsonValue)
    ensures
        record_view(final(rec)@) == rec_insert(record_view(old(rec)@), k@, v@),
        keys_distinct(record_view(old(rec)@)) ==> keys_distinct(record_view(final(rec)@)),
{
    proof {
        lemma_key_index_range(record_view(rec@), k@);
        if keys_distinct(record_view(rec@)) {
            lemma_rec_insert_distinct(record_view(rec@), k@, v@);
        }
    }
    match find_key(rec, &k) {
        Some(i) => {
            rec.set(i, (k, v));
        },
        None => {
            rec.push((k, v));
        },
    }
    assert(record_view(final(rec)@) =~= rec_insert(record_view(old(rec)@), k@, v@));
}

/// `{prefix}.{k}`
fn prefixed(prefix: &str, k: &String) -> (r: String)
    ensures
        r@ == prefixed_key(prefix@, k@),
{
    let mut key = String::from_str(prefix);
    key.append(".");
    key.append(k.as_str());
    proof {
        reveal_strlit(".");
    }
    assert(key@ =~= prefixed_key(prefix@, k@));
    key
}

/// Moves every entry of `other` into `base`, in order, each under its key prefixed by
/// `{prefix}.`; `other` is left empty.
pub fn merge_record_with_prefix(prefix: &str, base: &mut Record, other: &mut Record)
    ensures
        record_view(final(base)@) == merge_prefixed(
            record_view(old(base)@),
            prefix@,
            record_view(old(other)@),
        ),
        final(other)@.len() == 0,
        keys_distinct(record_view(old(base)@)) ==> keys_distinct(record_view(final(base)@)),
{
    proof {
        if keys_distinct(record_view(base@)) {
            lemma_merge_prefixed_distinct(record_view(base@), prefix@, record_view(other@));
        }
    }
    let ghost base0 = record_view(base@);
    let ghost sub = record_view(other@);
    let entries = other.split_off(0);
    let mut i: usize = 0;
    while i < entries.len()
        invariant
            i <= entries.len(),
            sub == record_view(entries@),
            other@.len() == 0,
            record_view(base@) == merge_prefixed(base0, prefix@, sub.take(i as int)),
        decreases entries.len() - i,
    {
        assert(sub.take(i + 1).drop_last() =~= sub.take(i as int));
        let key = prefixed(prefix, &entries[i].0);
        let v = entries[i].1.deep_copy();
        record_insert(base, key, v);
        i = i + 1;
    }
    assert(sub.take(i as int) =~= sub);
}

/// Appends one copy of `rec` per record of `subs`, merged with it under `key`.
fn push_merged(out: &mut Vec<Record>, rec: &Record, key: &String, subs: Vec<Record>)
    ensures
        keys_distinct(record_view(rec@)) && all_keys_distinct(records_view(old(out)@))
            ==> all_keys_distinct(records_view(final(out)@)),
        records_view(final(out)@) == records_view(old(out)@) + merge_each(
            record_view(rec@),
            key@,
            records_view(subs@),
        ),
{
    let ghost out0 = records_view(out@);
    let ghost sv = records_view(subs@);
    let mut i: usize = 0;
    while i < subs.len()
        invariant
            i <= subs.len(),
            sv == records_view(subs@),
            records_view(out@) == out0 + merge_each(record_view(rec@), key@, sv.take(i as int)),
            keys_distinct(record_view(rec@)) && all_keys_distinct(out0) ==> all_keys_distinct(
                records_view(out@),
            ),
        decreases subs.len() - i,
    {
        let mut c = copy_record(rec);
        let mut sub = copy_record(&subs[i]);
        merge_record_with_prefix(key.as_str(), &mut c, &mut sub);
        proof {
            if keys_distinct(record_view(rec@)) {
                lemma_merge_prefixed_distinct(record_view(rec@), key@, sv[i as int]);
            }
        }
        let ghost before = records_view(out@);
        out.push(c);
        assert(records_view(out@) =~= before.push(record_view(c@)));
        assert(merge_each(record_view(rec@), key@, sv.take(i + 1)) =~= merge_each(
            record_view(rec@),
            key@,
            sv.take(i as int),
        ).push(merge_prefixed(record_view(rec@), key@, sv[i as int])));
        i = i + 1;
    }
    assert(sv.take(i as int) =~= sv);
}

/// Appends the records that `rec` becomes under the field `key: val`.
fn expand_into(out: &mut Vec<Record>, rec: &Record, key: &String, val: &JsonValue)
    ensures
        keys_distinct(record_view(rec@)) && all_keys_distinct(records_view(old(out)@))
            ==> all_keys_distinct(records_view(final(out)@)),
        records_view(final(out)@) == records_view(old(out)@) + expand_one(
            record_view(rec@),
            key@,
            val@,
        ),
    decreases val, 2nat,
{
    let ghost out0 = records_view(out@);
    match val {
        JsonValue::Array(items, t) => {
            if items.len() == 0 {
                let mut c = copy_record(rec);
                let v = val.deep_copy();
                proof {
                    if keys_distinct(record_view(rec@)) {
                        lemma_rec_insert_distinct(record_view(c@), key@, v@);
                    }
                }
                record_insert(&mut c, key.clone(), v);
                out.push(c);
                assert(records_view(out@) =~= out0 + expand_one(record_view(rec@), key@, val@));
                return ;
            }
            let ghost iv = val@->Array_0;
            assert(iv.len() == items.len());
            let mut m: usize = 0;
            while m < items.len()
                invariant
                    *val == JsonValue::Array(*items, *t),
                    iv == val@->Array_0,
                    iv.len() == items.len(),
                    m <= items.len(),
                    keys_distinct(record_view(rec@)) && all_keys_distinct(out0) ==> all_keys_distinct(
                        records_view(out@),
                    ),
                    records_view(out@) == out0 + expand_items(
                        record_view(rec@),
                        key@,
                        iv,
                        m as nat,
                    ),
                decreases items.len() - m,
            {
                proof {
                    assert(decreases_to!(*val => (*val)->Array_0));
                    assert(decreases_to!((*val)->Array_0 => (*val)->Array_0[m as int]));
                    assert(iv[m as int] == items@[m as int]@);
                }
                let subs = flatten_json(&items[m]);
                push_merged(out, rec, key, subs);
                assert(records_view(out@) =~= out0 + expand_items(
                    record_view(rec@),
                    key@,
                    iv,
                    (m + 1) as nat,
                ));
                m = m + 1;
            }
        },
        JsonValue::Object(..) => {
            let subs = flatten_json(val);
            push_merged(out, rec, key, subs);
        },
        _ => {
            let mut c = copy_record(rec);
            let v = val.deep_copy();
            proof {
                if keys_distinct(record_view(rec@)) {
                    lemma_rec_insert_distinct(record_view(c@), key@, v@);
                }
            }
            record_insert(&mut c, key.clone(), v);
            out.push(c);
            assert(records_view(out@) =~= out0 + expand_one(record_view(rec@), key@, val@));
        },
    }
}

fn one_empty_record() -> (r: Vec<Record>)
    ensures
        records_view(r@) == seq![Seq::<(Seq<char>, JsonView)>::empty()],
{
    let mut records: Vec<Record> = Vec::new();
    let e: Record = Vec::new();
    assert(record_view(e@) =~= Seq::<(Seq<char>, JsonView)>::empty());
    records.push(e);
    assert(records_view(records@) =~= seq![Seq::<(Seq<char>, JsonView)>::empty()]);
    records
}

/// Flattens `value` into flat records, as [`flatten`] states: nested objects and arrays
/// become keys joined by `.`, and each array element gives records of its own.
pub fn flatten_json(value: &JsonValue) -> (r: Vec<Record>)
    ensures
        all_keys_distinct(records_view(r@)),
        records_view(r@) == flatten(value@),
    decreases value, 1nat,
{
    match value {
        JsonValue::Object(fields, t) => {
            let ghost fv = value@->Object_0;
            assert(fv =~= record_view(fields@));
            let mut records = one_empty_record();
            let mut n: usize = 0;
            while n < fields.len()
                invariant
                    *value == JsonValue::Object(*fields, *t),
                    fv == value@->Object_0,
                    fv == record_view(fields@),
                    n <= fields.len(),
                    records_view(records@) == flatten_fields(fv, n as nat),
                    all_keys_distinct(records_view(records@)),
                decreases fields.len() - n,
            {
                let ghost rv = records_view(records@);
                let mut next: Vec<Record> = Vec::new();
                let mut r: usize = 0;
                assert(records_view(next@) =~= expand_all(rv.take(0), fv[n as int].0, fv[n as int].1));
                while r < records.len()
                    invariant
                        *value == JsonValue::Object(*fields, *t),
                        fv == value@->Object_0,
                        fv == record_view(fields@),
                        n < fields.len(),
                        rv == records_view(records@),
                        r <= records.len(),
                        all_keys_distinct(rv),
                        all_keys_distinct(records_view(next@)),
                        records_view(next@) == expand_all(
                            rv.take(r as int),
                            fv[n as int].0,
                            fv[n as int].1,
                        ),
                    decreases records.len() - r,
                {
                    proof {
                        assert(decreases_to!(*value => (*value)->Object_0));
                        assert(decreases_to!((*value)->Object_0 => (*value)->Object_0[n as int]));
                        assert(decreases_to!((*value)->Object_0[n as int] => (*value)->Object_0[n as int].1));
                        assert(rv.take(r + 1).drop_last() =~= rv.take(r as int));
                    }
                    assert(rv[r as int] == record_view(records@[r as int]@));
                    expand_into(&mut next, &records[r], &fields[n].0, &fields[n].1);
                    r = r + 1;
                }
                assert(rv.take(r as int) =~= rv);
                records = next;
                n = n + 1;
            }
            records
        },
        _ => {
            one_empty_record()
        },
    }
}

/// The value that `k` maps to in `rec`, if any.
pub fn record_get<'a>(rec: &'a Record, k: &str) -> (r: Option<&'a JsonValue>)
    ensures
        match r {
            Some(v) => rec_get(record_view(rec@), k@) == Some(v@),
            None => rec_get(record_view(rec@), k@) is None,
        },
{
    let key = String::from_str(k);
    proof {
        lemma_key_index_range(record_view(rec@), k@);
    }
    match find_key(rec, &key) {
        Some(i) => Some(&rec[i].1),
        None => None,
    }
}

} // verus!
