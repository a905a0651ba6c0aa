//! What flattening guarantees for a few common shapes of data.
use vstd::prelude::*;
use crate::value::{
    JsonView, RecordView, expand_all, expand_items, expand_one, flatten, flatten_fields, key_index,
    lemma_key_index_range, merge_each, merge_prefixed, prefixed_key, rec_get, rec_insert,
};

verus! {

/// A value that is inserted as it is: neither an array nor an object.
pub open spec fn is_scalar(v: JsonView) -> bool {
    !(v is Array) && !(v is Object)
}

/// An object's fields all hold scalars, under distinct keys.
pub open spec fn scalar_fields(fields: Seq<(Seq<char>, JsonView)>) -> bool {
    &&& forall|i: int| 0 <= i < fields.len() ==> is_scalar(#[trigger] fields[i].1)
    &&& forall|i: int, j: int|
        0 <= i < j < fields.len() ==> #[trigger] fields[i].0 != #[trigger] fields[j].0
}

/// `rec` with the fields inserted in order.
pub open spec fn insert_all(rec: RecordView, fs: Seq<(Seq<char>, JsonView)>) -> RecordView
    decreases fs.len(),
{
    if fs.len() == 0 {
        rec
    } else {
        rec_insert(insert_all(rec, fs.drop_last()), fs.last().0, fs.last().1)
    }
}

proof fn lemma_key_absent(rec: RecordView, k: Seq<char>)
    requires
        forall|j: int| 0 <= j < rec.len() ==> rec[j].0 != k,
    ensures
        key_index(rec, k) == -1,
    decreases rec.len(),
{
    if rec.len() > 0 {
        lemma_key_absent(rec.drop_last(), k);
    }
}

proof fn lemma_expand_all_scalar(recs: Seq<RecordView>, k: Seq<char>, v: JsonView)
    requires
        is_scalar(v),
    ensures
        expand_all(recs, k, v) == Seq::new(recs.len(), |i: int| rec_insert(recs[i], k, v)),
    decreases recs.len(),
{
    if recs.len() > 0 {
        lemma_expand_all_scalar(recs.drop_last(), k, v);
        assert(expand_one(recs.last(), k, v) == seq![rec_insert(recs.last(), k, v)]);
        assert(expand_all(recs, k, v) == expand_all(recs.drop_last(), k, v) + expand_one(
            recs.last(),
            k,
            v,
        ));
        assert(expand_all(recs, k, v) =~= Seq::new(recs.len(), |i: int| rec_insert(recs[i], k, v)));
    } else {
        assert(expand_all(recs, k, v) =~= Seq::new(recs.len(), |i: int| rec_insert(recs[i], k, v)));
    }
}

proof fn lemma_scalar_prefix(fields: Seq<(Seq<char>, JsonView)>, n: nat)
    requires
        n <= fields.len(),
        forall|i: int| 0 <= i < n ==> is_scalar(#[trigger] fields[i].1),
    ensures
        flatten_fields(fields, n) == seq![insert_all(Seq::empty(), fields.take(n as int))],
    decreases n,
{
    if n == 0 {
        assert(fields.take(0) =~= Seq::<(Seq<char>, JsonView)>::empty());
    } else {
        lemma_scalar_prefix(fields, (n - 1) as nat);
        let prev = flatten_fields(fields, (n - 1) as nat);
        lemma_expand_all_scalar(prev, fields[n - 1].0, fields[n - 1].1);
        assert(fields.take(n as int).drop_last() =~= fields.take(n - 1));
        assert(flatten_fields(fields, n) =~= seq![insert_all(Seq::empty(), fields.take(n as int))]);
    }
}

proof fn lemma_insert_all_distinct(fs: Seq<(Seq<char>, JsonView)>)
    requires
        forall|i: int, j: int| 0 <= i < j < fs.len() ==> #[trigger] fs[i].0 != #[trigger] fs[j].0,
    ensures
        insert_all(Seq::empty(), fs) == fs,
    decreases fs.len(),
{
    if fs.len() > 0 {
        let init = fs.drop_last();
        lemma_insert_all_distinct(init);
        assert forall|j: int| 0 <= j < init.len() implies init[j].0 != fs.last().0 by {
            assert(fs[j].0 != fs[fs.len() - 1].0);
        }
        lemma_key_absent(init, fs.last().0);
        assert(init.push(fs.last()) =~= fs);
    }
}

/// An object whose fields all hold scalars, under distinct keys, flattens to one record
/// that maps each key to its value.
pub proof fn lemma_flatten_scalar_object(fields: Seq<(Seq<char>, JsonView)>, text: Seq<char>)
    requires
        scalar_fields(fields),
    ensures
        flatten(JsonView::Object(fields, text)) == seq![fields],
{
    lemma_scalar_prefix(fields, fields.len());
    assert(fields.take(fields.len() as int) =~= fields);
    lemma_insert_all_distinct(fields);
}

/// Each element's fields: the record it flattens to.
pub open spec fn element_fields(v: JsonView) -> Seq<(Seq<char>, JsonView)> {
    v->Object_0
}

proof fn lemma_expand_items_single(rec: RecordView, key: Seq<char>, items: Seq<JsonView>, m: nat)
    requires
        m <= items.len(),
        forall|j: int|
            0 <= j < items.len() ==> (#[trigger] items[j]) is Object && scalar_fields(
                items[j]->Object_0,
            ),
    ensures
        expand_items(rec, key, items, m) == Seq::new(
            m,
            |j: int| merge_prefixed(rec, key, element_fields(items[j])),
        ),
    decreases m,
{
    if m > 0 {
        lemma_expand_items_single(rec, key, items, (m - 1) as nat);
        let e = items[m - 1];
        lemma_flatten_scalar_object(e->Object_0, e->Object_1);
        assert(e == JsonView::Object(e->Object_0, e->Object_1));
        assert(merge_each(rec, key, flatten(e)) =~= seq![merge_prefixed(rec, key, element_fields(e))]);
    }
    assert(expand_items(rec, key, items, m) =~= Seq::new(
        m,
        |j: int| merge_prefixed(rec, key, element_fields(items[j])),
    ));
}

proof fn lemma_scalar_suffix(
    fields: Seq<(Seq<char>, JsonView)>,
    a: int,
    mids: Seq<RecordView>,
    n: nat,
)
    requires
        0 <= a < n <= fields.len(),
        forall|i: int| a < i < n ==> is_scalar(#[trigger] fields[i].1),
        flatten_fields(fields, (a + 1) as nat) == mids,
    ensures
        flatten_fields(fields, n) == Seq::new(
            mids.len(),
            |j: int| insert_all(mids[j], fields.subrange(a + 1, n as int)),
        ),
    decreases n,
{
    if n == a + 1 {
        assert forall|j: int| 0 <= j < mids.len() implies insert_all(
            mids[j],
            fields.subrange(a + 1, n as int),
        ) == mids[j] by {
            assert(fields.subrange(a + 1, n as int) =~= Seq::<(Seq<char>, JsonView)>::empty());
        }
        assert(flatten_fields(fields, n) =~= Seq::new(
            mids.len(),
            |j: int| insert_all(mids[j], fields.subrange(a + 1, n as int)),
        ));
    } else {
        lemma_scalar_suffix(fields, a, mids, (n - 1) as nat);
        let prev = flatten_fields(fields, (n - 1) as nat);
        lemma_expand_all_scalar(prev, fields[n - 1].0, fields[n - 1].1);
        assert forall|j: int| 0 <= j < mids.len() implies rec_insert(
            insert_all(mids[j], fields.subrange(a + 1, n - 1)),
            fields[n - 1].0,
            fields[n - 1].1,
        ) == insert_all(mids[j], fields.subrange(a + 1, n as int)) by {
            assert(fields.subrange(a + 1, n as int).drop_last() =~= fields.subrange(a + 1, n - 1));
        }
        assert(flatten_fields(fields, n) =~= Seq::new(
            mids.len(),
            |j: int| insert_all(mids[j], fields.subrange(a + 1, n as int)),
        ));
    }
}

/// An object with one non-empty array field, whose elements are objects of scalars
/// under distinct keys, and scalars in every other field flattens to one record per
/// element: the fields before the array, then the element's fields under keys
/// prefixed `{field}.`, then the fields after it. Only the element's part differs
/// between records.
pub proof fn lemma_flatten_one_array(fields: Seq<(Seq<char>, JsonView)>, text: Seq<char>, a: int)
    requires
        0 <= a < fields.len(),
        fields[a].1 is Array,
        fields[a].1->Array_0.len() > 0,
        forall|i: int| 0 <= i < fields.len() && i != a ==> is_scalar(#[trigger] fields[i].1),
        forall|j: int|
            0 <= j < fields[a].1->Array_0.len() ==> (#[trigger] fields[a].1->Array_0[j]) is Object
                && scalar_fields(fields[a].1->Array_0[j]->Object_0),
    ensures
        ({
            let items = fields[a].1->Array_0;
            let base = insert_all(Seq::empty(), fields.take(a));
            let r = flatten(JsonView::Object(fields, text));
            &&& r.len() == items.len()
            &&& forall|j: int|
                0 <= j < items.len() ==> #[trigger] r[j] == insert_all(
                    merge_prefixed(base, fields[a].0, element_fields(items[j])),
                    fields.skip(a + 1),
                )
        }),
{
    let items = fields[a].1->Array_0;
    let key = fields[a].0;
    let base = insert_all(Seq::empty(), fields.take(a));
    assert forall|i: int| 0 <= i < a implies is_scalar(#[trigger] fields[i].1) by {}
    lemma_scalar_prefix(fields, a as nat);
    lemma_expand_items_single(base, key, items, items.len());
    let mids = Seq::new(items.len(), |j: int| merge_prefixed(base, key, element_fields(items[j])));
    let one = seq![base];
    assert(one.drop_last() =~= Seq::<RecordView>::empty());
    assert(one.last() == base);
    assert(expand_all(one, key, fields[a].1) == expand_all(one.drop_last(), key, fields[a].1)
        + expand_one(base, key, fields[a].1));
    assert(expand_all(one, key, fields[a].1) =~= mids);
    assert(flatten_fields(fields, (a + 1) as nat) == mids);
    lemma_scalar_suffix(fields, a, mids, fields.len());
    assert(fields.subrange(a + 1, fields.len() as int) =~= fields.skip(a + 1));
}

proof fn lemma_expand_items_len(rec: RecordView, key: Seq<char>, items: Seq<JsonView>, m: nat)
    requires
        m <= items.len(),
        forall|j: int| 0 <= j < items.len() ==> single_record(#[trigger] items[j]),
    ensures
        expand_items(rec, key, items, m).len() == m,
    decreases m,
{
    if m > 0 {
        lemma_expand_items_len(rec, key, items, (m - 1) as nat);
        let e = items[m - 1];
        if e is Object {
            lemma_flatten_scalar_object(e->Object_0, e->Object_1);
            assert(e == JsonView::Object(e->Object_0, e->Object_1));
        }
        assert(flatten(e).len() == 1);
    }
}

proof fn lemma_expand_all_len_array(recs: Seq<RecordView>, k: Seq<char>, v: JsonView)
    requires
        v is Array,
        v->Array_0.len() > 0,
        forall|j: int| 0 <= j < v->Array_0.len() ==> single_record(#[trigger] v->Array_0[j]),
    ensures
        expand_all(recs, k, v).len() == recs.len() * v->Array_0.len(),
    decreases recs.len(),
{
    if recs.len() > 0 {
        lemma_expand_all_len_array(recs.drop_last(), k, v);
        lemma_expand_items_len(recs.last(), k, v->Array_0, v->Array_0.len());
        assert(v == JsonView::Array(v->Array_0, v->Array_1));
        assert(expand_one(recs.last(), k, v) == expand_items(recs.last(), k, v->Array_0, v->Array_0.len()));
        let n = recs.len() as int;
        let m = v->Array_0.len() as int;
        assert((n - 1) * m + m == n * m) by (nonlinear_arith);
    }
}

proof fn lemma_two_arrays_len(fields: Seq<(Seq<char>, JsonView)>, a: int, b: int, n: nat)
    requires
        0 <= a < b < fields.len(),
        n <= fields.len(),
        forall|i: int|
            0 <= i < fields.len() && i != a && i != b ==> is_scalar(#[trigger] fields[i].1),
        fields[a].1 is Array,
        fields[b].1 is Array,
        fields[a].1->Array_0.len() > 0,
        fields[b].1->Array_0.len() > 0,
        forall|j: int|
            0 <= j < fields[a].1->Array_0.len() ==> single_record(#[trigger] fields[a].1->Array_0[j]),
        forall|j: int|
            0 <= j < fields[b].1->Array_0.len() ==> single_record(#[trigger] fields[b].1->Array_0[j]),
    ensures
        flatten_fields(fields, n).len() == (if a < n {
            fields[a].1->Array_0.len() as int
        } else {
            1
        }) * (if b < n {
            fields[b].1->Array_0.len() as int
        } else {
            1
        }),
    decreases n,
{
    let na = fields[a].1->Array_0.len() as int;
    let nb = fields[b].1->Array_0.len() as int;
    let fa = if a < n {
        na
    } else {
        1
    };
    let fb = if b < n {
        nb
    } else {
        1
    };
    if n == 0 {
        assert(flatten_fields(fields, 0).len() == 1);
        assert(fa * fb == 1);
    } else {
        lemma_two_arrays_len(fields, a, b, (n - 1) as nat);
        let prev = flatten_fields(fields, (n - 1) as nat);
        let v = fields[n - 1].1;
        let pa = if a < n - 1 {
            na
        } else {
            1
        };
        let pb = if b < n - 1 {
            nb
        } else {
            1
        };
        assert(prev.len() == pa * pb);
        assert(flatten_fields(fields, n) == expand_all(prev, fields[n - 1].0, v));
        if n - 1 == a {
            lemma_expand_all_len_array(prev, fields[n - 1].0, v);
            assert(pa == 1 && pb == 1 && fa == na && fb == 1);
            assert(prev.len() * na == na * 1) by (nonlinear_arith)
                requires
                    prev.len() == 1,
            ;
        } else if n - 1 == b {
            lemma_expand_all_len_array(prev, fields[n - 1].0, v);
            assert(pa == na && pb == 1 && fa == na && fb == nb);
            assert(prev.len() * nb == na * nb) by (nonlinear_arith)
                requires
                    prev.len() == na * 1,
            ;
        } else {
            lemma_expand_all_scalar(prev, fields[n - 1].0, v);
            assert(pa == fa && pb == fb);
        }
    }
}

/// An element that flattens to a single record: a scalar, or an object of scalars under
/// distinct keys.
pub open spec fn single_record(v: JsonView) -> bool {
    is_scalar(v) || (v is Object && scalar_fields(v->Object_0))
}

/// An object with two non-empty array fields, of lengths `n` and `m`, whose elements are
/// scalars or objects of scalars, and scalars in every other field flattens to `n * m`
/// records: one per pair of elements.
pub proof fn lemma_flatten_cross_product(
    fields: Seq<(Seq<char>, JsonView)>,
    text: Seq<char>,
    a: int,
    b: int,
)
    requires
        0 <= a < b < fields.len(),
        forall|i: int|
            0 <= i < fields.len() && i != a && i != b ==> is_scalar(#[trigger] fields[i].1),
        fields[a].1 is Array,
        fields[b].1 is Array,
        fields[a].1->Array_0.len() > 0,
        fields[b].1->Array_0.len() > 0,
        forall|j: int|
            0 <= j < fields[a].1->Array_0.len() ==> single_record(#[trigger] fields[a].1->Array_0[j]),
        forall|j: int|
            0 <= j < fields[b].1->Array_0.len() ==> single_record(#[trigger] fields[b].1->Array_0[j]),
    ensures
        flatten(JsonView::Object(fields, text)).len() == fields[a].1->Array_0.len()
            * fields[b].1->Array_0.len(),
{
    lemma_two_arrays_len(fields, a, b, fields.len());
}

proof fn lemma_key_index_keys(r1: RecordView, r2: RecordView, k: Seq<char>)
    requires
        r1.len() == r2.len(),
        forall|i: int| 0 <= i < r1.len() ==> r1[i].0 == r2[i].0,
    ensures
        key_index(r1, k) == key_index(r2, k),
    decreases r1.len(),
{
    if r1.len() > 0 {
        lemma_key_index_keys(r1.drop_last(), r2.drop_last(), k);
    }
}

proof fn lemma_get_insert(r: RecordView, k: Seq<char>, v: JsonView, k2: Seq<char>)
    ensures
        rec_get(rec_insert(r, k, v), k2) == if k2 == k {
            Some(v)
        } else {
            rec_get(r, k2)
        },
{
    lemma_key_index_range(r, k);
    lemma_key_index_range(r, k2);
    let i = key_index(r, k);
    let r2 = rec_insert(r, k, v);
    if i >= 0 {
        lemma_key_index_keys(r2, r, k2);
        lemma_key_index_keys(r2, r, k);
    } else {
        assert(r2.drop_last() =~= r);
    }
}

proof fn lemma_insert_all_absent(rec: RecordView, fs: Seq<(Seq<char>, JsonView)>, k: Seq<char>)
    requires
        forall|t: int| 0 <= t < fs.len() ==> (#[trigger] fs[t]).0 != k,
    ensures
        rec_get(insert_all(rec, fs), k) == rec_get(rec, k),
    decreases fs.len(),
{
    if fs.len() > 0 {
        lemma_insert_all_absent(rec, fs.drop_last(), k);
        lemma_get_insert(insert_all(rec, fs.drop_last()), fs.last().0, fs.last().1, k);
    }
}

proof fn lemma_insert_all_present(rec: RecordView, fs: Seq<(Seq<char>, JsonView)>, t: int)
    requires
        0 <= t < fs.len(),
        forall|i: int, j: int| 0 <= i < j < fs.len() ==> #[trigger] fs[i].0 != #[trigger] fs[j].0,
    ensures
        rec_get(insert_all(rec, fs), fs[t].0) == Some(fs[t].1),
    decreases fs.len(),
{
    let init = fs.drop_last();
    lemma_get_insert(insert_all(rec, init), fs.last().0, fs.last().1, fs[t].0);
    if t < fs.len() - 1 {
        assert(fs[t].0 != fs[fs.len() - 1].0);
        assert(init[t] == fs[t]);
        lemma_insert_all_present(rec, init, t);
    }
}

/// The entries of `sub` under keys prefixed by `prefix`.
pub open spec fn prefixed_entries(prefix: Seq<char>, sub: RecordView) -> RecordView {
    Seq::new(sub.len(), |i: int| (prefixed_key(prefix, sub[i].0), sub[i].1))
}

proof fn lemma_merge_is_insert_all(rec: RecordView, prefix: Seq<char>, sub: RecordView)
    ensures
        merge_prefixed(rec, prefix, sub) == insert_all(rec, prefixed_entries(prefix, sub)),
    decreases sub.len(),
{
    if sub.len() > 0 {
        lemma_merge_is_insert_all(rec, prefix, sub.drop_last());
        assert(prefixed_entries(prefix, sub).drop_last() =~= prefixed_entries(prefix, sub.drop_last()));
    }
}

proof fn lemma_prefixed_injective(prefix: Seq<char>, x: Seq<char>, y: Seq<char>)
    requires
        prefixed_key(prefix, x) == prefixed_key(prefix, y),
    ensures
        x == y,
{
    let n = prefix.len() + 1;
    assert(prefixed_key(prefix, x).skip(n as int) =~= x);
    assert(prefixed_key(prefix, y).skip(n as int) =~= y);
}

/// Looked up key by key, the records of an object with one array of objects: every
/// other field keeps its value in each record, record `j` holds element `j`'s fields
/// under `{field}.`, and the array field itself is absent. The keys must not collide:
/// the object's keys are distinct, and none of the other fields is named like a prefixed
/// element key.
pub proof fn lemma_flatten_one_array_lookup(fields: Seq<(Seq<char>, JsonView)>, text: Seq<char>, a: int)
    requires
        0 <= a < fields.len(),
        fields[a].1 is Array,
        fields[a].1->Array_0.len() > 0,
        forall|i: int| 0 <= i < fields.len() && i != a ==> is_scalar(#[trigger] fields[i].1),
        forall|j: int|
            0 <= j < fields[a].1->Array_0.len() ==> (#[trigger] fields[a].1->Array_0[j]) is Object
                && scalar_fields(fields[a].1->Array_0[j]->Object_0),
        forall|i: int, j: int|
            0 <= i < j < fields.len() ==> #[trigger] fields[i].0 != #[trigger] fields[j].0,
        forall|i: int, j: int, t: int|
            0 <= i < fields.len() && 0 <= j < fields[a].1->Array_0.len() && 0 <= t
                < fields[a].1->Array_0[j]->Object_0.len() ==> #[trigger] fields[i].0
                != prefixed_key(fields[a].0, #[trigger] fields[a].1->Array_0[j]->Object_0[t].0),
    ensures
        ({
            let items = fields[a].1->Array_0;
            let r = flatten(JsonView::Object(fields, text));
            &&& r.len() == items.len()
            &&& forall|j: int, i: int|
                0 <= j < items.len() && 0 <= i < fields.len() && i != a ==> rec_get(
                    #[trigger] r[j],
                    #[trigger] fields[i].0,
                ) == Some(fields[i].1)
            &&& forall|j: int, t: int|
                0 <= j < items.len() && 0 <= t < element_fields(items[j]).len() ==> rec_get(
                    #[trigger] r[j],
                    prefixed_key(fields[a].0, #[trigger] element_fields(items[j])[t].0),
                ) == Some(element_fields(items[j])[t].1)
            &&& forall|j: int| 0 <= j < items.len() ==> rec_get(#[trigger] r[j], fields[a].0) is None
        }),
{
    let items = fields[a].1->Array_0;
    let key = fields[a].0;
    let r = flatten(JsonView::Object(fields, text));
    lemma_flatten_one_array(fields, text, a);
    let before = fields.take(a);
    let after = fields.skip(a + 1);
    let base = insert_all(Seq::empty(), before);
    assert forall|j: int, i: int|
        0 <= j < items.len() && 0 <= i < fields.len() && i != a implies rec_get(
        #[trigger] r[j],
        #[trigger] fields[i].0,
    ) == Some(fields[i].1) by {
        let e = element_fields(items[j]);
        let pe = prefixed_entries(key, e);
        lemma_merge_is_insert_all(base, key, e);
        if i > a {
            assert(after[i - a - 1] == fields[i]);
            assert forall|x: int, y: int| 0 <= x < y < after.len() implies #[trigger] after[x].0
                != #[trigger] after[y].0 by {
                assert(after[x] == fields[x + a + 1] && after[y] == fields[y + a + 1]);
            }
            lemma_insert_all_present(merge_prefixed(base, key, e), after, i - a - 1);
        } else {
            assert forall|t: int| 0 <= t < after.len() implies (#[trigger] after[t]).0 != fields[i].0 by {
                assert(after[t] == fields[t + a + 1]);
            }
            lemma_insert_all_absent(merge_prefixed(base, key, e), after, fields[i].0);
            assert forall|t: int| 0 <= t < pe.len() implies (#[trigger] pe[t]).0 != fields[i].0 by {
                assert(fields[i].0 != prefixed_key(key, items[j]->Object_0[t].0));
            }
            lemma_insert_all_absent(base, pe, fields[i].0);
            assert(before[i] == fields[i]);
            assert forall|x: int, y: int| 0 <= x < y < before.len() implies #[trigger] before[x].0
                != #[trigger] before[y].0 by {
                assert(before[x] == fields[x] && before[y] == fields[y]);
            }
            lemma_insert_all_present(Seq::empty(), before, i);
        }
    }
    assert forall|j: int, t: int|
        0 <= j < items.len() && 0 <= t < element_fields(items[j]).len() implies rec_get(
        #[trigger] r[j],
        prefixed_key(key, #[trigger] element_fields(items[j])[t].0),
    ) == Some(element_fields(items[j])[t].1) by {
        let e = element_fields(items[j]);
        let pe = prefixed_entries(key, e);
        let pk = prefixed_key(key, e[t].0);
        lemma_merge_is_insert_all(base, key, e);
        assert forall|u: int| 0 <= u < after.len() implies (#[trigger] after[u]).0 != pk by {
            assert(after[u] == fields[u + a + 1]);
        }
        lemma_insert_all_absent(merge_prefixed(base, key, e), after, pk);
        assert forall|x: int, y: int| 0 <= x < y < pe.len() implies #[trigger] pe[x].0
            != #[trigger] pe[y].0 by {
            if pe[x].0 == pe[y].0 {
                lemma_prefixed_injective(key, e[x].0, e[y].0);
            }
        }
        assert(pe[t].0 == pk && pe[t].1 == e[t].1);
        lemma_insert_all_present(base, pe, t);
    }
    assert forall|j: int| 0 <= j < items.len() implies rec_get(#[trigger] r[j], key) is None by {
        let e = element_fields(items[j]);
        let pe = prefixed_entries(key, e);
        lemma_merge_is_insert_all(base, key, e);
        assert forall|u: int| 0 <= u < after.len() implies (#[trigger] after[u]).0 != key by {
            assert(after[u] == fields[u + a + 1]);
        }
        lemma_insert_all_absent(merge_prefixed(base, key, e), after, key);
        assert forall|u: int| 0 <= u < pe.len() implies (#[trigger] pe[u]).0 != key by {
            assert(pe[u].0.len() > key.len());
        }
        lemma_insert_all_absent(base, pe, key);
        assert forall|u: int| 0 <= u < before.len() implies (#[trigger] before[u]).0 != key by {
            assert(before[u] == fields[u]);
        }
        lemma_insert_all_absent(Seq::empty(), before, key);
        lemma_key_index_range(Seq::<(Seq<char>, JsonView)>::empty(), key);
    }
}

/// The one record that an element flattening to one record gives.
pub open spec fn single_of(v: JsonView) -> RecordView {
    flatten(v)[0]
}

proof fn lemma_single_len(v: JsonView)
    requires
        single_record(v),
    ensures
        flatten(v).len() == 1,
{
    if v is Object {
        lemma_flatten_scalar_object(v->Object_0, v->Object_1);
        assert(v == JsonView::Object(v->Object_0, v->Object_1));
    }
}

proof fn lemma_expand_items_one(rec: RecordView, key: Seq<char>, items: Seq<JsonView>, m: nat)
    requires
        m <= items.len(),
        forall|j: int| 0 <= j < items.len() ==> single_record(#[trigger] items[j]),
    ensures
        expand_items(rec, key, items, m) == Seq::new(
            m,
            |j: int| merge_prefixed(rec, key, single_of(items[j])),
        ),
    decreases m,
{
    if m > 0 {
        lemma_expand_items_one(rec, key, items, (m - 1) as nat);
        lemma_single_len(items[m - 1]);
        assert(merge_each(rec, key, flatten(items[m - 1])) =~= seq![
            merge_prefixed(rec, key, single_of(items[m - 1])),
        ]);
    }
    assert(expand_items(rec, key, items, m) =~= Seq::new(
        m,
        |j: int| merge_prefixed(rec, key, single_of(items[j])),
    ));
}

proof fn lemma_expand_all_array_index(recs: Seq<RecordView>, k: Seq<char>, v: JsonView)
    requires
        v is Array,
        v->Array_0.len() > 0,
        forall|j: int| 0 <= j < v->Array_0.len() ==> single_record(#[trigger] v->Array_0[j]),
    ensures
        ({
            let m = v->Array_0.len() as int;
            let r = expand_all(recs, k, v);
            &&& r.len() == recs.len() * m
            &&& forall|i: int, j: int|
                0 <= i < recs.len() && 0 <= j < m ==> #[trigger] r[i * m + j] == merge_prefixed(
                    recs[i],
                    k,
                    single_of(#[trigger] v->Array_0[j]),
                )
        }),
    decreases recs.len(),
{
    let m = v->Array_0.len() as int;
    let n = recs.len() as int;
    if n > 0 {
        let init = recs.drop_last();
        lemma_expand_all_array_index(init, k, v);
        lemma_expand_items_one(recs.last(), k, v->Array_0, v->Array_0.len());
        assert(v == JsonView::Array(v->Array_0, v->Array_1));
        let left = expand_all(init, k, v);
        let right = expand_one(recs.last(), k, v);
        assert(right == expand_items(recs.last(), k, v->Array_0, v->Array_0.len()));
        assert((n - 1) * m + m == n * m) by (nonlinear_arith);
        let r = expand_all(recs, k, v);
        assert(r == left + right);
        assert forall|i: int, j: int| 0 <= i < n && 0 <= j < m implies #[trigger] r[i * m + j]
            == merge_prefixed(recs[i], k, single_of(#[trigger] v->Array_0[j])) by {
            if i < n - 1 {
                assert(i * m + j < (n - 1) * m) by (nonlinear_arith)
                    requires
                        0 <= i < n - 1,
                        0 <= j < m,
                ;
                assert(0 <= i * m) by (nonlinear_arith)
                    requires
                        0 <= i,
                        0 <= m,
                ;
                assert(init[i] == recs[i]);
            } else {
                assert(i * m + j - (n - 1) * m == j) by (nonlinear_arith)
                    requires
                        i == n - 1,
                ;
            }
        }
    }
}

/// An object with two non-empty array fields `a` before `b`, whose elements are scalars
/// or objects of scalars, and scalars in every other field: record `i * m + j` (for `m`
/// the length of `b`) holds the fields before `a`, element `i` of `a` under `{a}.`, the
/// fields between, element `j` of `b` under `{b}.`, then the fields after `b`.
pub proof fn lemma_flatten_cross_product_records(
    fields: Seq<(Seq<char>, JsonView)>,
    text: Seq<char>,
    a: int,
    b: int,
)
    requires
        0 <= a < b < fields.len(),
        forall|i: int|
            0 <= i < fields.len() && i != a && i != b ==> is_scalar(#[trigger] fields[i].1),
        fields[a].1 is Array,
        fields[b].1 is Array,
        fields[a].1->Array_0.len() > 0,
        fields[b].1->Array_0.len() > 0,
        forall|j: int|
            0 <= j < fields[a].1->Array_0.len() ==> single_record(#[trigger] fields[a].1->Array_0[j]),
        forall|j: int|
            0 <= j < fields[b].1->Array_0.len() ==> single_record(#[trigger] fields[b].1->Array_0[j]),
    ensures
        ({
            let xa = fields[a].1->Array_0;
            let xb = fields[b].1->Array_0;
            let m = xb.len() as int;
            let base = insert_all(Seq::empty(), fields.take(a));
            let r = flatten(JsonView::Object(fields, text));
            &&& r.len() == xa.len() * xb.len()
            &&& forall|i: int, j: int|
                0 <= i < xa.len() && 0 <= j < m ==> #[trigger] r[i * m + j] == insert_all(
                    merge_prefixed(
                        insert_all(
                            merge_prefixed(base, fields[a].0, single_of(#[trigger] xa[i])),
                            fields.subrange(a + 1, b),
                        ),
                        fields[b].0,
                        single_of(#[trigger] xb[j]),
                    ),
                    fields.skip(b + 1),
                )
        }),
{
    let xa = fields[a].1->Array_0;
    let xb = fields[b].1->Array_0;
    let m = xb.len() as int;
    let base = insert_all(Seq::empty(), fields.take(a));
    assert forall|i: int| 0 <= i < a implies is_scalar(#[trigger] fields[i].1) by {}
    lemma_scalar_prefix(fields, a as nat);
    lemma_expand_items_one(base, fields[a].0, xa, xa.len());
    let mids = Seq::new(xa.len(), |i: int| merge_prefixed(base, fields[a].0, single_of(xa[i])));
    let one = seq![base];
    assert(one.drop_last() =~= Seq::<RecordView>::empty());
    assert(fields[a].1 == JsonView::Array(xa, fields[a].1->Array_1));
    assert(expand_all(one, fields[a].0, fields[a].1) == expand_all(one.drop_last(), fields[a].0, fields[a].1)
        + expand_one(base, fields[a].0, fields[a].1));
    assert(expand_all(one, fields[a].0, fields[a].1) =~= mids);
    assert(flatten_fields(fields, (a + 1) as nat) == mids);
    assert forall|i: int| a < i < b implies is_scalar(#[trigger] fields[i].1) by {}
    lemma_scalar_suffix(fields, a, mids, b as nat);
    let before_b = flatten_fields(fields, b as nat);
    lemma_expand_all_array_index(before_b, fields[b].0, fields[b].1);
    let mids2 = flatten_fields(fields, (b + 1) as nat);
    lemma_scalar_suffix(fields, b, mids2, fields.len());
    let r = flatten(JsonView::Object(fields, text));
    assert(fields.subrange(b + 1, fields.len() as int) =~= fields.skip(b + 1));
    assert forall|i: int, j: int| 0 <= i < xa.len() && 0 <= j < m implies #[trigger] r[i * m + j]
        == insert_all(
        merge_prefixed(
            insert_all(
                merge_prefixed(base, fields[a].0, single_of(#[trigger] xa[i])),
                fields.subrange(a + 1, b),
            ),
            fields[b].0,
            single_of(#[trigger] xb[j]),
        ),
        fields.skip(b + 1),
    ) by {
        assert(0 <= i * m + j < xa.len() * m) by (nonlinear_arith)
            requires
                0 <= i < xa.len(),
                0 <= j < m,
        ;
        assert(before_b[i] == insert_all(mids[i], fields.subrange(a + 1, b)));
    }
}

} // verus!
