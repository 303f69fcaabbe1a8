//! Building template contexts: YAML front matter read as Liquid values, and
//! arrays of objects given uniform keys.
use vstd::prelude::*;
use crate::filters::collections::{array_of, lemma_array_sv};
use crate::text::{chars_to_string, str_to_chars, vec_eq};
use crate::value::{lookup, svs, SValue, Value};

verus! {

// ---------------------------------------------------------------------------
// Uniform keys for arrays of objects
// ---------------------------------------------------------------------------

/// Every item normalized.
pub open spec fn normalized_items(items: Seq<SValue>) -> Seq<SValue>
    decreases items,
{
    if items.len() == 0 {
        Seq::empty()
    } else {
        proof {
            assert(decreases_to!(items => items[0]));
        }
        seq![normalized(items[0])] + normalized_items(items.drop_first())
    }
}

/// Every entry with its value normalized.
pub open spec fn normalized_entries(entries: Seq<(Seq<char>, SValue)>) -> Seq<(Seq<char>, SValue)>
    decreases entries,
{
    if entries.len() == 0 {
        Seq::empty()
    } else {
        proof {
            assert(decreases_to!(entries => entries[0]));
            assert(decreases_to!(entries[0] => entries[0].1));
        }
        seq![(entries[0].0, normalized(entries[0].1))] + normalized_entries(entries.drop_first())
    }
}

/// Some item is an object.
pub open spec fn has_object(items: Seq<SValue>) -> bool {
    exists|i: int| 0 <= i < items.len() && #[trigger] items[i] is Object
}

/// The keys of the object items, each once, in order of first appearance.
pub open spec fn union_keys(items: Seq<SValue>) -> Seq<Seq<char>>
    decreases items.len(),
{
    if items.len() == 0 {
        Seq::empty()
    } else {
        let rest = union_keys(items.drop_last());
        match items.last() {
            SValue::Object(entries) => add_keys(rest, entries),
            _ => rest,
        }
    }
}

/// `keys` with the entry keys it lacks appended, in order.
pub open spec fn add_keys(keys: Seq<Seq<char>>, entries: Seq<(Seq<char>, SValue)>) -> Seq<Seq<char>>
    decreases entries.len(),
{
    if entries.len() == 0 {
        keys
    } else {
        let k = add_keys(keys, entries.drop_last());
        if k.contains(entries.last().0) {
            k
        } else {
            k.push(entries.last().0)
        }
    }
}

/// An object's entries with a nil entry added for each key it lacks.
pub open spec fn padded(entries: Seq<(Seq<char>, SValue)>, keys: Seq<Seq<char>>) -> Seq<(Seq<char>, SValue)>
    decreases keys.len(),
{
    if keys.len() == 0 {
        entries
    } else {
        let e = padded(entries, keys.drop_last());
        if lookup(e, keys.last()) is Some {
            e
        } else {
            e.push((keys.last(), SValue::Nil))
        }
    }
}

/// The items with each object padded to the keys.
pub open spec fn padded_items(items: Seq<SValue>, keys: Seq<Seq<char>>) -> Seq<SValue> {
    Seq::new(
        items.len(),
        |i: int|
            match items[i] {
                SValue::Object(entries) => SValue::Object(padded(entries, keys)),
                v => v,
            },
    )
}

/// A value with, at every depth, the objects of each array given the union
/// of their keys (missing ones nil).
pub open spec fn normalized(v: SValue) -> SValue
    decreases v,
{
    match v {
        SValue::Array(items) => {
            let n = normalized_items(items);
            if has_object(n) {
                SValue::Array(padded_items(n, union_keys(n)))
            } else {
                SValue::Array(n)
            }
        },
        SValue::Object(entries) => SValue::Object(normalized_entries(entries)),
        other => other,
    }
}

/// The mathematical form of an object's entries.
pub open spec fn entry_svs(v: Seq<(String, Value)>) -> Seq<(Seq<char>, SValue)> {
    Seq::new(v.len(), |i: int| (v[i].0@, v[i].1.sv()))
}

/// The views of a list of character vectors.
pub open spec fn key_views(v: Seq<Vec<char>>) -> Seq<Seq<char>> {
    Seq::new(v.len(), |i: int| v[i]@)
}

/// An object value holding `entries`.
pub fn object_of(entries: Vec<(String, Value)>) -> (r: Value)
    ensures
        r.sv() == SValue::Object(entry_svs(entries@)),
{
    let ghost e = entry_svs(entries@);
    let r = Value::Object(entries);
    proof {
        let x = match r.sv() {
            SValue::Object(x) => x,
            _ => Seq::empty(),
        };
        assert(x =~= e);
    }
    r
}

proof fn lemma_object_sv(v: &Value, entries: &Vec<(String, Value)>)
    requires
        *v == Value::Object(*entries),
    ensures
        v.sv() == SValue::Object(entry_svs(entries@)),
{
    let x = match v.sv() {
        SValue::Object(x) => x,
        _ => Seq::empty(),
    };
    assert(x =~= entry_svs(entries@));
}

/// Whether the entries have key `k`.
fn has_key(entries: &Vec<(String, Value)>, k: &Vec<char>) -> (r: bool)
    ensures
        r == (lookup(entry_svs(entries@), k@) is Some),
{
    let ghost e = entry_svs(entries@);
    let mut i: usize = 0;
    assert(e.skip(0) =~= e);
    while i < entries.len()
        invariant
            i <= entries.len(),
            e == entry_svs(entries@),
            lookup(e, k@) == lookup(e.skip(i as int), k@),
        decreases entries.len() - i,
    {
        assert(e.skip(i as int)[0] == e[i as int]);
        assert(e.skip(i as int).drop_first() =~= e.skip(i + 1));
        if vec_eq(&str_to_chars(entries[i].0.as_str()), k) {
            return true;
        }
        i += 1;
    }
    false
}

fn contains_chars(keys: &Vec<Vec<char>>, k: &Vec<char>) -> (r: bool)
    ensures
        r == key_views(keys@).contains(k@),
{
    let ghost kv = key_views(keys@);
    let mut i: usize = 0;
    while i < keys.len()
        invariant
            i <= keys.len(),
            kv == key_views(keys@),
            forall|m: int| 0 <= m < i ==> kv[m] != k@,
        decreases keys.len() - i,
    {
        if vec_eq(&keys[i], k) {
            assert(kv[i as int] == k@);
            return true;
        }
        i += 1;
    }
    false
}

/// Appends the entry keys that `keys` lacks.
fn add_keys_exec(keys: &mut Vec<Vec<char>>, entries: &Vec<(String, Value)>)
    ensures
        key_views(final(keys)@) == add_keys(key_views(old(keys)@), entry_svs(entries@)),
{
    let ghost start = key_views(keys@);
    let ghost e = entry_svs(entries@);
    let mut i: usize = 0;
    while i < entries.len()
        invariant
            i <= entries.len(),
            e == entry_svs(entries@),
            key_views(keys@) == add_keys(start, e.take(i as int)),
        decreases entries.len() - i,
    {
        assert(e.take(i + 1).drop_last() =~= e.take(i as int));
        assert(e.take(i + 1).last() == e[i as int]);
        let k = str_to_chars(entries[i].0.as_str());
        if !contains_chars(keys, &k) {
            let ghost before = key_views(keys@);
            let ghost kv = k@;
            keys.push(k);
            assert(key_views(keys@) =~= before.push(kv));
        }
        i += 1;
    }
    assert(e.take(entries.len() as int) =~= e);
}

/// The entries with a nil entry for each key they lack.
fn padded_exec(entries: &Vec<(String, Value)>, keys: &Vec<Vec<char>>) -> (r: Vec<(String, Value)>)
    ensures
        entry_svs(r@) == padded(entry_svs(entries@), key_views(keys@)),
{
    let mut out: Vec<(String, Value)> = Vec::new();
    let mut i: usize = 0;
    while i < entries.len()
        invariant
            i <= entries.len(),
            entry_svs(out@) == entry_svs(entries@).take(i as int),
        decreases entries.len() - i,
    {
        let ghost before = entry_svs(out@);
        let d = entries[i].1.duplicate();
        let k = entries[i].0.clone();
        let ghost pv = (k@, d.sv());
        assert(pv == entry_svs(entries@)[i as int]);
        out.push((k, d));
        assert(entry_svs(out@) =~= before.push(pv));
        assert(entry_svs(out@) =~= entry_svs(entries@).take(i + 1));
        i += 1;
    }
    assert(entry_svs(entries@).take(entries.len() as int) =~= entry_svs(entries@));
    let ghost kv = key_views(keys@);
    let mut j: usize = 0;
    while j < keys.len()
        invariant
            j <= keys.len(),
            kv == key_views(keys@),
            entry_svs(out@) == padded(entry_svs(entries@), kv.take(j as int)),
        decreases keys.len() - j,
    {
        assert(kv.take(j + 1).drop_last() =~= kv.take(j as int));
        assert(kv.take(j + 1).last() == keys@[j as int]@);
        if !has_key(&out, &keys[j]) {
            let ghost before = entry_svs(out@);
            out.push((chars_to_string(&keys[j]), Value::Nil));
            assert(entry_svs(out@) =~= before.push((keys@[j as int]@, SValue::Nil)));
        }
        j += 1;
    }
    assert(kv.take(keys.len() as int) =~= kv);
    out
}

/// Normalizes an array value.
#[verifier::loop_isolation(false)]
fn normalize_array(v: &Value, items: &Vec<Value>) -> (r: Value)
    requires
        *v == Value::Array(*items),
    ensures
        r.sv() == normalized(v.sv()),
    decreases v, 0int,
{
    proof { lemma_array_sv(v, items); }
    let ghost all = svs(items@);
    let mut n: Vec<Value> = Vec::new();
    let mut i: usize = 0;
    assert(all.skip(0) =~= all);
    while i < items.len()
        invariant
            i <= items.len(),
            all == svs(items@),
            normalized_items(all) == svs(n@) + normalized_items(all.skip(i as int)),
        decreases items.len() - i,
    {
        assert(all.skip(i as int)[0] == items@[i as int].sv());
        assert(all.skip(i as int).drop_first() =~= all.skip(i + 1));
        assert(decreases_to!(v => items@[i as int]));
        let x = normalize_arrays(&items[i]);
        let ghost before = svs(n@);
        n.push(x);
        assert(svs(n@) =~= before.push(x.sv()));
        i += 1;
    }
    assert(all.skip(items.len() as int) =~= Seq::<SValue>::empty());
    assert(svs(n@) =~= normalized_items(all));
    let ghost ns = svs(n@);
    let mut has_obj = false;
    let mut keys: Vec<Vec<char>> = Vec::new();
    let mut q: usize = 0;
    while q < n.len()
        invariant
            q <= n.len(),
            ns == svs(n@),
            has_obj == (exists|x: int| 0 <= x < q && #[trigger] ns[x] is Object),
            key_views(keys@) == union_keys(ns.take(q as int)),
        decreases n.len() - q,
    {
        assert(ns.take(q + 1).drop_last() =~= ns.take(q as int));
        assert(ns.take(q + 1).last() == n@[q as int].sv());
        match &n[q] {
            Value::Object(entries) => {
                proof { lemma_object_sv(&n@[q as int], entries); }
                has_obj = true;
                add_keys_exec(&mut keys, entries);
            },
            _ => {},
        }
        q += 1;
    }
    assert(ns.take(n.len() as int) =~= ns);
    if !has_obj {
        return array_of(n);
    }
    let mut out: Vec<Value> = Vec::new();
    let mut m: usize = 0;
    while m < n.len()
        invariant
            m <= n.len(),
            ns == svs(n@),
            svs(out@) == padded_items(ns, key_views(keys@)).take(m as int),
        decreases n.len() - m,
    {
        let ghost before = svs(out@);
        let x = match &n[m] {
            Value::Object(entries) => {
                proof { lemma_object_sv(&n@[m as int], entries); }
                object_of(padded_exec(entries, &keys))
            },
            other => other.duplicate(),
        };
        out.push(x);
        assert(svs(out@) =~= before.push(x.sv()));
        assert(svs(out@) =~= padded_items(ns, key_views(keys@)).take(m + 1));
        m += 1;
    }
    assert(padded_items(ns, key_views(keys@)).take(n.len() as int) =~= padded_items(ns, key_views(keys@)));
    array_of(out)
}

/// Normalizes an object value.
#[verifier::loop_isolation(false)]
fn normalize_object(v: &Value, entries: &Vec<(String, Value)>) -> (r: Value)
    requires
        *v == Value::Object(*entries),
    ensures
        r.sv() == normalized(v.sv()),
    decreases v, 0int,
{
    proof { lemma_object_sv(v, entries); }
    let ghost es = entry_svs(entries@);
    let mut out: Vec<(String, Value)> = Vec::new();
    let mut i: usize = 0;
    assert(es.skip(0) =~= es);
    while i < entries.len()
        invariant
            i <= entries.len(),
            es == entry_svs(entries@),
            normalized_entries(es) == entry_svs(out@) + normalized_entries(es.skip(i as int)),
        decreases entries.len() - i,
    {
        assert(es.skip(i as int)[0] == es[i as int]);
        assert(es.skip(i as int).drop_first() =~= es.skip(i + 1));
        assert(decreases_to!(v => entries@[i as int].1));
        let x = normalize_arrays(&entries[i].1);
        let k = entries[i].0.clone();
        let ghost before = entry_svs(out@);
        let ghost kv = k@;
        out.push((k, x));
        assert(entry_svs(out@) =~= before.push((kv, x.sv())));
        i += 1;
    }
    assert(es.skip(entries.len() as int) =~= Seq::<(Seq<char>, SValue)>::empty());
    assert(entry_svs(out@) =~= normalized_entries(es));
    object_of(out)
}

/// Gives the objects of every array, at every depth, the union of their
/// keys (missing keys nil), so that a loop over them can read any key.
pub fn normalize_arrays(value: &Value) -> (r: Value)
    ensures
        r.sv() == normalized(value.sv()),
    decreases value, 1int,
{
    match value {
        Value::Array(items) => normalize_array(value, items),
        Value::Object(entries) => normalize_object(value, entries),
        other => other.duplicate(),
    }
}

/// The keys of an object's entries.
pub open spec fn key_set(entries: Seq<(Seq<char>, SValue)>) -> Set<Seq<char>> {
    Set::new(|k: Seq<char>| exists|i: int| 0 <= i < entries.len() && #[trigger] entries[i].0 == k)
}

/// The keys of a value: an object's keys, none for anything else.
pub open spec fn object_keys(v: SValue) -> Set<Seq<char>> {
    match v {
        SValue::Object(entries) => key_set(entries),
        _ => Set::empty(),
    }
}

/// Every key of some object among the items.
pub open spec fn all_keys(items: Seq<SValue>) -> Set<Seq<char>> {
    Set::new(|k: Seq<char>| exists|m: int| 0 <= m < items.len() && #[trigger] object_keys(items[m]).contains(k))
}

/// The elements of a sequence of keys, as a set.
pub open spec fn seq_set(keys: Seq<Seq<char>>) -> Set<Seq<char>> {
    Set::new(|k: Seq<char>| keys.contains(k))
}

proof fn lemma_lookup_key(entries: Seq<(Seq<char>, SValue)>, key: Seq<char>)
    ensures
        (lookup(entries, key) is Some) == key_set(entries).contains(key),
    decreases entries.len(),
{
    if entries.len() > 0 {
        let rest = entries.drop_first();
        lemma_lookup_key(rest, key);
        if entries[0].0 == key {
            assert(key_set(entries).contains(key));
        } else {
            if key_set(entries).contains(key) {
                let i = choose|i: int| 0 <= i < entries.len() && #[trigger] entries[i].0 == key;
                assert(rest[i - 1].0 == key);
            }
            if key_set(rest).contains(key) {
                let i = choose|i: int| 0 <= i < rest.len() && #[trigger] rest[i].0 == key;
                assert(entries[i + 1].0 == key);
            }
        }
    }
}

proof fn lemma_key_set_push(entries: Seq<(Seq<char>, SValue)>, p: (Seq<char>, SValue))
    ensures
        key_set(entries.push(p)) == key_set(entries).insert(p.0),
{
    let e = entries.push(p);
    assert forall|k: Seq<char>| key_set(e).contains(k) <==> key_set(entries).insert(p.0).contains(k) by {
        if key_set(e).contains(k) && k != p.0 {
            let i = choose|i: int| 0 <= i < e.len() && #[trigger] e[i].0 == k;
            assert(entries[i].0 == k);
        }
        if key_set(entries).contains(k) {
            let i = choose|i: int| 0 <= i < entries.len() && #[trigger] entries[i].0 == k;
            assert(e[i].0 == k);
        }
        if k == p.0 {
            assert(e[entries.len() as int].0 == k);
        }
    }
    assert(key_set(e) =~= key_set(entries).insert(p.0));
}

proof fn lemma_seq_set_push(keys: Seq<Seq<char>>, k: Seq<char>)
    ensures
        seq_set(keys.push(k)) == seq_set(keys).insert(k),
{
    let s = keys.push(k);
    assert forall|x: Seq<char>| s.contains(x) <==> (keys.contains(x) || x == k) by {
        if s.contains(x) && x != k {
            let i = choose|i: int| 0 <= i < s.len() && s[i] == x;
            assert(keys[i] == x);
        }
        if keys.contains(x) {
            let i = choose|i: int| 0 <= i < keys.len() && keys[i] == x;
            assert(s[i] == x);
        }
        if x == k {
            assert(s[keys.len() as int] == x);
        }
    }
    assert(seq_set(s) =~= seq_set(keys).insert(k));
}

/// Padding adds exactly the missing keys.
proof fn lemma_padded_keys(entries: Seq<(Seq<char>, SValue)>, keys: Seq<Seq<char>>)
    ensures
        key_set(padded(entries, keys)) == key_set(entries) + seq_set(keys),
    decreases keys.len(),
{
    if keys.len() == 0 {
        assert(seq_set(keys) =~= Set::empty());
        assert(key_set(entries) + seq_set(keys) =~= key_set(entries));
    } else {
        let init = keys.drop_last();
        lemma_padded_keys(entries, init);
        let e = padded(entries, init);
        lemma_lookup_key(e, keys.last());
        assert(keys =~= init.push(keys.last()));
        lemma_seq_set_push(init, keys.last());
        if lookup(e, keys.last()) is None {
            lemma_key_set_push(e, (keys.last(), SValue::Nil));
        }
        assert(key_set(padded(entries, keys)) =~= key_set(entries) + seq_set(keys));
    }
}

/// Adding an object's keys to a key list gives the union of both.
proof fn lemma_add_keys(keys: Seq<Seq<char>>, entries: Seq<(Seq<char>, SValue)>)
    ensures
        seq_set(add_keys(keys, entries)) == seq_set(keys) + key_set(entries),
    decreases entries.len(),
{
    if entries.len() == 0 {
        assert(key_set(entries) =~= Set::empty());
        assert(seq_set(keys) + key_set(entries) =~= seq_set(keys));
    } else {
        let init = entries.drop_last();
        lemma_add_keys(keys, init);
        let k = add_keys(keys, init);
        assert(entries =~= init.push(entries.last()));
        lemma_key_set_push(init, entries.last());
        if !k.contains(entries.last().0) {
            lemma_seq_set_push(k, entries.last().0);
        }
        assert(seq_set(add_keys(keys, entries)) =~= seq_set(keys) + key_set(entries));
    }
}

/// The key list of a set of items holds exactly the keys of its objects.
proof fn lemma_union_keys(items: Seq<SValue>)
    ensures
        seq_set(union_keys(items)) == all_keys(items),
    decreases items.len(),
{
    if items.len() == 0 {
        assert(seq_set(union_keys(items)) =~= Set::empty());
        assert(all_keys(items) =~= Set::empty());
    } else {
        let init = items.drop_last();
        lemma_union_keys(init);
        assert forall|k: Seq<char>| all_keys(items).contains(k) <==> (all_keys(init).contains(k) || object_keys(items.last()).contains(k)) by {
            if all_keys(items).contains(k) {
                let m = choose|m: int| 0 <= m < items.len() && #[trigger] object_keys(items[m]).contains(k);
                if m < init.len() {
                    assert(object_keys(init[m]).contains(k));
                }
            }
            if all_keys(init).contains(k) {
                let m = choose|m: int| 0 <= m < init.len() && #[trigger] object_keys(init[m]).contains(k);
                assert(object_keys(items[m]).contains(k));
            }
            if object_keys(items.last()).contains(k) {
                assert(object_keys(items[items.len() - 1]).contains(k));
            }
        }
        match items.last() {
            SValue::Object(entries) => {
                lemma_add_keys(union_keys(init), entries);
            },
            _ => {
                assert(object_keys(items.last()) =~= Set::empty());
            },
        }
        assert(seq_set(union_keys(items)) =~= all_keys(items));
    }
}

/// Normalizing an array gives all its objects the same keys: every key
/// that some object of the array has (after its own values are normalized).
pub proof fn lemma_normalized_keys_uniform(items: Seq<SValue>)
    ensures
        ({
            let n = normalized_items(items);
            let out = match normalized(SValue::Array(items)) {
                SValue::Array(o) => o,
                _ => Seq::empty(),
            };
            forall|i: int| 0 <= i < out.len() && (#[trigger] out[i] is Object)
                ==> object_keys(out[i]) == all_keys(n)
        }),
{
    let n = normalized_items(items);
    if has_object(n) {
        lemma_padded_items_uniform(n);
    }
}

/// Padding every object of the items to their joint keys gives each of them
/// exactly those keys.
proof fn lemma_padded_items_uniform(n: Seq<SValue>)
    ensures
        forall|i: int| 0 <= i < n.len() && (#[trigger] padded_items(n, union_keys(n))[i] is Object)
            ==> object_keys(padded_items(n, union_keys(n))[i]) == all_keys(n),
{
    let keys = union_keys(n);
    lemma_union_keys(n);
    let out = padded_items(n, keys);
    assert forall|i: int| 0 <= i < out.len() && (#[trigger] out[i] is Object)
        implies object_keys(out[i]) == all_keys(n) by {
        match n[i] {
            SValue::Object(entries) => {
                lemma_padded_keys(entries, keys);
                assert forall|k: Seq<char>| key_set(entries).contains(k) implies all_keys(n).contains(k) by {
                    assert(object_keys(n[i]).contains(k));
                }
                assert(key_set(entries) + seq_set(keys) =~= all_keys(n));
            },
            _ => {},
        }
    }
}

/// Normalizing entries keeps each key and normalizes its value.
proof fn lemma_normalized_entries_each(entries: Seq<(Seq<char>, SValue)>)
    ensures
        normalized_entries(entries).len() == entries.len(),
        forall|i: int| 0 <= i < entries.len() ==> (#[trigger] normalized_entries(entries)[i]) == (entries[i].0, normalized(entries[i].1)),
    decreases entries.len(),
{
    if entries.len() > 0 {
        lemma_normalized_entries_each(entries.drop_first());
        assert forall|i: int| 0 <= i < entries.len() implies (#[trigger] normalized_entries(entries)[i]) == (entries[i].0, normalized(entries[i].1)) by {
            if i > 0 {
                assert(normalized_entries(entries)[i] == normalized_entries(entries.drop_first())[i - 1]);
            }
        }
    }
}

/// Normalizing items normalizes each one.
proof fn lemma_normalized_items_each(items: Seq<SValue>)
    ensures
        normalized_items(items).len() == items.len(),
        forall|i: int| 0 <= i < items.len() ==> (#[trigger] normalized_items(items)[i]) == normalized(items[i]),
    decreases items.len(),
{
    if items.len() > 0 {
        lemma_normalized_items_each(items.drop_first());
        assert forall|i: int| 0 <= i < items.len() implies (#[trigger] normalized_items(items)[i]) == normalized(items[i]) by {
            if i > 0 {
                assert(normalized_items(items)[i] == normalized_items(items.drop_first())[i - 1]);
            }
        }
    }
}

/// Padding keeps an object's entries in front.
proof fn lemma_padded_prefix(entries: Seq<(Seq<char>, SValue)>, keys: Seq<Seq<char>>)
    ensures
        padded(entries, keys).len() >= entries.len(),
        padded(entries, keys).take(entries.len() as int) == entries,
        forall|j: int| entries.len() <= j < padded(entries, keys).len() ==> (#[trigger] padded(entries, keys)[j]).1 == SValue::Nil,
    decreases keys.len(),
{
    if keys.len() > 0 {
        lemma_padded_prefix(entries, keys.drop_last());
        let e = padded(entries, keys.drop_last());
        if lookup(e, keys.last()) is None {
            assert(e.push((keys.last(), SValue::Nil)).take(entries.len() as int) =~= e.take(entries.len() as int));
        }
    } else {
        assert(entries.take(entries.len() as int) =~= entries);
    }
}

/// Normalizing keeps the shape of a value: an object keeps exactly its keys;
/// an array keeps its length, each object in it keeps its keys (gaining
/// only nil ones) and every other item is normalized in place; any other
/// value is kept as it is.
pub proof fn lemma_normalize_keeps_shape(v: SValue)
    ensures
        v is Object ==> normalized(v) is Object && object_keys(normalized(v)) == object_keys(v),
        v matches SValue::Array(items) ==> normalized(v) matches SValue::Array(out) && out.len() == items.len()
            && forall|i: int| 0 <= i < items.len() ==> (items[i] is Object ==> (#[trigger] out[i]) is Object
            && object_keys(items[i]).subset_of(object_keys(out[i]))) && (!(items[i] is Object)
            ==> out[i] == normalized(items[i])),
        !(v is Object) && !(v is Array) ==> normalized(v) == v,
{
    match v {
        SValue::Object(entries) => {
            lemma_normalized_entries_each(entries);
            let ne = normalized_entries(entries);
            assert(key_set(ne) =~= key_set(entries)) by {
                assert forall|k: Seq<char>| key_set(ne).contains(k) implies key_set(entries).contains(k) by {
                    let i = choose|i: int| 0 <= i < ne.len() && #[trigger] ne[i].0 == k;
                    assert(entries[i].0 == k);
                }
                assert forall|k: Seq<char>| key_set(entries).contains(k) implies key_set(ne).contains(k) by {
                    let i = choose|i: int| 0 <= i < entries.len() && #[trigger] entries[i].0 == k;
                    assert(ne[i].0 == k);
                }
            }
        },
        SValue::Array(items) => {
            lemma_normalized_items_each(items);
            let n = normalized_items(items);
            if has_object(n) {
                let keys = union_keys(n);
                let out = padded_items(n, keys);
                assert forall|i: int| 0 <= i < items.len() implies (items[i] is Object ==> (#[trigger] out[i]) is Object
                    && object_keys(items[i]).subset_of(object_keys(out[i]))) && (!(items[i] is Object)
                    ==> out[i] == normalized(items[i])) by {
                    if let SValue::Object(es) = items[i] {
                        assert(n[i] == normalized(items[i]));
                        lemma_normalize_keeps_shape_object(items[i]);
                        let ne = normalized_entries(es);
                        lemma_padded_prefix(ne, keys);
                        let pe = padded(ne, keys);
                        assert forall|k: Seq<char>| object_keys(items[i]).contains(k) implies object_keys(out[i]).contains(k) by {
                            assert(key_set(ne).contains(k));
                            let j = choose|j: int| 0 <= j < ne.len() && #[trigger] ne[j].0 == k;
                            assert(pe.take(ne.len() as int)[j] == ne[j]);
                            assert(pe[j].0 == k);
                        }
                    } else {
                        assert(!(n[i] is Object)) by {
                            lemma_normalize_keeps_shape_nonobject(items[i]);
                        }
                    }
                }
            } else {
                assert forall|i: int| 0 <= i < items.len() implies (items[i] is Object ==> (#[trigger] n[i]) is Object
                    && object_keys(items[i]).subset_of(object_keys(n[i]))) && (!(items[i] is Object)
                    ==> n[i] == normalized(items[i])) by {
                    if items[i] is Object {
                        lemma_normalize_keeps_shape_object(items[i]);
                    }
                }
            }
        },
        _ => {},
    }
}

/// An object normalizes to an object with the same keys.
proof fn lemma_normalize_keeps_shape_object(v: SValue)
    requires
        v is Object,
    ensures
        normalized(v) is Object,
        object_keys(normalized(v)) == object_keys(v),
        v matches SValue::Object(es) ==> normalized(v) == SValue::Object(normalized_entries(es))
            && key_set(normalized_entries(es)) == key_set(es),
{
    if let SValue::Object(entries) = v {
        lemma_normalized_entries_each(entries);
        let ne = normalized_entries(entries);
        assert forall|k: Seq<char>| key_set(ne).contains(k) implies key_set(entries).contains(k) by {
            let i = choose|i: int| 0 <= i < ne.len() && #[trigger] ne[i].0 == k;
            assert(entries[i].0 == k);
        }
        assert forall|k: Seq<char>| key_set(entries).contains(k) implies key_set(ne).contains(k) by {
            let i = choose|i: int| 0 <= i < entries.len() && #[trigger] entries[i].0 == k;
            assert(ne[i].0 == k);
        }
        assert(key_set(ne) =~= key_set(entries));
    }
}

/// A value that is not an object does not normalize to one.
proof fn lemma_normalize_keeps_shape_nonobject(v: SValue)
    requires
        !(v is Object),
    ensures
        !(normalized(v) is Object),
{
}

/// Entries whose values normalizing leaves as they are.
pub open spec fn entries_fixed(e: Seq<(Seq<char>, SValue)>) -> bool {
    forall|i: int| 0 <= i < e.len() ==> normalized(#[trigger] e[i].1) == e[i].1
}

proof fn lemma_entries_fixed(e: Seq<(Seq<char>, SValue)>)
    ensures
        entries_fixed(e) <==> normalized_entries(e) == e,
{
    lemma_normalized_entries_each(e);
    if entries_fixed(e) {
        assert(normalized_entries(e) =~= e);
    }
    if normalized_entries(e) == e {
        assert forall|i: int| 0 <= i < e.len() implies normalized(#[trigger] e[i].1) == e[i].1 by {
            assert(normalized_entries(e)[i] == e[i]);
        }
    }
}

proof fn lemma_items_fixed(items: Seq<SValue>)
    requires
        forall|i: int| 0 <= i < items.len() ==> normalized(#[trigger] items[i]) == items[i],
    ensures
        normalized_items(items) == items,
{
    lemma_normalized_items_each(items);
    assert(normalized_items(items) =~= items);
}

proof fn lemma_padded_fixed(e: Seq<(Seq<char>, SValue)>, keys: Seq<Seq<char>>)
    requires
        entries_fixed(e),
    ensures
        entries_fixed(padded(e, keys)),
{
    lemma_padded_prefix(e, keys);
    let p = padded(e, keys);
    assert forall|j: int| 0 <= j < p.len() implies normalized(#[trigger] p[j].1) == p[j].1 by {
        if j < e.len() {
            assert(p.take(e.len() as int)[j] == e[j]);
        }
    }
}

proof fn lemma_padded_complete(e: Seq<(Seq<char>, SValue)>, keys: Seq<Seq<char>>)
    requires
        forall|k: Seq<char>| #[trigger] keys.contains(k) ==> key_set(e).contains(k),
    ensures
        padded(e, keys) == e,
    decreases keys.len(),
{
    if keys.len() > 0 {
        let init = keys.drop_last();
        assert forall|k: Seq<char>| #[trigger] init.contains(k) implies key_set(e).contains(k) by {
            let i = choose|i: int| 0 <= i < init.len() && init[i] == k;
            assert(keys[i] == k);
            assert(keys.contains(k));
        }
        lemma_padded_complete(e, init);
        assert(keys.contains(keys.last())) by {
            assert(keys[keys.len() - 1] == keys.last());
        }
        lemma_lookup_key(e, keys.last());
    }
}

/// Normalizing twice is normalizing once.
pub proof fn lemma_normalize_idempotent(v: SValue)
    ensures
        normalized(normalized(v)) == normalized(v),
    decreases v,
{
    match v {
        SValue::Object(entries) => {
            lemma_normalized_entries_each(entries);
            let ne = normalized_entries(entries);
            assert forall|i: int| 0 <= i < ne.len() implies normalized(#[trigger] ne[i].1) == ne[i].1 by {
                assert(decreases_to!(v => entries[i].1));
                lemma_normalize_idempotent(entries[i].1);
            }
            lemma_entries_fixed(ne);
        },
        SValue::Array(items) => {
            lemma_normalized_items_each(items);
            let n = normalized_items(items);
            assert forall|i: int| 0 <= i < n.len() implies normalized(#[trigger] n[i]) == n[i] by {
                assert(decreases_to!(v => items[i]));
                lemma_normalize_idempotent(items[i]);
            }
            if has_object(n) {
                let keys = union_keys(n);
                let a = padded_items(n, keys);
                assert forall|i: int| 0 <= i < a.len() implies normalized(#[trigger] a[i]) == a[i] by {
                    if let SValue::Object(e) = n[i] {
                        lemma_entries_fixed(e);
                        lemma_padded_fixed(e, keys);
                        lemma_entries_fixed(padded(e, keys));
                    }
                }
                lemma_items_fixed(a);
                let w = choose|i: int| 0 <= i < n.len() && #[trigger] n[i] is Object;
                assert(a[w] is Object);
                lemma_padded_items_uniform(n);
                lemma_union_keys(a);
                let ka = union_keys(a);
                assert forall|i: int| 0 <= i < a.len() implies (#[trigger] padded_items(a, ka)[i]) == a[i] by {
                    if let SValue::Object(pe) = a[i] {
                        assert forall|k: Seq<char>| #[trigger] ka.contains(k) implies key_set(pe).contains(k) by {
                            assert(seq_set(ka).contains(k));
                            assert(all_keys(a).contains(k));
                            let m = choose|m: int| 0 <= m < a.len() && #[trigger] object_keys(a[m]).contains(k);
                            assert(a[m] is Object);
                            assert(object_keys(a[m]) == all_keys(n));
                            assert(object_keys(a[i]) == all_keys(n));
                        }
                        lemma_padded_complete(pe, ka);
                    }
                }
                assert(padded_items(a, ka) =~= a);
            } else {
                lemma_items_fixed(n);
            }
        },
        _ => {},
    }
}

/// The objects among the items all have the keys of all of them.
pub open spec fn keys_uniform(items: Seq<SValue>) -> bool {
    forall|i: int| 0 <= i < items.len() && (#[trigger] items[i] is Object) ==> object_keys(items[i]) == all_keys(items)
}

/// In every array inside `v`, at any depth, the objects all have the same
/// keys: the keys of all of them.
pub open spec fn uniform_arrays(v: SValue) -> bool
    decreases v,
{
    match v {
        SValue::Array(items) => keys_uniform(items) && uniform_items(items),
        SValue::Object(entries) => uniform_entries(entries),
        _ => true,
    }
}

/// Every item is uniform at every depth.
pub open spec fn uniform_items(items: Seq<SValue>) -> bool
    decreases items,
{
    if items.len() == 0 {
        true
    } else {
        proof {
            assert(decreases_to!(items => items[0]));
        }
        uniform_arrays(items[0]) && uniform_items(items.drop_first())
    }
}

/// Every value is uniform at every depth.
pub open spec fn uniform_entries(entries: Seq<(Seq<char>, SValue)>) -> bool
    decreases entries,
{
    if entries.len() == 0 {
        true
    } else {
        proof {
            assert(decreases_to!(entries => entries[0]));
            assert(decreases_to!(entries[0] => entries[0].1));
        }
        uniform_arrays(entries[0].1) && uniform_entries(entries.drop_first())
    }
}

proof fn lemma_uniform_items_each(items: Seq<SValue>)
    ensures
        uniform_items(items) <==> forall|i: int| 0 <= i < items.len() ==> uniform_arrays(#[trigger] items[i]),
    decreases items.len(),
{
    if items.len() > 0 {
        lemma_uniform_items_each(items.drop_first());
        if forall|i: int| 0 <= i < items.len() ==> uniform_arrays(#[trigger] items[i]) {
            assert forall|i: int| 0 <= i < items.drop_first().len() implies uniform_arrays(
                #[trigger] items.drop_first()[i],
            ) by {
                assert(items.drop_first()[i] == items[i + 1]);
            }
        }
        if uniform_items(items) {
            assert forall|i: int| 0 <= i < items.len() implies uniform_arrays(#[trigger] items[i]) by {
                if i > 0 {
                    assert(items[i] == items.drop_first()[i - 1]);
                }
            }
        }
    }
}

proof fn lemma_uniform_entries_each(entries: Seq<(Seq<char>, SValue)>)
    ensures
        uniform_entries(entries) <==> forall|i: int| 0 <= i < entries.len() ==> uniform_arrays(#[trigger] entries[i].1),
    decreases entries.len(),
{
    if entries.len() > 0 {
        lemma_uniform_entries_each(entries.drop_first());
        if forall|i: int| 0 <= i < entries.len() ==> uniform_arrays(#[trigger] entries[i].1) {
            assert forall|i: int| 0 <= i < entries.drop_first().len() implies uniform_arrays(
                #[trigger] entries.drop_first()[i].1,
            ) by {
                assert(entries.drop_first()[i] == entries[i + 1]);
            }
        }
        if uniform_entries(entries) {
            assert forall|i: int| 0 <= i < entries.len() implies uniform_arrays(#[trigger] entries[i].1) by {
                if i > 0 {
                    assert(entries[i] == entries.drop_first()[i - 1]);
                }
            }
        }
    }
}

/// After normalizing, the objects of every array, at any depth, have the
/// same keys: the union of the keys of that array's objects.
pub proof fn lemma_normalized_uniform_everywhere(v: SValue)
    ensures
        uniform_arrays(normalized(v)),
    decreases v,
{
    match v {
        SValue::Object(entries) => {
            lemma_normalized_entries_each(entries);
            let ne = normalized_entries(entries);
            assert forall|i: int| 0 <= i < ne.len() implies uniform_arrays(#[trigger] ne[i].1) by {
                assert(decreases_to!(v => entries[i].1));
                lemma_normalized_uniform_everywhere(entries[i].1);
            }
            lemma_uniform_entries_each(ne);
        },
        SValue::Array(items) => {
            lemma_normalized_items_each(items);
            let n = normalized_items(items);
            assert forall|i: int| 0 <= i < n.len() implies uniform_arrays(#[trigger] n[i]) by {
                assert(decreases_to!(v => items[i]));
                lemma_normalized_uniform_everywhere(items[i]);
            }
            if has_object(n) {
                let keys = union_keys(n);
                let a = padded_items(n, keys);
                lemma_padded_items_uniform(n);
                let w = choose|i: int| 0 <= i < n.len() && #[trigger] n[i] is Object;
                assert(a[w] is Object);
                assert(all_keys(a) =~= all_keys(n)) by {
                    assert forall|k: Seq<char>| all_keys(a).contains(k) implies all_keys(n).contains(k) by {
                        let m = choose|m: int| 0 <= m < a.len() && #[trigger] object_keys(a[m]).contains(k);
                        assert(a[m] is Object);
                    }
                    assert forall|k: Seq<char>| all_keys(n).contains(k) implies all_keys(a).contains(k) by {
                        assert(object_keys(a[w]).contains(k));
                    }
                }
                assert forall|i: int| 0 <= i < a.len() implies uniform_arrays(#[trigger] a[i]) by {
                    if let SValue::Object(e) = n[i] {
                        lemma_uniform_entries_each(e);
                        lemma_padded_prefix(e, keys);
                        let pe = padded(e, keys);
                        assert forall|j: int| 0 <= j < pe.len() implies uniform_arrays(#[trigger] pe[j].1) by {
                            if j < e.len() {
                                assert(pe.take(e.len() as int)[j] == e[j]);
                            }
                        }
                        lemma_uniform_entries_each(pe);
                    }
                }
                lemma_uniform_items_each(a);
            } else {
                lemma_uniform_items_each(n);
            }
        },
        _ => {},
    }
}

/// Each object of a normalized array keeps its own entries, normalized and
/// in order, followed by the keys it lacked, all nil.
pub proof fn lemma_normalized_array_objects(items: Seq<SValue>)
    ensures
        normalized(SValue::Array(items)) matches SValue::Array(out) && out.len() == items.len() && forall|i: int|
            0 <= i < items.len() ==> match #[trigger] items[i] {
                SValue::Object(es) => out[i] matches SValue::Object(pe) && pe.len() >= es.len() && pe.take(
                    es.len() as int,
                ) == normalized_entries(es) && forall|j: int| es.len() <= j < pe.len() ==> pe[j].1 == SValue::Nil,
                _ => out[i] == normalized(items[i]),
            },
{
    lemma_normalized_items_each(items);
    let n = normalized_items(items);
    if has_object(n) {
        let keys = union_keys(n);
        let a = padded_items(n, keys);
        assert forall|i: int| 0 <= i < items.len() implies match #[trigger] items[i] {
            SValue::Object(es) => a[i] matches SValue::Object(pe) && pe.len() >= es.len() && pe.take(es.len() as int)
                == normalized_entries(es) && forall|j: int| es.len() <= j < pe.len() ==> pe[j].1 == SValue::Nil,
            _ => a[i] == normalized(items[i]),
        } by {
            if let SValue::Object(es) = items[i] {
                lemma_normalized_entries_each(es);
                lemma_padded_prefix(normalized_entries(es), keys);
            }
        }
    } else {
        assert forall|i: int| 0 <= i < items.len() implies match #[trigger] items[i] {
            SValue::Object(es) => n[i] matches SValue::Object(pe) && pe.len() >= es.len() && pe.take(es.len() as int)
                == normalized_entries(es) && forall|j: int| es.len() <= j < pe.len() ==> pe[j].1 == SValue::Nil,
            _ => n[i] == normalized(items[i]),
        } by {
            if let SValue::Object(es) = items[i] {
                lemma_normalized_entries_each(es);
                assert(normalized_entries(es).take(es.len() as int) =~= normalized_entries(es));
            }
        }
    }
}

/// A value with no object anywhere in it.
pub open spec fn object_free(v: SValue) -> bool
    decreases v,
{
    match v {
        SValue::Object(_) => false,
        SValue::Array(items) => object_free_items(items),
        _ => true,
    }
}

/// Items with no object anywhere in them.
pub open spec fn object_free_items(items: Seq<SValue>) -> bool
    decreases items,
{
    if items.len() == 0 {
        true
    } else {
        proof {
            assert(decreases_to!(items => items[0]));
        }
        object_free(items[0]) && object_free_items(items.drop_first())
    }
}

/// Normalizing leaves a value without objects as it is: scalars, and
/// arrays (at any depth) of scalars.
pub proof fn lemma_normalize_object_free(v: SValue)
    requires
        object_free(v),
    ensures
        normalized(v) == v,
    decreases v, 1int,
{
    if let SValue::Array(items) = v {
        lemma_normalize_object_free_items(items);
        assert(!has_object(items)) by {
            lemma_object_free_items_each(items);
        }
    }
}

proof fn lemma_normalize_object_free_items(items: Seq<SValue>)
    requires
        object_free_items(items),
    ensures
        normalized_items(items) == items,
    decreases items, 0int,
{
    if items.len() > 0 {
        assert(decreases_to!(items => items[0]));
        lemma_normalize_object_free(items[0]);
        lemma_normalize_object_free_items(items.drop_first());
        assert(seq![items[0]] + items.drop_first() =~= items);
    }
}

proof fn lemma_object_free_items_each(items: Seq<SValue>)
    requires
        object_free_items(items),
    ensures
        forall|i: int| 0 <= i < items.len() ==> !(#[trigger] items[i] is Object),
    decreases items.len(),
{
    if items.len() > 0 {
        lemma_object_free_items_each(items.drop_first());
        assert(object_free(items[0]));
        assert forall|i: int| 0 <= i < items.len() implies !(#[trigger] items[i] is Object) by {
            if i > 0 {
                assert(items[i] == items.drop_first()[i - 1]);
            }
        }
    }
}

// ---------------------------------------------------------------------------
// YAML front matter
// ---------------------------------------------------------------------------

/// A YAML value as the front-matter reader holds it. A number is an `Int`
/// when it fits an `i64`, else a `Float` held by its text.
pub enum Yaml {
    Null,
    Bool(bool),
    Int(i64),
    Float(String),
    Str(String),
    Sequence(Vec<Yaml>),
    Mapping(Vec<(YamlKey, Yaml)>),
    Tagged(Box<Yaml>),
}

/// A mapping key: a string, or another value held by its debug text.
pub enum YamlKey {
    Str(String),
    Other(String),
}

/// The text a key is stored under.
pub open spec fn key_text(k: YamlKey) -> Seq<char> {
    match k {
        YamlKey::Str(s) => s@,
        YamlKey::Other(d) => d@,
    }
}

/// Index of the first entry with key `k`.
pub open spec fn first_key_index(entries: Seq<(Seq<char>, SValue)>, k: Seq<char>) -> Option<int>
    decreases entries.len(),
{
    if entries.len() == 0 {
        None
    } else if entries[0].0 == k {
        Some(0)
    } else {
        match first_key_index(entries.drop_first(), k) {
            Some(i) => Some(i + 1),
            None => None,
        }
    }
}

/// An object with `k` set to `v` (`Object::insert`: the value of an existing
/// key is replaced, a new key is added).
pub open spec fn obj_insert(entries: Seq<(Seq<char>, SValue)>, k: Seq<char>, v: SValue) -> Seq<(Seq<char>, SValue)> {
    match first_key_index(entries, k) {
        Some(i) => entries.update(i, (k, v)),
        None => entries.push((k, v)),
    }
}

/// The Liquid value of a YAML value: strings, numbers, booleans and null
/// map to scalars and nil, sequences to arrays, mappings to objects that
/// record their string keys' order under `__key_order`, and tags are
/// dropped.
pub open spec fn yaml_sv(y: Yaml) -> SValue
    decreases y, 0int,
{
    match y {
        Yaml::Null => SValue::Nil,
        Yaml::Bool(b) => SValue::Bool(b),
        Yaml::Int(i) => SValue::Int(i as int),
        Yaml::Float(t) => SValue::Float(t@),
        Yaml::Str(s) => SValue::Str(s@),
        Yaml::Sequence(v) => SValue::Array(yaml_items(v@)),
        Yaml::Mapping(m) => SValue::Object(with_key_order(mapping_entries(m@, None), m@)),
        Yaml::Tagged(b) => yaml_sv(*b),
    }
}

/// The Liquid values of a sequence's items.
pub open spec fn yaml_items(v: Seq<Yaml>) -> Seq<SValue>
    decreases v, 0int,
{
    if v.len() == 0 {
        Seq::empty()
    } else {
        proof {
            assert(decreases_to!(v => v[0]));
        }
        seq![yaml_sv(v[0])] + yaml_items(v.drop_first())
    }
}

/// The value stored for one mapping entry: a string under `date` is
/// expanded to a full time in the site zone; anything else is converted.
pub open spec fn entry_value(k: YamlKey, v: Yaml, tz: Option<&str>) -> SValue
    decreases v, 1int,
{
    match v {
        Yaml::Str(s) => if key_text(k) == "date"@ {
            SValue::Str(crate::filters::dates::expanded_date(s@, tz))
        } else {
            SValue::Str(s@)
        },
        _ => yaml_sv(v),
    }
}

/// The object a mapping becomes, entry by entry.
pub open spec fn mapping_entries(m: Seq<(YamlKey, Yaml)>, tz: Option<&str>) -> Seq<(Seq<char>, SValue)>
    decreases m, 0int,
{
    if m.len() == 0 {
        Seq::empty()
    } else {
        let last = m[m.len() - 1];
        proof {
            assert(decreases_to!(m => last));
            assert(decreases_to!(last => last.1));
        }
        obj_insert(mapping_entries(m.drop_last(), tz), key_text(last.0), entry_value(last.0, last.1, tz))
    }
}

/// The string keys of a mapping, in order.
pub open spec fn string_keys(m: Seq<(YamlKey, Yaml)>) -> Seq<Seq<char>>
    decreases m.len(),
{
    if m.len() == 0 {
        Seq::empty()
    } else {
        string_keys(m.drop_last()) + match m.last().0 {
            YamlKey::Str(s) => seq![s@],
            YamlKey::Other(_) => Seq::empty(),
        }
    }
}

/// The object with its string keys' order recorded, when it has any.
pub open spec fn with_key_order(entries: Seq<(Seq<char>, SValue)>, m: Seq<(YamlKey, Yaml)>) -> Seq<(Seq<char>, SValue)> {
    let ks = string_keys(m);
    if ks.len() == 0 {
        entries
    } else {
        obj_insert(entries, "__key_order"@, SValue::Array(Seq::new(ks.len(), |i: int| SValue::Str(ks[i]))))
    }
}

fn find_first_key(entries: &Vec<(String, Value)>, k: &Vec<char>) -> (r: Option<usize>)
    ensures
        match r {
            Some(i) => first_key_index(entry_svs(entries@), k@) == Some(i as int) && i < entries.len(),
            None => first_key_index(entry_svs(entries@), k@) is None,
        },
{
    let ghost e = entry_svs(entries@);
    let mut i: usize = 0;
    assert(e.skip(0) =~= e);
    while i < entries.len()
        invariant
            i <= entries.len(),
            e == entry_svs(entries@),
            first_key_index(e, k@) == match first_key_index(e.skip(i as int), k@) {
                Some(j) => Some(j + i),
                None => None,
            },
        decreases entries.len() - i,
    {
        assert(e.skip(i as int)[0] == e[i as int]);
        assert(e.skip(i as int).drop_first() =~= e.skip(i + 1));
        if vec_eq(&str_to_chars(entries[i].0.as_str()), k) {
            return Some(i);
        }
        i += 1;
    }
    None
}

/// Sets `k` to `v` in an object's entries (`Object::insert`).
pub fn obj_insert_exec(entries: &mut Vec<(String, Value)>, k: String, v: Value)
    ensures
        entry_svs(final(entries)@) == obj_insert(entry_svs(old(entries)@), k@, v.sv()),
{
    let kc = str_to_chars(k.as_str());
    let ghost before = entry_svs(entries@);
    let ghost pv = (k@, v.sv());
    match find_first_key(entries, &kc) {
        Some(i) => {
            entries.set(i, (k, v));
            assert(entry_svs(entries@) =~= before.update(i as int, pv));
        },
        None => {
            entries.push((k, v));
            assert(entry_svs(entries@) =~= before.push(pv));
        },
    }
}

fn key_string(k: &YamlKey) -> (r: String)
    ensures
        r@ == key_text(*k),
{
    match k {
        YamlKey::Str(s) => s.clone(),
        YamlKey::Other(d) => d.clone(),
    }
}

fn entry_value_exec(k: &YamlKey, v: &Yaml, tz: Option<&str>) -> (r: Value)
    ensures
        r.sv() == entry_value(*k, *v, tz),
    decreases v, 1int,
{
    match v {
        Yaml::Str(s) => {
            let kc = str_to_chars(key_string(k).as_str());
            if vec_eq(&kc, &str_to_chars("date")) {
                Value::Str(crate::filters::dates::expand_date_only_string_with_tz(s.as_str(), tz))
            } else {
                Value::Str(s.clone())
            }
        },
        _ => yaml_to_liquid(v),
    }
}

/// The object a mapping becomes, without key order.
fn mapping_object(m: &Vec<(YamlKey, Yaml)>, tz: Option<&str>) -> (r: Vec<(String, Value)>)
    ensures
        entry_svs(r@) == mapping_entries(m@, tz),
    decreases m, 0int,
{
    let mut out: Vec<(String, Value)> = Vec::new();
    let mut i: usize = 0;
    assert(entry_svs(out@) =~= mapping_entries(m@.take(0), tz));
    while i < m.len()
        invariant
            i <= m.len(),
            entry_svs(out@) == mapping_entries(m@.take(i as int), tz),
        decreases m.len() - i,
    {
        assert(m@.take(i + 1).drop_last() =~= m@.take(i as int));
        assert(m@.take(i + 1)[i as int] == m@[i as int]);
        assert(decreases_to!(m => m@[i as int].1));
        let val = entry_value_exec(&m[i].0, &m[i].1, tz);
        let ks = key_string(&m[i].0);
        obj_insert_exec(&mut out, ks, val);
        i += 1;
    }
    assert(m@.take(m.len() as int) =~= m@);
    out
}

/// The Liquid value of a YAML value (see `yaml_sv`).
#[verifier::loop_isolation(false)]
pub fn yaml_to_liquid(y: &Yaml) -> (r: Value)
    ensures
        r.sv() == yaml_sv(*y),
    decreases y, 0int,
{
    match y {
        Yaml::Null => Value::Nil,
        Yaml::Bool(b) => Value::Bool(*b),
        Yaml::Int(i) => Value::Int(*i),
        Yaml::Float(t) => Value::Float(t.clone()),
        Yaml::Str(s) => Value::Str(s.clone()),
        Yaml::Sequence(v) => {
            let ghost all = v@;
            let mut out: Vec<Value> = Vec::new();
            let mut i: usize = 0;
            assert(all.skip(0) =~= all);
            while i < v.len()
                invariant
                    i <= v.len(),
                    all == v@,
                    yaml_items(all) == svs(out@) + yaml_items(all.skip(i as int)),
                decreases v.len() - i,
            {
                assert(all.skip(i as int)[0] == v@[i as int]);
                assert(all.skip(i as int).drop_first() =~= all.skip(i + 1));
                assert(decreases_to!(y => v@[i as int]));
                let x = yaml_to_liquid(&v[i]);
                let ghost before = svs(out@);
                out.push(x);
                assert(svs(out@) =~= before.push(x.sv()));
                i += 1;
            }
            assert(all.skip(v.len() as int) =~= Seq::<Yaml>::empty());
            array_of(out)
        },
        Yaml::Mapping(m) => {
            let mut obj = mapping_object(m, None);
            let ghost ks = string_keys(m@);
            let mut order: Vec<Value> = Vec::new();
            let mut i: usize = 0;
            while i < m.len()
                invariant
                    i <= m.len(),
                    svs(order@) == Seq::new(string_keys(m@.take(i as int)).len(), |x: int| SValue::Str(string_keys(m@.take(i as int))[x])),
                decreases m.len() - i,
            {
                assert(m@.take(i + 1).drop_last() =~= m@.take(i as int));
                assert(m@.take(i + 1).last() == m@[i as int]);
                let ghost before = svs(order@);
                match &m[i].0 {
                    YamlKey::Str(s) => {
                        let x = Value::Str(s.clone());
                        order.push(x);
                        assert(svs(order@) =~= before.push(x.sv()));
                    },
                    YamlKey::Other(_) => {},
                }
                assert(svs(order@) =~= Seq::new(string_keys(m@.take(i + 1)).len(), |x: int| SValue::Str(string_keys(m@.take(i + 1))[x])));
                i += 1;
            }
            assert(m@.take(m.len() as int) =~= m@);
            if order.len() > 0 {
                obj_insert_exec(&mut obj, "__key_order".to_string(), array_of(order));
            }
            object_of(obj)
        },
        Yaml::Tagged(b) => yaml_to_liquid(b),
    }
}

/// The object a front-matter mapping becomes, its `date` string expanded in
/// the site zone (no key order is recorded at this level).
pub fn yaml_mapping_to_object_with_tz(mapping: &Vec<(YamlKey, Yaml)>, site_tz: Option<&str>) -> (r: Value)
    ensures
        r.sv() == SValue::Object(mapping_entries(mapping@, site_tz)),
{
    object_of(mapping_object(mapping, site_tz))
}

/// `yaml_mapping_to_object_with_tz` without a site zone.
pub fn yaml_mapping_to_object(mapping: &Vec<(YamlKey, Yaml)>) -> (r: Value)
    ensures
        r.sv() == SValue::Object(mapping_entries(mapping@, None)),
{
    yaml_mapping_to_object_with_tz(mapping, None)
}

/// The context with `page` and `site` namespaces.
pub open spec fn context_entries(
    page: Option<Seq<(YamlKey, Yaml)>>,
    site: Option<Seq<(YamlKey, Yaml)>>,
) -> Seq<(Seq<char>, SValue)> {
    let a = match page {
        Some(p) => obj_insert(Seq::empty(), "page"@, SValue::Object(mapping_entries(p, None))),
        None => Seq::empty(),
    };
    match site {
        Some(s) => obj_insert(a, "site"@, SValue::Object(mapping_entries(s, None))),
        None => a,
    }
}

/// Builds a context whose `page` and `site` hold the page's and the site's
/// YAML data.
pub fn build_context(page_yaml: Option<&Vec<(YamlKey, Yaml)>>, site_yaml: Option<&Vec<(YamlKey, Yaml)>>) -> (r: Value)
    ensures
        r.sv() == SValue::Object(
            context_entries(
                match page_yaml {
                    Some(p) => Some(p@),
                    None => None,
                },
                match site_yaml {
                    Some(s) => Some(s@),
                    None => None,
                },
            ),
        ),
{
    let mut ctx: Vec<(String, Value)> = Vec::new();
    assert(entry_svs(ctx@) =~= Seq::<(Seq<char>, SValue)>::empty());
    match page_yaml {
        Some(p) => obj_insert_exec(&mut ctx, "page".to_string(), yaml_mapping_to_object(p)),
        None => {},
    }
    match site_yaml {
        Some(s) => obj_insert_exec(&mut ctx, "site".to_string(), yaml_mapping_to_object(s)),
        None => {},
    }
    object_of(ctx)
}

/// Index of the first front-matter entry named `k`.
pub open spec fn first_named(fm: Seq<(String, Yaml)>, k: Seq<char>) -> Option<int> {
    if exists|i: int| 0 <= i < fm.len() && #[trigger] fm[i].0@ == k {
        Some(choose|i: int| 0 <= i < fm.len() && #[trigger] fm[i].0@ == k && forall|j: int| 0 <= j < i ==> fm[j].0@ != k)
    } else {
        None
    }
}

/// Expands the front matter's `date` string to the full time Jekyll renders
/// (in the site zone); any other `date` value, or none, is left alone.
pub fn normalize_frontmatter_date(front_matter: &mut Vec<(String, Yaml)>, site_tz: Option<&str>)
    ensures
        final(front_matter)@.len() == old(front_matter)@.len(),
        forall|j: int| 0 <= j < old(front_matter)@.len() ==> #[trigger] final(front_matter)@[j].0 == old(front_matter)@[j].0,
        match first_named(old(front_matter)@, "date"@) {
            Some(i) => match old(front_matter)@[i].1 {
                Yaml::Str(d) => {
                    &&& forall|j: int| 0 <= j < old(front_matter)@.len() && j != i ==> #[trigger] final(front_matter)@[j] == old(front_matter)@[j]
                    &&& (final(front_matter)@[i].1 matches Yaml::Str(e) && e@ == crate::filters::dates::expanded_date(d@, site_tz))
                },
                _ => final(front_matter)@ == old(front_matter)@,
            },
            None => final(front_matter)@ == old(front_matter)@,
        },
{
    let key = str_to_chars("date");
    let mut i: usize = 0;
    while i < front_matter.len()
        invariant
            i <= front_matter.len(),
            key@ == "date"@,
            front_matter@ == old(front_matter)@,
            forall|j: int| 0 <= j < i ==> front_matter@[j].0@ != "date"@,
        decreases front_matter.len() - i,
    {
        if vec_eq(&str_to_chars(front_matter[i].0.as_str()), &key) {
            proof {
                assert(exists|x: int| 0 <= x < front_matter@.len() && #[trigger] front_matter@[x].0@ == "date"@) by {
                    assert(front_matter@[i as int].0@ == "date"@);
                }
                let c = choose|x: int| 0 <= x < front_matter@.len() && #[trigger] front_matter@[x].0@ == "date"@ && forall|j: int| 0 <= j < x ==> front_matter@[j].0@ != "date"@;
                assert(front_matter@[i as int].0@ == "date"@ && forall|j: int| 0 <= j < i ==> front_matter@[j].0@ != "date"@);
                if c < i {
                } else if c > i {
                }
                assert(c == i);
            }
            let expanded = match &front_matter[i].1 {
                Yaml::Str(d) => Some(crate::filters::dates::expand_date_only_string_with_tz(d.as_str(), site_tz)),
                _ => None,
            };
            match expanded {
                Some(e) => {
                    let name = front_matter[i].0.clone();
                    front_matter.set(i, (name, Yaml::Str(e)));
                },
                None => {},
            }
            return;
        }
        i += 1;
    }
    proof {
        if exists|x: int| 0 <= x < front_matter@.len() && #[trigger] front_matter@[x].0@ == "date"@ {
            let x = choose|x: int| 0 <= x < front_matter@.len() && #[trigger] front_matter@[x].0@ == "date"@;
            assert(false);
        }
    }
}

} // verus!
