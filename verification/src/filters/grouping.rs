//! `group_by` and `group_by_exp`: items gathered under the text of a key.
use vstd::prelude::*;
use crate::filters::collections::{array_of, lemma_array_sv, views};
use crate::text::{chars_to_string, slice, str_to_chars, vec_eq};
use crate::value::{property, rendered, svs, SValue, Value};

verus! {

// ---------------------------------------------------------------------------
// Specifications
// ---------------------------------------------------------------------------

/// Strict lexicographic order on character sequences (the order of `String`).
pub open spec fn seq_lt(a: Seq<char>, b: Seq<char>) -> bool
    decreases a.len(),
{
    if b.len() == 0 {
        false
    } else if a.len() == 0 {
        true
    } else if a[0] != b[0] {
        a[0] < b[0]
    } else {
        seq_lt(a.drop_first(), b.drop_first())
    }
}

/// The key `group_by` files an item under: its property rendered, or empty.
pub open spec fn item_key(v: SValue, p: Seq<char>) -> Seq<char> {
    match property(v, p) {
        Some(x) => rendered(x),
        None => Seq::empty(),
    }
}

/// The keys of all items.
pub open spec fn item_keys(items: Seq<SValue>, p: Seq<char>) -> Seq<Seq<char>> {
    Seq::new(items.len(), |i: int| item_key(items[i], p))
}

/// The items whose key is `name`, in the order they came.
pub open spec fn group_items(items: Seq<SValue>, keys: Seq<Seq<char>>, name: Seq<char>) -> Seq<
    SValue,
>
    decreases items.len(),
{
    if items.len() == 0 || keys.len() == 0 {
        Seq::empty()
    } else {
        let rest = group_items(items.drop_last(), keys.drop_last(), name);
        if keys.last() == name {
            rest.push(items.last())
        } else {
            rest
        }
    }
}

/// One group: its `name`, its `items` and their number as `size`.
pub open spec fn group_object(name: Seq<char>, members: Seq<SValue>) -> SValue {
    SValue::Object(
        seq![
            ("name"@, SValue::Str(name)),
            ("items"@, SValue::Array(members)),
            ("size"@, SValue::Int(members.len() as int)),
        ],
    )
}

/// The groups for the given names, in the order of the names.
pub open spec fn groups_for(items: Seq<SValue>, keys: Seq<Seq<char>>, names: Seq<Seq<char>>) -> Seq<
    SValue,
> {
    Seq::new(names.len(), |i: int| group_object(names[i], group_items(items, keys, names[i])))
}

/// The distinct keys in the order they first appear.
pub open spec fn first_appearances(keys: Seq<Seq<char>>) -> Seq<Seq<char>>
    decreases keys.len(),
{
    if keys.len() == 0 {
        Seq::empty()
    } else {
        let rest = first_appearances(keys.drop_last());
        if rest.contains(keys.last()) {
            rest
        } else {
            rest.push(keys.last())
        }
    }
}

/// `k` placed into the ordered sequence `s` unless it is already there.
pub open spec fn insert_sorted(s: Seq<Seq<char>>, k: Seq<char>) -> Seq<Seq<char>>
    decreases s.len(),
{
    if s.len() == 0 {
        seq![k]
    } else if s[0] == k {
        s
    } else if seq_lt(k, s[0]) {
        seq![k] + s
    } else {
        seq![s[0]] + insert_sorted(s.drop_first(), k)
    }
}

/// The distinct keys in increasing order.
pub open spec fn sorted_distinct(keys: Seq<Seq<char>>) -> Seq<Seq<char>>
    decreases keys.len(),
{
    if keys.len() == 0 {
        Seq::empty()
    } else {
        insert_sorted(sorted_distinct(keys.drop_last()), keys.last())
    }
}

/// Each element strictly precedes the next.
pub open spec fn strictly_sorted(s: Seq<Seq<char>>) -> bool {
    forall|i: int, j: int| 0 <= i < j < s.len() ==> seq_lt(#[trigger] s[i], #[trigger] s[j])
}

// ---------------------------------------------------------------------------
// Order lemmas
// ---------------------------------------------------------------------------

pub proof fn lemma_seq_lt_irreflexive(a: Seq<char>)
    ensures
        !seq_lt(a, a),
    decreases a.len(),
{
    if a.len() > 0 {
        lemma_seq_lt_irreflexive(a.drop_first());
    }
}

pub proof fn lemma_seq_lt_total(a: Seq<char>, b: Seq<char>)
    ensures
        seq_lt(a, b) || a == b || seq_lt(b, a),
    decreases a.len(),
{
    if a.len() > 0 && b.len() > 0 && a[0] == b[0] {
        lemma_seq_lt_total(a.drop_first(), b.drop_first());
        if a.drop_first() == b.drop_first() {
            assert(a =~= seq![a[0]] + a.drop_first());
            assert(b =~= seq![b[0]] + b.drop_first());
        }
    } else if a.len() == 0 && b.len() == 0 {
        assert(a =~= b);
    }
}

pub proof fn lemma_seq_lt_asymmetric(a: Seq<char>, b: Seq<char>)
    requires
        seq_lt(a, b),
    ensures
        !seq_lt(b, a),
    decreases a.len(),
{
    if a.len() > 0 && b.len() > 0 && a[0] == b[0] {
        lemma_seq_lt_asymmetric(a.drop_first(), b.drop_first());
    }
}

pub proof fn lemma_seq_lt_transitive(a: Seq<char>, b: Seq<char>, c: Seq<char>)
    requires
        seq_lt(a, b),
        seq_lt(b, c),
    ensures
        seq_lt(a, c),
    decreases a.len(),
{
    if a.len() > 0 && b.len() > 0 && c.len() > 0 && a[0] == b[0] && b[0] == c[0] {
        lemma_seq_lt_transitive(a.drop_first(), b.drop_first(), c.drop_first());
    }
}

/// Inserting at the first position whose element does not precede `k`.
proof fn lemma_insert_at(s: Seq<Seq<char>>, k: Seq<char>, j: int)
    requires
        0 <= j <= s.len(),
        forall|i: int| 0 <= i < j ==> seq_lt(#[trigger] s[i], k),
        j == s.len() || !seq_lt(s[j], k),
    ensures
        insert_sorted(s, k) == if j < s.len() && s[j] == k {
            s
        } else {
            s.take(j) + seq![k] + s.skip(j)
        },
    decreases j,
{
    if j == 0 {
        if s.len() > 0 && s[0] != k {
            lemma_seq_lt_total(s[0], k);
        }
        assert(s.skip(0) =~= s);
        assert(s.take(0) + seq![k] + s.skip(0) =~= seq![k] + s);
    } else {
        let t = s.drop_first();
        assert forall|i: int| 0 <= i < j - 1 implies seq_lt(#[trigger] t[i], k) by {
            assert(t[i] == s[i + 1]);
        }
        lemma_insert_at(t, k, j - 1);
        lemma_seq_lt_irreflexive(k);
        assert(seq_lt(s[0], k));
        lemma_seq_lt_asymmetric(s[0], k);
        if j < s.len() && s[j] == k {
            assert(seq![s[0]] + t =~= s);
        } else {
            assert(seq![s[0]] + (t.take(j - 1) + seq![k] + t.skip(j - 1)) =~= s.take(j) + seq![k]
                + s.skip(j));
        }
    }
}

// ---------------------------------------------------------------------------
// Laws
// ---------------------------------------------------------------------------

proof fn lemma_insert_sorted_props(s: Seq<Seq<char>>, k: Seq<char>)
    requires
        strictly_sorted(s),
    ensures
        strictly_sorted(insert_sorted(s, k)),
        forall|x: Seq<char>| #[trigger] insert_sorted(s, k).contains(x) <==> (s.contains(x) || x == k),
    decreases s.len(),
{
    let r = insert_sorted(s, k);
    if s.len() == 0 {
        assert forall|x: Seq<char>| r.contains(x) <==> (s.contains(x) || x == k) by {
            if r.contains(x) {
                assert(r[0] == k);
            }
            if x == k {
                assert(r[0] == x);
            }
        }
    } else if s[0] == k {
        assert forall|x: Seq<char>| r.contains(x) <==> (s.contains(x) || x == k) by {
            if x == k {
                assert(s[0] == x);
            }
        }
    } else if seq_lt(k, s[0]) {
        assert forall|i: int, j: int| 0 <= i < j < r.len() implies seq_lt(
            #[trigger] r[i],
            #[trigger] r[j],
        ) by {
            if i == 0 {
                assert(r[j] == s[j - 1]);
                if j - 1 > 0 {
                    assert(seq_lt(s[0], s[j - 1]));
                    lemma_seq_lt_transitive(k, s[0], s[j - 1]);
                }
            } else {
                assert(r[i] == s[i - 1] && r[j] == s[j - 1]);
            }
        }
        assert forall|x: Seq<char>| r.contains(x) <==> (s.contains(x) || x == k) by {
            if r.contains(x) {
                let i = choose|i: int| 0 <= i < r.len() && r[i] == x;
                if i > 0 {
                    assert(s[i - 1] == x);
                }
            }
            if s.contains(x) {
                let i = choose|i: int| 0 <= i < s.len() && s[i] == x;
                assert(r[i + 1] == x);
            }
            if x == k {
                assert(r[0] == x);
            }
        }
    } else {
        let t = s.drop_first();
        assert forall|i: int, j: int| 0 <= i < j < t.len() implies seq_lt(
            #[trigger] t[i],
            #[trigger] t[j],
        ) by {
            assert(t[i] == s[i + 1] && t[j] == s[j + 1]);
        }
        lemma_insert_sorted_props(t, k);
        let rt = insert_sorted(t, k);
        assert(r == seq![s[0]] + rt);
        lemma_seq_lt_total(s[0], k);
        assert forall|i: int, j: int| 0 <= i < j < r.len() implies seq_lt(
            #[trigger] r[i],
            #[trigger] r[j],
        ) by {
            if i == 0 {
                assert(r[j] == rt[j - 1]);
                assert(rt.contains(rt[j - 1]));
                if rt[j - 1] != k {
                    assert(t.contains(rt[j - 1]));
                    let m = choose|m: int| 0 <= m < t.len() && t[m] == rt[j - 1];
                    assert(s[m + 1] == t[m]);
                    assert(seq_lt(s[0], s[m + 1]));
                }
            } else {
                assert(r[i] == rt[i - 1] && r[j] == rt[j - 1]);
            }
        }
        assert forall|x: Seq<char>| r.contains(x) <==> (s.contains(x) || x == k) by {
            if r.contains(x) {
                let i = choose|i: int| 0 <= i < r.len() && r[i] == x;
                if i > 0 {
                    assert(rt[i - 1] == x);
                    assert(rt.contains(x));
                    if t.contains(x) {
                        let m = choose|m: int| 0 <= m < t.len() && t[m] == x;
                        assert(s[m + 1] == x);
                    }
                } else {
                    assert(s[0] == x);
                }
            }
            if s.contains(x) {
                let i = choose|i: int| 0 <= i < s.len() && s[i] == x;
                if i > 0 {
                    assert(t[i - 1] == x);
                    assert(t.contains(x));
                    assert(insert_sorted(t, k).contains(x));
                    let m = choose|m: int| 0 <= m < rt.len() && rt[m] == x;
                    assert(r[m + 1] == x);
                } else {
                    assert(r[0] == x);
                }
            }
            if x == k {
                assert(insert_sorted(t, k).contains(x));
                let m = choose|m: int| 0 <= m < rt.len() && rt[m] == x;
                assert(r[m + 1] == x);
            }
        }
    }
}

/// `group_by` names its groups in strictly increasing order, and a text is
/// the name of a group exactly when it is the key of some item.
pub proof fn lemma_sorted_distinct(keys: Seq<Seq<char>>)
    ensures
        strictly_sorted(sorted_distinct(keys)),
        forall|x: Seq<char>| sorted_distinct(keys).contains(x) <==> keys.contains(x),
    decreases keys.len(),
{
    if keys.len() > 0 {
        let rest = keys.drop_last();
        lemma_sorted_distinct(rest);
        lemma_insert_sorted_props(sorted_distinct(rest), keys.last());
        assert forall|x: Seq<char>| sorted_distinct(keys).contains(x) <==> keys.contains(x) by {
            if rest.contains(x) {
                let i = choose|i: int| 0 <= i < rest.len() && rest[i] == x;
                assert(keys[i] == x);
            }
            if keys.contains(x) {
                let i = choose|i: int| 0 <= i < keys.len() && keys[i] == x;
                if i < keys.len() - 1 {
                    assert(rest[i] == x);
                }
            }
        }
    }
}

/// `group_by_exp` names each distinct key once, in order of first appearance.
pub proof fn lemma_first_appearances(keys: Seq<Seq<char>>)
    ensures
        first_appearances(keys).no_duplicates(),
        forall|x: Seq<char>| first_appearances(keys).contains(x) <==> keys.contains(x),
    decreases keys.len(),
{
    if keys.len() > 0 {
        let rest = keys.drop_last();
        lemma_first_appearances(rest);
        let fr = first_appearances(rest);
        assert forall|x: Seq<char>| first_appearances(keys).contains(x) <==> keys.contains(x) by {
            if rest.contains(x) {
                let i = choose|i: int| 0 <= i < rest.len() && rest[i] == x;
                assert(keys[i] == x);
            }
            if keys.contains(x) {
                let i = choose|i: int| 0 <= i < keys.len() && keys[i] == x;
                if i < keys.len() - 1 {
                    assert(rest[i] == x);
                }
            }
            if !fr.contains(keys.last()) && x == keys.last() {
                assert(fr.push(x)[fr.len() as int] == x);
            }
            if !fr.contains(keys.last()) && fr.push(keys.last()).contains(x) && x != keys.last() {
                let i = choose|i: int| 0 <= i < fr.len() + 1 && fr.push(keys.last())[i] == x;
                assert(fr[i] == x);
            }
            if !fr.contains(keys.last()) && fr.contains(x) {
                let i = choose|i: int| 0 <= i < fr.len() && fr[i] == x;
                assert(fr.push(keys.last())[i] == x);
            }
        }
    }
}

proof fn lemma_group_items_len(items: Seq<SValue>, keys: Seq<Seq<char>>, name: Seq<char>)
    ensures
        group_items(items, keys, name).len() <= items.len(),
    decreases items.len(),
{
    if items.len() > 0 && keys.len() > 0 {
        lemma_group_items_len(items.drop_last(), keys.drop_last(), name);
    }
}

/// The number of items in the groups for `names`, added up.
pub open spec fn group_total(items: Seq<SValue>, keys: Seq<Seq<char>>, names: Seq<Seq<char>>) -> nat
    decreases names.len(),
{
    if names.len() == 0 {
        0
    } else {
        group_total(items, keys, names.drop_last()) + group_items(items, keys, names.last()).len()
    }
}

/// How many of the keys are among `names`.
pub open spec fn covered(keys: Seq<Seq<char>>, names: Seq<Seq<char>>) -> nat
    decreases keys.len(),
{
    if keys.len() == 0 {
        0
    } else {
        covered(keys.drop_last(), names) + if names.contains(keys.last()) {
            1nat
        } else {
            0nat
        }
    }
}

proof fn lemma_group_total_empty(items: Seq<SValue>, keys: Seq<Seq<char>>, names: Seq<Seq<char>>)
    requires
        items.len() == 0 || keys.len() == 0,
    ensures
        group_total(items, keys, names) == 0,
    decreases names.len(),
{
    if names.len() > 0 {
        lemma_group_total_empty(items, keys, names.drop_last());
    }
}

/// Taking the last item away takes one away from the total exactly when
/// its key is among the names.
proof fn lemma_group_total_step(items: Seq<SValue>, keys: Seq<Seq<char>>, names: Seq<Seq<char>>)
    requires
        items.len() > 0,
        keys.len() > 0,
        names.no_duplicates(),
    ensures
        group_total(items, keys, names) == group_total(items.drop_last(), keys.drop_last(), names)
            + if names.contains(keys.last()) {
            1nat
        } else {
            0nat
        },
    decreases names.len(),
{
    if names.len() > 0 {
        let init = names.drop_last();
        assert(init.no_duplicates()) by {
            assert forall|i: int, j: int| 0 <= i < init.len() && 0 <= j < init.len() && i != j implies init[i] != init[j] by {
                assert(init[i] == names[i] && init[j] == names[j]);
            }
        }
        lemma_group_total_step(items, keys, init);
        let n = names.last();
        assert(names =~= init.push(n));
        assert(names.contains(keys.last()) <==> (init.contains(keys.last()) || n == keys.last())) by {
            if names.contains(keys.last()) && n != keys.last() {
                let i = choose|i: int| 0 <= i < names.len() && names[i] == keys.last();
                assert(init[i] == keys.last());
            }
            if init.contains(keys.last()) {
                let i = choose|i: int| 0 <= i < init.len() && init[i] == keys.last();
                assert(names[i] == keys.last());
            }
            if n == keys.last() {
                assert(names[names.len() - 1] == keys.last());
            }
        }
        if init.contains(keys.last()) && n == keys.last() {
            let i = choose|i: int| 0 <= i < init.len() && init[i] == keys.last();
            assert(names[i] == names[names.len() - 1]);
        }
    }
}

/// With distinct names, the groups hold as many items as there are keys
/// among the names.
proof fn lemma_group_total_covered(items: Seq<SValue>, keys: Seq<Seq<char>>, names: Seq<Seq<char>>)
    requires
        items.len() == keys.len(),
        names.no_duplicates(),
    ensures
        group_total(items, keys, names) == covered(keys, names),
    decreases items.len(),
{
    if items.len() == 0 {
        lemma_group_total_empty(items, keys, names);
    } else {
        lemma_group_total_covered(items.drop_last(), keys.drop_last(), names);
        lemma_group_total_step(items, keys, names);
    }
}

proof fn lemma_covered_all(keys: Seq<Seq<char>>, names: Seq<Seq<char>>)
    requires
        forall|x: Seq<char>| keys.contains(x) ==> names.contains(x),
    ensures
        covered(keys, names) == keys.len(),
    decreases keys.len(),
{
    if keys.len() > 0 {
        let init = keys.drop_last();
        assert forall|x: Seq<char>| init.contains(x) implies names.contains(x) by {
            let i = choose|i: int| 0 <= i < init.len() && init[i] == x;
            assert(keys[i] == x);
        }
        lemma_covered_all(init, names);
        assert(keys.contains(keys.last())) by {
            assert(keys[keys.len() - 1] == keys.last());
        }
    }
}

/// Groups named by distinct names that include every key hold every item
/// exactly once: their sizes add up to the number of items.
pub proof fn lemma_groups_partition(items: Seq<SValue>, keys: Seq<Seq<char>>, names: Seq<Seq<char>>)
    requires
        items.len() == keys.len(),
        names.no_duplicates(),
        forall|x: Seq<char>| keys.contains(x) ==> names.contains(x),
    ensures
        group_total(items, keys, names) == items.len(),
{
    lemma_group_total_covered(items, keys, names);
    lemma_covered_all(keys, names);
}

/// `group_by` files every item in exactly one group: the group sizes add up
/// to the number of items.
pub proof fn lemma_group_by_keeps_every_item(items: Seq<SValue>, p: Seq<char>)
    ensures
        group_total(items, item_keys(items, p), sorted_distinct(item_keys(items, p))) == items.len(),
{
    let keys = item_keys(items, p);
    let names = sorted_distinct(keys);
    lemma_sorted_distinct(keys);
    assert(names.no_duplicates()) by {
        assert forall|i: int, j: int| 0 <= i < names.len() && 0 <= j < names.len() && i != j implies names[i] != names[j] by {
            if i < j {
                assert(seq_lt(names[i], names[j]));
                lemma_seq_lt_irreflexive(names[i]);
            } else {
                assert(seq_lt(names[j], names[i]));
                lemma_seq_lt_irreflexive(names[j]);
            }
        }
    }
    lemma_groups_partition(items, keys, names);
}

/// `group_by_exp` files every item in exactly one group: the group sizes
/// add up to the number of items.
pub proof fn lemma_group_by_exp_keeps_every_item(items: Seq<SValue>, keys: Seq<Seq<char>>)
    requires
        keys.len() == items.len(),
    ensures
        group_total(items, keys, first_appearances(keys)) == items.len(),
{
    lemma_first_appearances(keys);
    lemma_groups_partition(items, keys, first_appearances(keys));
}

// ---------------------------------------------------------------------------
// Executable parts
// ---------------------------------------------------------------------------

/// Whether `a` strictly precedes `b`.
pub fn lex_lt(a: &Vec<char>, b: &Vec<char>) -> (r: bool)
    ensures
        r == seq_lt(a@, b@),
{
    let mut i: usize = 0;
    assert(a@.skip(0) =~= a@ && b@.skip(0) =~= b@);
    while i < a.len() && i < b.len() && a[i] == b[i]
        invariant
            i <= a.len(),
            i <= b.len(),
            seq_lt(a@, b@) == seq_lt(a@.skip(i as int), b@.skip(i as int)),
        decreases a.len() - i,
    {
        assert(a@.skip(i as int).drop_first() =~= a@.skip(i + 1));
        assert(b@.skip(i as int).drop_first() =~= b@.skip(i + 1));
        i += 1;
    }
    if i == b.len() {
        false
    } else if i == a.len() {
        true
    } else {
        a[i] < b[i]
    }
}

/// The key of one item.
pub fn key_of(item: &Value, p: &Vec<char>) -> (r: Vec<char>)
    ensures
        r@ == item_key(item.sv(), p@),
{
    match item.get_property(p) {
        Some(v) => v.render_chars(),
        None => Vec::new(),
    }
}

/// Places `k` into the ordered `names` unless it is already there.
pub fn insert_name(names: &mut Vec<Vec<char>>, k: Vec<char>)
    ensures
        views(final(names)@) == insert_sorted(views(old(names)@), k@),
{
    let ghost s = views(names@);
    let mut j: usize = 0;
    while j < names.len() && lex_lt(&names[j], &k)
        invariant
            j <= names.len(),
            s == views(names@),
            forall|i: int| 0 <= i < j ==> seq_lt(#[trigger] s[i], k@),
        decreases names.len() - j,
    {
        j += 1;
    }
    proof {
        lemma_insert_at(s, k@, j as int);
    }
    if j < names.len() && vec_eq(&names[j], &k) {
        return;
    }
    let ghost kv = k@;
    names.insert(j, k);
    assert(views(names@) =~= s.take(j as int) + seq![kv] + s.skip(j as int));
}

/// The items whose key is `name`, in order.
pub fn collect_group(items: &Vec<Value>, keys: &Vec<Vec<char>>, name: &Vec<char>) -> (r: Vec<Value>)
    requires
        keys.len() == items.len(),
    ensures
        svs(r@) == group_items(svs(items@), views(keys@), name@),
{
    let ghost all = svs(items@);
    let ghost ks = views(keys@);
    let mut out: Vec<Value> = Vec::new();
    let mut i: usize = 0;
    while i < items.len()
        invariant
            i <= items.len(),
            keys.len() == items.len(),
            all == svs(items@),
            ks == views(keys@),
            svs(out@) == group_items(all.take(i as int), ks.take(i as int), name@),
        decreases items.len() - i,
    {
        assert(all.take(i + 1).drop_last() =~= all.take(i as int));
        assert(ks.take(i + 1).drop_last() =~= ks.take(i as int));
        let ghost before = svs(out@);
        if vec_eq(&keys[i], name) {
            let d = items[i].duplicate();
            out.push(d);
            assert(svs(out@) =~= before.push(d.sv()));
        }
        i += 1;
    }
    assert(all.take(items.len() as int) =~= all);
    assert(ks.take(items.len() as int) =~= ks);
    out
}

/// One group as an object with `name`, `items` and `size`.
pub fn make_group(name: &Vec<char>, members: Vec<Value>) -> (r: Value)
    requires
        members.len() <= i64::MAX,
    ensures
        r.sv() == group_object(name@, svs(members@)),
{
    let n = members.len() as i64;
    let ghost m = svs(members@);
    let items = array_of(members);
    let k0 = "name".to_string();
    let k1 = "items".to_string();
    let k2 = "size".to_string();
    let v0 = Value::Str(chars_to_string(name));
    let v2 = Value::Int(n);
    assert(v0.sv() == SValue::Str(name@));
    assert(v2.sv() == SValue::Int(m.len() as int));
    let ghost items_sv = items.sv();
    let entries: Vec<(String, Value)> = vec![(k0, v0), (k1, items), (k2, v2)];
    assert(entries@[0].0@ == "name"@ && entries@[0].1.sv() == SValue::Str(name@));
    assert(entries@[1].0@ == "items"@ && entries@[1].1.sv() == SValue::Array(m));
    assert(entries@[2].0@ == "size"@ && entries@[2].1.sv() == SValue::Int(m.len() as int));
    let r = Value::Object(entries);
    proof {
        let e = match r.sv() {
            SValue::Object(x) => x,
            _ => Seq::empty(),
        };
        let want = match group_object(name@, m) {
            SValue::Object(x) => x,
            _ => Seq::empty(),
        };
        assert(e =~= want);
    }
    r
}

/// The groups for `names`, in order.
fn build_groups(items: &Vec<Value>, keys: &Vec<Vec<char>>, names: &Vec<Vec<char>>) -> (r: Vec<Value>)
    requires
        keys.len() == items.len(),
        items.len() <= i64::MAX,
    ensures
        svs(r@) == groups_for(svs(items@), views(keys@), views(names@)),
{
    let mut out: Vec<Value> = Vec::new();
    let mut i: usize = 0;
    while i < names.len()
        invariant
            i <= names.len(),
            keys.len() == items.len(),
            items.len() <= i64::MAX,
            svs(out@) == groups_for(svs(items@), views(keys@), views(names@)).take(i as int),
        decreases names.len() - i,
    {
        let members = collect_group(items, keys, &names[i]);
        proof {
            lemma_group_items_len(svs(items@), views(keys@), names@[i as int]@);
        }
        let g = make_group(&names[i], members);
        let ghost before = svs(out@);
        out.push(g);
        assert(svs(out@) =~= before.push(g.sv()));
        assert(svs(out@) =~= groups_for(svs(items@), views(keys@), views(names@)).take(i + 1));
        i += 1;
    }
    assert(groups_for(svs(items@), views(keys@), views(names@)).take(names.len() as int)
        =~= groups_for(svs(items@), views(keys@), views(names@)));
    out
}

/// The `group_by` filter.
pub struct GroupBy;

impl GroupBy {
    /// Groups the items of an array by the rendered value of `property`
    /// (empty where an item has none); the groups come in increasing order of
    /// name. Input that is not an array gives an empty array.
    pub fn evaluate(&self, input: &Value, property: &str) -> (r: Value)
        requires
            match input.sv() {
                SValue::Array(items) => items.len() <= i64::MAX,
                _ => true,
            },
        ensures
            r.sv() == match input.sv() {
                SValue::Array(items) => SValue::Array(
                    groups_for(
                        items,
                        item_keys(items, property@),
                        sorted_distinct(item_keys(items, property@)),
                    ),
                ),
                _ => SValue::Array(Seq::empty()),
            },
    {
        match input {
            Value::Array(items) => {
                let ghost all = svs(items@);
                proof { lemma_array_sv(input, items); }
                let p = str_to_chars(property);
                let ghost ks = item_keys(all, property@);
                let mut keys: Vec<Vec<char>> = Vec::new();
                let mut names: Vec<Vec<char>> = Vec::new();
                let mut i: usize = 0;
                while i < items.len()
                    invariant
                        i <= items.len(),
                        p@ == property@,
                        all == svs(items@),
                        ks == item_keys(all, property@),
                        views(keys@) == ks.take(i as int),
                        views(names@) == sorted_distinct(ks.take(i as int)),
                    decreases items.len() - i,
                {
                    assert(ks.take(i + 1).drop_last() =~= ks.take(i as int));
                    let k = key_of(&items[i], &p);
                    let k2 = slice(&k, 0, k.len());
                    assert(k2@ =~= k@);
                    let ghost before = views(keys@);
                    keys.push(k);
                    assert(views(keys@) =~= before.push(k2@));
                    assert(views(keys@) =~= ks.take(i + 1));
                    insert_name(&mut names, k2);
                    i += 1;
                }
                assert(ks.take(items.len() as int) =~= ks);
                let groups = build_groups(items, &keys, &names);
                assert(svs(groups@) == groups_for(all, ks, sorted_distinct(ks)));
                let r = array_of(groups);
                assert(r.sv() == SValue::Array(groups_for(all, ks, sorted_distinct(ks))));
                r
            },
            _ => {
                let e: Vec<Value> = Vec::new();
                assert(svs(e@) =~= Seq::<SValue>::empty());
                array_of(e)
            },
        }
    }
}

/// The `group_by_exp` filter, given the text each item's expression
/// rendered to.
pub struct GroupByExp;

/// The views of a sequence of strings.
pub open spec fn string_views(v: Seq<String>) -> Seq<Seq<char>> {
    Seq::new(v.len(), |i: int| v[i]@)
}

impl GroupByExp {
    /// Groups the items of an array by `keys[i]`, the text the grouping
    /// expression rendered to for item `i`; the groups come in order of first
    /// appearance. Input that is not an array gives an empty array.
    pub fn evaluate(&self, input: &Value, keys: &Vec<String>) -> (r: Value)
        requires
            match input.sv() {
                SValue::Array(items) => keys.len() == items.len() && items.len() <= i64::MAX,
                _ => true,
            },
        ensures
            r.sv() == match input.sv() {
                SValue::Array(items) => SValue::Array(
                    groups_for(
                        items,
                        string_views(keys@),
                        first_appearances(string_views(keys@)),
                    ),
                ),
                _ => SValue::Array(Seq::empty()),
            },
    {
        match input {
            Value::Array(items) => {
                let ghost all = svs(items@);
                proof { lemma_array_sv(input, items); }
                let ghost ks = string_views(keys@);
                let mut kv: Vec<Vec<char>> = Vec::new();
                let mut names: Vec<Vec<char>> = Vec::new();
                let mut i: usize = 0;
                while i < keys.len()
                    invariant
                        i <= keys.len(),
                        ks == string_views(keys@),
                        views(kv@) == ks.take(i as int),
                        views(names@) == first_appearances(ks.take(i as int)),
                    decreases keys.len() - i,
                {
                    assert(ks.take(i + 1).drop_last() =~= ks.take(i as int));
                    let k = str_to_chars(keys[i].as_str());
                    let k2 = slice(&k, 0, k.len());
                    assert(k2@ =~= k@);
                    let ghost before = views(kv@);
                    kv.push(k);
                    assert(views(kv@) =~= before.push(k2@));
                    assert(views(kv@) =~= ks.take(i + 1));
                    let ghost fa = views(names@);
                    let mut j: usize = 0;
                    let mut seen = false;
                    while j < names.len()
                        invariant
                            j <= names.len(),
                            fa == views(names@),
                            seen == (exists|m: int| 0 <= m < j && fa[m] == k2@),
                        decreases names.len() - j,
                    {
                        if vec_eq(&names[j], &k2) {
                            seen = true;
                            assert(fa[j as int] == k2@);
                        } else {
                            assert(fa[j as int] != k2@);
                        }
                        j += 1;
                    }
                    assert(seen == fa.contains(k2@));
                    if !seen {
                        let ghost nv = k2@;
                        names.push(k2);
                        assert(views(names@) =~= fa.push(nv));
                    }
                    i += 1;
                }
                assert(ks.take(keys.len() as int) =~= ks);
                let groups = build_groups(items, &kv, &names);
                assert(svs(groups@) == groups_for(all, ks, first_appearances(ks)));
                let r = array_of(groups);
                r
            },
            _ => {
                let e: Vec<Value> = Vec::new();
                assert(svs(e@) =~= Seq::<SValue>::empty());
                array_of(e)
            },
        }
    }
}

} // verus!
