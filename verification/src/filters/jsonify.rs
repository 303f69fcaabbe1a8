//! `jsonify`: a value written as JSON, objects in their YAML key order.
use vstd::prelude::*;
use crate::filters::collections::{joined, lemma_array_sv};
use crate::filters::grouping::{
    lemma_seq_lt_asymmetric, lemma_seq_lt_total, lemma_seq_lt_transitive, lex_lt, seq_lt,
};
use crate::outside::{json_quote, json_quoted};
use crate::text::{chars_to_string, push_all, slice, str_to_chars, vec_eq};
use crate::value::{i64_text, int_text, lookup, rendered, svs, SValue, Value};

verus! {

/// The key under which an object records its YAML key order.
pub open spec fn key_order_field() -> Seq<char> {
    "__key_order"@
}

/// JSON text of a value. Floats are written as the text they hold.
pub open spec fn json_value(v: SValue) -> Seq<char>
    decreases v,
{
    match v {
        SValue::Nil => "null"@,
        SValue::Bool(b) => if b {
            "true"@
        } else {
            "false"@
        },
        SValue::Int(i) => int_text(i),
        SValue::Float(t) => t,
        SValue::Str(s) => json_quoted(s),
        SValue::Array(items) => seq!['['] + joined(json_items(items), seq![',']) + seq![']'],
        SValue::Object(entries) => object_json(entries, json_entries(entries)),
    }
}

/// JSON texts of the items.
pub open spec fn json_items(items: Seq<SValue>) -> Seq<Seq<char>>
    decreases items,
{
    if items.len() == 0 {
        Seq::empty()
    } else {
        proof {
            assert(decreases_to!(items => items[0]));
        }
        seq![json_value(items[0])] + json_items(items.drop_first())
    }
}

/// Each entry's key with the JSON text of its value.
pub open spec fn json_entries(entries: Seq<(Seq<char>, SValue)>) -> Seq<(Seq<char>, Seq<char>)>
    decreases entries,
{
    if entries.len() == 0 {
        Seq::empty()
    } else {
        proof {
            assert(decreases_to!(entries => entries[0]));
            assert(decreases_to!(entries[0] => entries[0].1));
        }
        seq![(entries[0].0, json_value(entries[0].1))] + json_entries(entries.drop_first())
    }
}

/// The text stored under `k`: the first pair with that key.
pub open spec fn text_of(texts: Seq<(Seq<char>, Seq<char>)>, k: Seq<char>) -> Option<Seq<char>>
    decreases texts.len(),
{
    if texts.len() == 0 {
        None
    } else if texts[0].0 == k {
        Some(texts[0].1)
    } else {
        text_of(texts.drop_first(), k)
    }
}

/// `"key":value` members for the keys, in order, skipping keys the object
/// lacks and, when `skip` holds, `__key_order`.
pub open spec fn members(keys: Seq<Seq<char>>, texts: Seq<(Seq<char>, Seq<char>)>, skip: bool) -> Seq<Seq<char>>
    decreases keys.len(),
{
    if keys.len() == 0 {
        Seq::empty()
    } else {
        let k = keys.last();
        members(keys.drop_last(), texts, skip) + if skip && k == key_order_field() {
            Seq::<Seq<char>>::empty()
        } else {
            match text_of(texts, k) {
                Some(j) => seq![json_quoted(k) + seq![':'] + j],
                None => Seq::empty(),
            }
        }
    }
}

/// `k` placed into the ordered `s` before the first element it does not
/// follow (`Vec::sort` on strings).
pub open spec fn insert_key(s: Seq<Seq<char>>, k: Seq<char>) -> Seq<Seq<char>>
    decreases s.len(),
{
    if s.len() == 0 {
        seq![k]
    } else if !seq_lt(s[0], k) {
        seq![k] + s
    } else {
        seq![s[0]] + insert_key(s.drop_first(), k)
    }
}

/// The keys in increasing order, duplicates kept.
pub open spec fn sorted_keys(keys: Seq<Seq<char>>) -> Seq<Seq<char>>
    decreases keys.len(),
{
    if keys.len() == 0 {
        Seq::empty()
    } else {
        insert_key(sorted_keys(keys.drop_last()), keys.last())
    }
}

/// The keys other than `__key_order` that are not among `listed`, in order.
pub open spec fn unlisted(keys: Seq<Seq<char>>, listed: Seq<Seq<char>>) -> Seq<Seq<char>>
    decreases keys.len(),
{
    if keys.len() == 0 {
        Seq::empty()
    } else {
        let k = keys.last();
        unlisted(keys.drop_last(), listed) + if k == key_order_field() || listed.contains(k) {
            Seq::<Seq<char>>::empty()
        } else {
            seq![k]
        }
    }
}

/// The keys of an object's entries, in order.
pub open spec fn entry_keys(texts: Seq<(Seq<char>, Seq<char>)>) -> Seq<Seq<char>> {
    Seq::new(texts.len(), |i: int| texts[i].0)
}

/// The YAML key order an object records, if any.
pub open spec fn recorded_order(entries: Seq<(Seq<char>, SValue)>) -> Option<Seq<Seq<char>>> {
    match lookup(entries, key_order_field()) {
        Some(SValue::Array(items)) => Some(Seq::new(items.len(), |i: int| rendered(items[i]))),
        _ => None,
    }
}

/// JSON text of an object: members in the recorded key order, then the
/// other keys sorted; all keys sorted when no order is recorded.
pub open spec fn object_json(entries: Seq<(Seq<char>, SValue)>, texts: Seq<(Seq<char>, Seq<char>)>) -> Seq<char> {
    let ms = match recorded_order(entries) {
        Some(order) => members(order, texts, true) + members(
            sorted_keys(unlisted(entry_keys(texts), order)),
            texts,
            true,
        ),
        None => members(sorted_keys(entry_keys(texts)), texts, false),
    };
    seq!['{'] + joined(ms, seq![',']) + seq!['}']
}

/// Each element is at most the ones after it, in the string order.
pub open spec fn sorted_nondecreasing(s: Seq<Seq<char>>) -> bool {
    forall|i: int, j: int| 0 <= i < j < s.len() ==> !seq_lt(#[trigger] s[j], #[trigger] s[i])
}

proof fn lemma_le_transitive(a: Seq<char>, b: Seq<char>, c: Seq<char>)
    requires
        !seq_lt(b, a),
        !seq_lt(c, b),
    ensures
        !seq_lt(c, a),
{
    lemma_seq_lt_total(a, b);
    lemma_seq_lt_total(b, c);
    if seq_lt(c, a) {
        if a == b {
        } else if b == c {
        } else {
            lemma_seq_lt_transitive(a, b, c);
            lemma_seq_lt_asymmetric(a, c);
        }
    }
}

proof fn lemma_insert_key_props(s: Seq<Seq<char>>, k: Seq<char>)
    requires
        sorted_nondecreasing(s),
    ensures
        sorted_nondecreasing(insert_key(s, k)),
        insert_key(s, k).to_multiset() == s.to_multiset().insert(k),
    decreases s.len(),
{
    broadcast use vstd::seq_lib::group_to_multiset_ensures;
    let r = insert_key(s, k);
    if s.len() == 0 {
        assert(r =~= s.push(k));
    } else if !seq_lt(s[0], k) {
        assert(r =~= s.insert(0, k));
        vstd::seq_lib::to_multiset_insert(s, 0, k);
        assert forall|i: int, j: int| 0 <= i < j < r.len() implies !seq_lt(#[trigger] r[j], #[trigger] r[i]) by {
            if i == 0 {
                assert(r[j] == s[j - 1]);
                if j - 1 > 0 {
                    lemma_le_transitive(k, s[0], s[j - 1]);
                }
            } else {
                assert(r[i] == s[i - 1] && r[j] == s[j - 1]);
            }
        }
    } else {
        let t = s.drop_first();
        assert forall|i: int, j: int| 0 <= i < j < t.len() implies !seq_lt(#[trigger] t[j], #[trigger] t[i]) by {
            assert(t[i] == s[i + 1] && t[j] == s[j + 1]);
        }
        lemma_insert_key_props(t, k);
        let rt = insert_key(t, k);
        assert(r =~= rt.insert(0, s[0]));
        vstd::seq_lib::to_multiset_insert(rt, 0, s[0]);
        assert(s =~= t.insert(0, s[0]));
        vstd::seq_lib::to_multiset_insert(t, 0, s[0]);
        assert(r.to_multiset() =~= s.to_multiset().insert(k));
        lemma_seq_lt_total(s[0], k);
        assert forall|i: int, j: int| 0 <= i < j < r.len() implies !seq_lt(#[trigger] r[j], #[trigger] r[i]) by {
            if i == 0 {
                let x = r[j];
                assert(x == rt[j - 1]);
                assert(rt.contains(x));
                assert(rt.to_multiset().count(x) > 0);
                if x == k {
                    lemma_seq_lt_asymmetric(s[0], k);
                } else {
                    assert(t.to_multiset().count(x) > 0);
                    assert(t.contains(x));
                    let m = choose|m: int| 0 <= m < t.len() && t[m] == x;
                    assert(s[m + 1] == x);
                }
            } else {
                assert(r[i] == rt[i - 1] && r[j] == rt[j - 1]);
            }
        }
    }
}

/// The keys of an object without a recorded order come out sorted: in
/// non-decreasing string order, each key as often as it was given.
pub proof fn lemma_sorted_keys(keys: Seq<Seq<char>>)
    ensures
        sorted_nondecreasing(sorted_keys(keys)),
        sorted_keys(keys).to_multiset() == keys.to_multiset(),
    decreases keys.len(),
{
    broadcast use vstd::seq_lib::group_to_multiset_ensures;
    if keys.len() == 0 {
        assert(sorted_keys(keys).to_multiset() =~= keys.to_multiset());
    } else {
        let init = keys.drop_last();
        lemma_sorted_keys(init);
        lemma_insert_key_props(sorted_keys(init), keys.last());
        assert(keys =~= init.push(keys.last()));
    }
}

/// The JSON text of an object: `{`, its members joined by `,`, `}`. With a
/// recorded key order the members are those of the recorded keys in that
/// order, then those of the other keys (never `__key_order`) in sorted order;
/// without one, those of all keys in sorted order, each key as often as it
/// is given.
pub proof fn lemma_object_json_text(entries: Seq<(Seq<char>, SValue)>)
    ensures
        json_value(SValue::Object(entries)) == seq!['{'] + joined(
            match recorded_order(entries) {
                Some(order) => members(order, json_entries(entries), true) + members(
                    sorted_keys(unlisted(entry_keys(json_entries(entries)), order)),
                    json_entries(entries),
                    true,
                ),
                None => members(sorted_keys(entry_keys(json_entries(entries))), json_entries(entries), false),
            },
            seq![','],
        ) + seq!['}'],
        sorted_nondecreasing(sorted_keys(entry_keys(json_entries(entries)))),
        sorted_keys(entry_keys(json_entries(entries))).to_multiset() == entry_keys(json_entries(entries)).to_multiset(),
        forall|order: Seq<Seq<char>>|
            !(#[trigger] unlisted(entry_keys(json_entries(entries)), order)).contains(key_order_field()),
{
    let texts = json_entries(entries);
    let keys = entry_keys(texts);
    lemma_sorted_keys(keys);
    assert forall|order: Seq<Seq<char>>| !(#[trigger] unlisted(keys, order)).contains(key_order_field()) by {
        lemma_unlisted_skips_record(keys, order);
    }
}

/// `unlisted` never yields the key-order record.
proof fn lemma_unlisted_skips_record(keys: Seq<Seq<char>>, listed: Seq<Seq<char>>)
    ensures
        !unlisted(keys, listed).contains(key_order_field()),
    decreases keys.len(),
{
    if keys.len() > 0 {
        lemma_unlisted_skips_record(keys.drop_last(), listed);
        let k = keys.last();
        let a = unlisted(keys.drop_last(), listed);
        let b: Seq<Seq<char>> = if k == key_order_field() || listed.contains(k) {
            Seq::<Seq<char>>::empty()
        } else {
            seq![k]
        };
        assert(unlisted(keys, listed) == a + b);
        if (a + b).contains(key_order_field()) {
            let i = choose|i: int| 0 <= i < (a + b).len() && (a + b)[i] == key_order_field();
            if i < a.len() {
                assert(a[i] == key_order_field());
            } else {
                assert(b[i - a.len()] == key_order_field());
            }
        }
    }
}

/// `jsonify` of an integer is its decimal text, sign included: it reads
/// back as the same integer.
pub proof fn lemma_json_int_reads_back(i: int)
    requires
        i64::MIN <= i <= i64::MAX,
    ensures
        crate::filters::numbers::parsed_i64(json_value(SValue::Int(i))) == Some(i),
{
    crate::filters::numbers::lemma_int_text_reads_back(i);
}

// ---------------------------------------------------------------------------
// Executable parts
// ---------------------------------------------------------------------------

/// The views of a list of character vectors.
pub open spec fn vviews(v: Seq<Vec<char>>) -> Seq<Seq<char>> {
    Seq::new(v.len(), |i: int| v[i]@)
}

/// The views of a list of text pairs.
pub open spec fn tviews(v: Seq<(Vec<char>, Vec<char>)>) -> Seq<(Seq<char>, Seq<char>)> {
    Seq::new(v.len(), |i: int| (v[i].0@, v[i].1@))
}

fn copy_chars(v: &Vec<char>) -> (r: Vec<char>)
    ensures
        r@ == v@,
{
    let r = slice(v, 0, v.len());
    assert(r@ =~= v@);
    r
}

fn text_of_exec(texts: &Vec<(Vec<char>, Vec<char>)>, k: &Vec<char>) -> (r: Option<Vec<char>>)
    ensures
        match r {
            Some(j) => text_of(tviews(texts@), k@) == Some(j@),
            None => text_of(tviews(texts@), k@) is None,
        },
{
    let ghost t = tviews(texts@);
    let mut i: usize = 0;
    assert(t.skip(0) =~= t);
    while i < texts.len()
        invariant
            i <= texts.len(),
            t == tviews(texts@),
            text_of(t, k@) == text_of(t.skip(i as int), k@),
        decreases texts.len() - i,
    {
        assert(t.skip(i as int)[0] == t[i as int]);
        assert(t.skip(i as int).drop_first() =~= t.skip(i + 1));
        if vec_eq(&texts[i].0, k) {
            return Some(copy_chars(&texts[i].1));
        }
        i += 1;
    }
    None
}

fn members_exec(keys: &Vec<Vec<char>>, texts: &Vec<(Vec<char>, Vec<char>)>, skip: bool) -> (r: Vec<Vec<char>>)
    ensures
        vviews(r@) == members(vviews(keys@), tviews(texts@), skip),
{
    let ko = str_to_chars("__key_order");
    let ghost ks = vviews(keys@);
    let mut out: Vec<Vec<char>> = Vec::new();
    let mut i: usize = 0;
    while i < keys.len()
        invariant
            i <= keys.len(),
            ks == vviews(keys@),
            ko@ == key_order_field(),
            vviews(out@) == members(ks.take(i as int), tviews(texts@), skip),
        decreases keys.len() - i,
    {
        assert(ks.take(i + 1).drop_last() =~= ks.take(i as int));
        assert(ks.take(i + 1).last() == keys@[i as int]@);
        let ghost before = vviews(out@);
        let ghost k = keys@[i as int]@;
        let is_ko = vec_eq(&keys[i], &ko);
        if !(skip && is_ko) {
            match text_of_exec(texts, &keys[i]) {
                Some(j) => {
                    let ks_str = chars_to_string(&keys[i]);
                    let mut m = str_to_chars(json_quote(ks_str.as_str()).as_str());
                    m.push(':');
                    push_all(&mut m, &j);
                    let ghost mv = m@;
                    assert(mv =~= json_quoted(k) + seq![':'] + j@);
                    out.push(m);
                    assert(vviews(out@) =~= before.push(mv));
                    assert(vviews(out@) =~= before + seq![json_quoted(k) + seq![':'] + j@]);
                },
                None => {
                    assert(vviews(out@) =~= before + Seq::<Seq<char>>::empty());
                },
            }
        } else {
            assert(vviews(out@) =~= before + Seq::<Seq<char>>::empty());
        }
        assert(vviews(out@) =~= members(ks.take(i + 1), tviews(texts@), skip));
        i += 1;
    }
    assert(ks.take(keys.len() as int) =~= ks);
    out
}

fn insert_key_exec(s: &mut Vec<Vec<char>>, k: Vec<char>)
    ensures
        vviews(final(s)@) == insert_key(vviews(old(s)@), k@),
{
    let ghost sv = vviews(s@);
    let mut j: usize = 0;
    while j < s.len() && lex_lt(&s[j], &k)
        invariant
            j <= s.len(),
            sv == vviews(s@),
            forall|i: int| 0 <= i < j ==> seq_lt(#[trigger] sv[i], k@),
        decreases s.len() - j,
    {
        j += 1;
    }
    proof {
        lemma_insert_key_at(sv, k@, j as int);
    }
    let ghost kv = k@;
    s.insert(j, k);
    assert(vviews(s@) =~= sv.take(j as int) + seq![kv] + sv.skip(j as int));
}

proof fn lemma_insert_key_at(s: Seq<Seq<char>>, k: Seq<char>, j: int)
    requires
        0 <= j <= s.len(),
        forall|i: int| 0 <= i < j ==> seq_lt(#[trigger] s[i], k),
        j == s.len() || !seq_lt(s[j], k),
    ensures
        insert_key(s, k) == s.take(j) + seq![k] + s.skip(j),
    decreases j,
{
    if j == 0 {
        assert(s.skip(0) =~= s);
        assert(s.take(0) + seq![k] + s.skip(0) =~= seq![k] + s);
    } else {
        let t = s.drop_first();
        assert forall|i: int| 0 <= i < j - 1 implies seq_lt(#[trigger] t[i], k) by {
            assert(t[i] == s[i + 1]);
        }
        lemma_insert_key_at(t, k, j - 1);
        assert(seq_lt(s[0], k));
        assert(seq![s[0]] + (t.take(j - 1) + seq![k] + t.skip(j - 1)) =~= s.take(j) + seq![k]
            + s.skip(j));
    }
}

fn sorted_keys_exec(keys: &Vec<Vec<char>>) -> (r: Vec<Vec<char>>)
    ensures
        vviews(r@) == sorted_keys(vviews(keys@)),
{
    let ghost ks = vviews(keys@);
    let mut out: Vec<Vec<char>> = Vec::new();
    let mut i: usize = 0;
    while i < keys.len()
        invariant
            i <= keys.len(),
            ks == vviews(keys@),
            vviews(out@) == sorted_keys(ks.take(i as int)),
        decreases keys.len() - i,
    {
        assert(ks.take(i + 1).drop_last() =~= ks.take(i as int));
        assert(ks.take(i + 1).last() == keys@[i as int]@);
        insert_key_exec(&mut out, copy_chars(&keys[i]));
        i += 1;
    }
    assert(ks.take(keys.len() as int) =~= ks);
    out
}

fn contains_key(listed: &Vec<Vec<char>>, k: &Vec<char>) -> (r: bool)
    ensures
        r == vviews(listed@).contains(k@),
{
    let ghost lv = vviews(listed@);
    let mut i: usize = 0;
    while i < listed.len()
        invariant
            i <= listed.len(),
            lv == vviews(listed@),
            forall|m: int| 0 <= m < i ==> lv[m] != k@,
        decreases listed.len() - i,
    {
        if vec_eq(&listed[i], k) {
            assert(lv[i as int] == k@);
            return true;
        }
        i += 1;
    }
    false
}

fn unlisted_exec(keys: &Vec<Vec<char>>, listed: &Vec<Vec<char>>) -> (r: Vec<Vec<char>>)
    ensures
        vviews(r@) == unlisted(vviews(keys@), vviews(listed@)),
{
    let ko = str_to_chars("__key_order");
    let ghost ks = vviews(keys@);
    let mut out: Vec<Vec<char>> = Vec::new();
    let mut i: usize = 0;
    while i < keys.len()
        invariant
            i <= keys.len(),
            ks == vviews(keys@),
            ko@ == key_order_field(),
            vviews(out@) == unlisted(ks.take(i as int), vviews(listed@)),
        decreases keys.len() - i,
    {
        assert(ks.take(i + 1).drop_last() =~= ks.take(i as int));
        assert(ks.take(i + 1).last() == keys@[i as int]@);
        let ghost before = vviews(out@);
        if !(vec_eq(&keys[i], &ko) || contains_key(listed, &keys[i])) {
            let c = copy_chars(&keys[i]);
            let ghost cv = c@;
            out.push(c);
            assert(vviews(out@) =~= before.push(cv));
        }
        assert(vviews(out@) =~= unlisted(ks.take(i + 1), vviews(listed@)));
        i += 1;
    }
    assert(ks.take(keys.len() as int) =~= ks);
    out
}

/// `parts` joined with commas.
fn join_commas(parts: &Vec<Vec<char>>) -> (r: Vec<char>)
    ensures
        r@ == joined(vviews(parts@), seq![',']),
{
    let comma = vec![','];
    assert(comma@ =~= seq![',']);
    let r = crate::filters::collections::join_texts(parts, &comma);
    assert(crate::filters::collections::views(parts@) =~= vviews(parts@));
    r
}

/// The members of an object, given its `(key, JSON text)` pairs and its
/// recorded key order.
fn object_members(texts: &Vec<(Vec<char>, Vec<char>)>, order: Option<Vec<Vec<char>>>) -> (r: Vec<Vec<char>>)
    ensures
        vviews(r@) == match order {
            Some(o) => members(vviews(o@), tviews(texts@), true) + members(
                sorted_keys(unlisted(entry_keys(tviews(texts@)), vviews(o@))),
                tviews(texts@),
                true,
            ),
            None => members(sorted_keys(entry_keys(tviews(texts@))), tviews(texts@), false),
        },
{
    let mut keys: Vec<Vec<char>> = Vec::new();
    let mut m: usize = 0;
    while m < texts.len()
        invariant
            m <= texts.len(),
            vviews(keys@) == entry_keys(tviews(texts@)).take(m as int),
        decreases texts.len() - m,
    {
        let ghost before = vviews(keys@);
        let c = copy_chars(&texts[m].0);
        let ghost cv = c@;
        keys.push(c);
        assert(vviews(keys@) =~= before.push(cv));
        assert(vviews(keys@) =~= entry_keys(tviews(texts@)).take(m + 1));
        m += 1;
    }
    assert(entry_keys(tviews(texts@)).take(texts.len() as int) =~= entry_keys(tviews(texts@)));
    match order {
        Some(o) => {
            let mut first = members_exec(&o, texts, true);
            let rest_keys = sorted_keys_exec(&unlisted_exec(&keys, &o));
            let second = members_exec(&rest_keys, texts, true);
            let ghost fv = vviews(first@);
            let mut k2: usize = 0;
            while k2 < second.len()
                invariant
                    k2 <= second.len(),
                    vviews(first@) == fv + vviews(second@).take(k2 as int),
                decreases second.len() - k2,
            {
                let ghost before = vviews(first@);
                let c = copy_chars(&second[k2]);
                let ghost cv = c@;
                first.push(c);
                assert(vviews(first@) =~= before.push(cv));
                assert(vviews(first@) =~= fv + vviews(second@).take(k2 + 1));
                k2 += 1;
            }
            assert(vviews(second@).take(second.len() as int) =~= vviews(second@));
            first
        },
        None => members_exec(&sorted_keys_exec(&keys), texts, false),
    }
}

/// The key order an object records.
fn recorded_order_exec(v: &Value) -> (r: Option<Vec<Vec<char>>>)
    ensures
        match v.sv() {
            SValue::Object(es) => match r {
                Some(o) => recorded_order(es) == Some(vviews(o@)),
                None => recorded_order(es) is None,
            },
            _ => true,
        },
{
    let ko = str_to_chars("__key_order");
    assert(ko@ == key_order_field());
    match v.get_property(&ko) {
        Some(p) => match p {
            Value::Array(items) => {
                proof { lemma_array_sv(p, items); }
                let mut order: Vec<Vec<char>> = Vec::new();
                let mut q: usize = 0;
                while q < items.len()
                    invariant
                        q <= items.len(),
                        vviews(order@) == Seq::new(items@.len(), |x: int| rendered(svs(items@)[x])).take(q as int),
                    decreases items.len() - q,
                {
                    let ghost before = vviews(order@);
                    let r = items[q].render_chars();
                    let ghost rv = r@;
                    order.push(r);
                    assert(vviews(order@) =~= before.push(rv));
                    assert(vviews(order@) =~= Seq::new(items@.len(), |x: int| rendered(svs(items@)[x])).take(q + 1));
                    q += 1;
                }
                assert(Seq::new(items@.len(), |x: int| rendered(svs(items@)[x])).take(items.len() as int)
                    =~= Seq::new(items@.len(), |x: int| rendered(svs(items@)[x])));
                Some(order)
            },
            _ => None,
        },
        None => None,
    }
}

/// The JSON text of an object.
#[verifier::loop_isolation(false)]
fn json_object_text(v: &Value, entries: &Vec<(String, Value)>) -> (r: Vec<char>)
    requires
        *v == Value::Object(*entries),
    ensures
        r@ == json_value(v.sv()),
    decreases v, 0int,
{
    let ghost es = match v.sv() {
        SValue::Object(x) => x,
        _ => Seq::empty(),
    };
    let mut texts: Vec<(Vec<char>, Vec<char>)> = Vec::new();
    let mut i: usize = 0;
    assert(es.skip(0) =~= es);
    while i < entries.len()
        invariant
            i <= entries.len(),
            es.len() == entries@.len(),
            forall|k: int| 0 <= k < entries@.len() ==> #[trigger] es[k] == (entries@[k].0@, entries@[k].1.sv()),
            json_entries(es) == tviews(texts@) + json_entries(es.skip(i as int)),
        decreases entries.len() - i,
    {
        assert(es.skip(i as int)[0] == es[i as int]);
        assert(es.skip(i as int).drop_first() =~= es.skip(i + 1));
        assert(decreases_to!(v => entries@[i as int].1));
        let t = json_text(&entries[i].1);
        let key = str_to_chars(entries[i].0.as_str());
        let ghost before = tviews(texts@);
        let ghost pv = (key@, t@);
        texts.push((key, t));
        assert(tviews(texts@) =~= before.push(pv));
        i += 1;
    }
    assert(es.skip(entries.len() as int) =~= Seq::<(Seq<char>, SValue)>::empty());
    assert(tviews(texts@) =~= json_entries(es));
    let order = recorded_order_exec(v);
    let ms = object_members(&texts, order);
    let mut out = vec!['{'];
    push_all(&mut out, &join_commas(&ms));
    out.push('}');
    out
}

/// The JSON text of an array.
#[verifier::loop_isolation(false)]
fn json_array_text(v: &Value, items: &Vec<Value>) -> (r: Vec<char>)
    requires
        *v == Value::Array(*items),
    ensures
        r@ == json_value(v.sv()),
    decreases v, 0int,
{
    proof { lemma_array_sv(v, items); }
    let ghost all = svs(items@);
    let mut parts: Vec<Vec<char>> = Vec::new();
    let mut i: usize = 0;
    assert(all.skip(0) =~= all);
    while i < items.len()
        invariant
            i <= items.len(),
            all == svs(items@),
            json_items(all) == vviews(parts@) + json_items(all.skip(i as int)),
        decreases items.len() - i,
    {
        assert(all.skip(i as int)[0] == items@[i as int].sv());
        assert(all.skip(i as int).drop_first() =~= all.skip(i + 1));
        assert(decreases_to!(v => items@[i as int]));
        let t = json_text(&items[i]);
        let ghost before = vviews(parts@);
        let ghost tv = t@;
        parts.push(t);
        assert(vviews(parts@) =~= before.push(tv));
        i += 1;
    }
    assert(all.skip(items.len() as int) =~= Seq::<SValue>::empty());
    assert(vviews(parts@) =~= json_items(all));
    let mut out = vec!['['];
    push_all(&mut out, &join_commas(&parts));
    out.push(']');
    out
}

/// The JSON text of a value.
pub fn json_text(v: &Value) -> (r: Vec<char>)
    ensures
        r@ == json_value(v.sv()),
    decreases v, 1int,
{
    match v {
        Value::Nil => str_to_chars("null"),
        Value::Bool(b) => if *b {
            str_to_chars("true")
        } else {
            str_to_chars("false")
        },
        Value::Int(i) => i64_text(*i),
        Value::Float(t) => str_to_chars(t.as_str()),
        Value::Str(s) => str_to_chars(json_quote(s.as_str()).as_str()),
        Value::Array(items) => json_array_text(v, items),
        Value::Object(entries) => json_object_text(v, entries),
    }
}

/// The `jsonify` filter.
pub struct Jsonify;

impl Jsonify {
    /// Writes the value as JSON.
    pub fn evaluate(&self, input: &Value) -> (r: String)
        ensures
            r@ == json_value(input.sv()),
    {
        chars_to_string(&json_text(input))
    }
}

} // verus!
