//! Lenient variable lookup: missing keys read as nil, objects can be
//! indexed by position, and the site's key-order record is not counted.
use vstd::prelude::*;
use crate::filters::numbers::{parse_i64, parsed_i64};
use crate::text::{contains, find_at, lemma_find_from, str_to_chars, vec_eq};
use crate::value::{lookup, property, SValue, Value};

verus! {

/// What a lenient lookup of `index` in `v` gives: the property when `v` has
/// it; nothing for `size`, `first` and `last` (so Liquid computes them);
/// for an object and an integer index, the `[key, value]` pair at that
/// position (nil out of range); nil otherwise.
pub open spec fn lenient_lookup(v: SValue, index: Seq<char>) -> Option<SValue> {
    match property(v, index) {
        Some(x) => Some(x),
        None => if index == "size"@ || index == "first"@ || index == "last"@ {
            None
        } else {
            match v {
                SValue::Object(entries) => match parsed_i64(index) {
                    Some(i) => if 0 <= i < entries.len() {
                        Some(SValue::Array(seq![SValue::Str(entries[i].0), entries[i].1]))
                    } else {
                        Some(SValue::Nil)
                    },
                    None => Some(SValue::Nil),
                },
                _ => Some(SValue::Nil),
            }
        },
    }
}

/// A key that an object lacks reads as nil (unless it is `size`, `first`,
/// `last` or an integer position), so an undefined variable renders empty.
pub proof fn lemma_missing_key_is_nil(entries: Seq<(Seq<char>, SValue)>, index: Seq<char>)
    requires
        lookup(entries, index) is None,
        index != "size"@,
        index != "first"@,
        index != "last"@,
        parsed_i64(index) is None,
    ensures
        lenient_lookup(SValue::Object(entries), index) == Some(SValue::Nil),
{
}

/// Any key of a value that is not an object reads as nil, but `size`,
/// `first` and `last`, which are left to Liquid.
pub proof fn lemma_non_object_reads_nil(v: SValue, index: Seq<char>)
    requires
        !(v is Object),
        index != "size"@,
        index != "first"@,
        index != "last"@,
    ensures
        lenient_lookup(v, index) == Some(SValue::Nil),
{
}

/// Looks `index` up in `v` leniently (see `lenient_lookup`).
pub fn lenient_get(v: &Value, index: &str) -> (r: Option<Value>)
    ensures
        match r {
            Some(x) => lenient_lookup(v.sv(), index@) == Some(x.sv()),
            None => lenient_lookup(v.sv(), index@) is None,
        },
{
    let idx = str_to_chars(index);
    if let Some(x) = v.get_property(&idx) {
        return Some(x.duplicate());
    }
    if vec_eq(&idx, &str_to_chars("size")) || vec_eq(&idx, &str_to_chars("first")) || vec_eq(
        &idx,
        &str_to_chars("last"),
    ) {
        return None;
    }
    match v {
        Value::Object(entries) => {
            let ghost es = match v.sv() {
                SValue::Object(x) => x,
                _ => Seq::empty(),
            };
            match parse_i64(&idx) {
                Some(i) => {
                    if i >= 0 && (i as u64) < (entries.len() as u64) {
                        let k = entries[i as usize].0.clone();
                        let val = entries[i as usize].1.duplicate();
                        assert(es[i as int] == (entries@[i as int].0@, entries@[i as int].1.sv()));
                        let sk = Value::Str(k);
                        assert(sk.sv() == SValue::Str(es[i as int].0));
                        assert(val.sv() == es[i as int].1);
                        let items = vec![sk, val];
                        assert(items@[0].sv() == SValue::Str(es[i as int].0));
                        assert(items@[1].sv() == es[i as int].1);
                        let pair = Value::Array(items);
                        proof {
                            let a = match pair.sv() {
                                SValue::Array(x) => x,
                                _ => Seq::empty(),
                            };
                            assert(a =~= seq![SValue::Str(es[i as int].0), es[i as int].1]);
                        }
                        Some(pair)
                    } else {
                        Some(Value::Nil)
                    }
                },
                None => Some(Value::Nil),
            }
        },
        _ => Some(Value::Nil),
    }
}

/// The number of entries an object shows: its key-order record not counted.
pub fn lenient_size(entries: &Vec<(String, Value)>) -> (r: usize)
    ensures
        r == if (exists|i: int| 0 <= i < entries@.len() && #[trigger] entries@[i].0@ == "__key_order"@) {
            entries@.len() - 1
        } else {
            entries@.len() as int
        },
{
    let ko = str_to_chars("__key_order");
    let mut i: usize = 0;
    while i < entries.len()
        invariant
            i <= entries.len(),
            ko@ == "__key_order"@,
            forall|j: int| 0 <= j < i ==> entries@[j].0@ != "__key_order"@,
        decreases entries.len() - i,
    {
        if vec_eq(&str_to_chars(entries[i].0.as_str()), &ko) {
            assert(entries@[i as int].0@ == "__key_order"@);
            return entries.len() - 1;
        }
        i += 1;
    }
    entries.len()
}

/// The size a value shows as an object: an object's entries without its
/// key-order record; 0 for any other value.
pub open spec fn object_view_size(v: SValue) -> int {
    match v {
        SValue::Object(es) => if (exists|i: int| 0 <= i < es.len() && #[trigger] es[i].0 == "__key_order"@) {
            es.len() - 1
        } else {
            es.len() as int
        },
        _ => 0,
    }
}

/// The size a value shows when read as an object (see `object_view_size`).
pub fn lenient_value_size(v: &Value) -> (r: usize)
    ensures
        r == object_view_size(v.sv()),
{
    match v {
        Value::Object(entries) => {
            let r = lenient_size(entries);
            proof {
                let es = match v.sv() {
                    SValue::Object(x) => x,
                    _ => Seq::empty(),
                };
                assert(es.len() == entries@.len());
                assert forall|i: int| 0 <= i < entries@.len() implies #[trigger] es[i].0 == entries@[i].0@ by {
                    assert(es[i] == (entries@[i].0@, entries@[i].1.sv()));
                }
                if exists|i: int| 0 <= i < es.len() && #[trigger] es[i].0 == "__key_order"@ {
                    let i = choose|i: int| 0 <= i < es.len() && #[trigger] es[i].0 == "__key_order"@;
                    assert(entries@[i].0@ == "__key_order"@);
                }
                if exists|i: int| 0 <= i < entries@.len() && #[trigger] entries@[i].0@ == "__key_order"@ {
                    let i = choose|i: int| 0 <= i < entries@.len() && #[trigger] entries@[i].0@ == "__key_order"@;
                    assert(es[i].0 == "__key_order"@);
                }
            }
            r
        },
        _ => 0,
    }
}

/// Some source mentions one of the words.
pub open spec fn any_mentions(sources: Seq<String>, words: Seq<Seq<char>>) -> bool {
    exists|k: int, w: int| 0 <= k < sources.len() && 0 <= w < words.len() && contains(#[trigger] sources[k]@, #[trigger] words[w])
}

fn any_mentions_exec(sources: &Vec<String>, words: &Vec<Vec<char>>) -> (r: bool)
    ensures
        r == any_mentions(sources@, Seq::new(words@.len(), |i: int| words@[i]@)),
{
    let ghost ws = Seq::new(words@.len(), |i: int| words@[i]@);
    let mut k: usize = 0;
    while k < sources.len()
        invariant
            k <= sources.len(),
            ws == Seq::new(words@.len(), |i: int| words@[i]@),
            forall|kk: int, w: int| 0 <= kk < k && 0 <= w < ws.len() ==> !contains(#[trigger] sources@[kk]@, #[trigger] ws[w]),
        decreases sources.len() - k,
    {
        let s = str_to_chars(sources[k].as_str());
        let mut w: usize = 0;
        while w < words.len()
            invariant
                w <= words.len(),
                k < sources.len(),
                s@ == sources@[k as int]@,
                ws == Seq::new(words@.len(), |i: int| words@[i]@),
                forall|kk: int, ww: int| 0 <= kk < k && 0 <= ww < ws.len() ==> !contains(#[trigger] sources@[kk]@, #[trigger] ws[ww]),
                forall|ww: int| 0 <= ww < w ==> !contains(sources@[k as int]@, #[trigger] ws[ww]),
            decreases words.len() - w,
        {
            proof {
                lemma_find_from(s@, words@[w as int]@, 0);
            }
            if find_at(&s, &words[w], 0).is_some() {
                assert(contains(sources@[k as int]@, ws[w as int]));
                return true;
            }
            w += 1;
        }
        k += 1;
    }
    false
}

/// Whether an include source mentions `page.previous` or `page.next`.
pub fn uses_prev_next(sources: &Vec<String>) -> (r: bool)
    ensures
        r == any_mentions(sources@, seq!["page.previous"@, "page.next"@]),
{
    let words = vec![str_to_chars("page.previous"), str_to_chars("page.next")];
    assert(Seq::new(words@.len(), |i: int| words@[i]@) =~= seq!["page.previous"@, "page.next"@]);
    any_mentions_exec(sources, &words)
}

/// Whether an include source mentions `related_posts`.
pub fn uses_related_posts(sources: &Vec<String>) -> (r: bool)
    ensures
        r == any_mentions(sources@, seq!["related_posts"@]),
{
    let words = vec![str_to_chars("related_posts")];
    assert(Seq::new(words@.len(), |i: int| words@[i]@) =~= seq!["related_posts"@]);
    any_mentions_exec(sources, &words)
}

} // verus!
