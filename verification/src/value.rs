//! A Liquid value as the filters read it.
use vstd::prelude::*;
use crate::numfmt::{decimal, u64_to_decimal};
use crate::text::{push_all, str_to_chars, vec_eq};

verus! {

/// A Liquid value: nil, a boolean, an integer, a float (held by its
/// rendered text), a string, an array, or an object (keys in order).
pub enum Value {
    Nil,
    Bool(bool),
    Int(i64),
    Float(String),
    Str(String),
    Array(Vec<Value>),
    Object(Vec<(String, Value)>),
}

/// The mathematical form of a `Value`.
pub enum SValue {
    Nil,
    Bool(bool),
    Int(int),
    Float(Seq<char>),
    Str(Seq<char>),
    Array(Seq<SValue>),
    Object(Seq<(Seq<char>, SValue)>),
}

impl Value {
    pub open spec fn sv(&self) -> SValue
        decreases self,
    {
        match self {
            Value::Nil => SValue::Nil,
            Value::Bool(b) => SValue::Bool(*b),
            Value::Int(i) => SValue::Int(*i as int),
            Value::Float(s) => SValue::Float(s@),
            Value::Str(s) => SValue::Str(s@),
            Value::Array(v) => SValue::Array(
                Seq::new(
                    v@.len(),
                    |i: int|
                        if 0 <= i < v@.len() {
                            proof {
                                assert(decreases_to!(v => v@));
                                assert(decreases_to!(v@ => v@[i]));
                            }
                            v@[i].sv()
                        } else {
                            SValue::Nil
                        },
                ),
            ),
            Value::Object(v) => SValue::Object(
                Seq::new(
                    v@.len(),
                    |i: int|
                        if 0 <= i < v@.len() {
                            proof {
                                assert(decreases_to!(v => v@));
                                assert(decreases_to!(v@ => v@[i]));
                                assert(decreases_to!(v@[i] => v@[i].1));
                            }
                            (v@[i].0@, v@[i].1.sv())
                        } else {
                            (Seq::empty(), SValue::Nil)
                        },
                ),
            ),
        }
    }
}

/// Decimal text of an integer, with a `-` for negatives.
pub open spec fn int_text(i: int) -> Seq<char> {
    if i < 0 {
        seq!['-'] + decimal((-i) as nat)
    } else {
        decimal(i as nat)
    }
}

/// Rendered text of an array's items, concatenated.
pub open spec fn items_text(items: Seq<SValue>) -> Seq<char>
    decreases items,
{
    if items.len() == 0 {
        Seq::empty()
    } else {
        proof {
            assert(decreases_to!(items => items[0]));
        }
        rendered(items[0]) + items_text(items.drop_first())
    }
}

/// Rendered text of an object's entries: each key followed by its value.
pub open spec fn entries_text(entries: Seq<(Seq<char>, SValue)>) -> Seq<char>
    decreases entries,
{
    if entries.len() == 0 {
        Seq::empty()
    } else {
        proof {
            assert(decreases_to!(entries => entries[0]));
            assert(decreases_to!(entries[0] => entries[0].1));
        }
        entries[0].0 + rendered(entries[0].1) + entries_text(entries.drop_first())
    }
}

/// How Liquid renders a value (`ValueView::render` / `to_kstr`): nil is
/// empty, booleans are `true`/`false`, integers are decimal, strings and
/// floats are their text, arrays concatenate their items, objects their
/// keys and values in iteration order.
pub open spec fn rendered(v: SValue) -> Seq<char>
    decreases v,
{
    match v {
        SValue::Nil => Seq::empty(),
        SValue::Bool(b) => if b {
            "true"@
        } else {
            "false"@
        },
        SValue::Int(i) => int_text(i),
        SValue::Float(s) => s,
        SValue::Str(s) => s,
        SValue::Array(items) => items_text(items),
        SValue::Object(entries) => entries_text(entries),
    }
}

/// Decimal text of an `i64`.
pub fn i64_text(i: i64) -> (r: Vec<char>)
    ensures
        r@ == int_text(i as int),
{
    if i < 0 {
        let m: u64 = (-(i as i128)) as u64;
        let mut out = vec!['-'];
        push_all(&mut out, &u64_to_decimal(m));
        assert(out@ =~= seq!['-'] + decimal((-(i as int)) as nat));
        out
    } else {
        u64_to_decimal(i as u64)
    }
}

impl Value {
    /// Renders the value as Liquid does.
    #[verifier::loop_isolation(false)]
    pub fn render_chars(&self) -> (r: Vec<char>)
        ensures
            r@ == rendered(self.sv()),
        decreases self,
    {
        match self {
            Value::Nil => Vec::new(),
            Value::Bool(b) => if *b {
                str_to_chars("true")
            } else {
                str_to_chars("false")
            },
            Value::Int(i) => i64_text(*i),
            Value::Float(s) => str_to_chars(s.as_str()),
            Value::Str(s) => str_to_chars(s.as_str()),
            Value::Array(v) => {
                let mut out: Vec<char> = Vec::new();
                let mut i: usize = 0;
                let ghost items = match self.sv() {
                    SValue::Array(x) => x,
                    _ => Seq::empty(),
                };
                assert(items.skip(0) =~= items);
                while i < v.len()
                    invariant
                        i <= v.len(),
                        items.len() == v@.len(),
                        forall|k: int| 0 <= k < v@.len() ==> #[trigger] items[k] == v@[k].sv(),
                        items_text(items) == out@ + items_text(items.skip(i as int)),
                    decreases v.len() - i,
                {
                    assert(items.skip(i as int).drop_first() =~= items.skip(i + 1));
                    assert(decreases_to!(self => v@[i as int]));
                    let r = v[i].render_chars();
                    push_all(&mut out, &r);
                    i += 1;
                }
                assert(items.skip(v@.len() as int) =~= Seq::<SValue>::empty());
                out
            },
            Value::Object(v) => {
                let mut out: Vec<char> = Vec::new();
                let mut i: usize = 0;
                let ghost entries = match self.sv() {
                    SValue::Object(x) => x,
                    _ => Seq::empty(),
                };
                assert(entries.skip(0) =~= entries);
                while i < v.len()
                    invariant
                        i <= v.len(),
                        entries.len() == v@.len(),
                        forall|k: int| 0 <= k < v@.len() ==> #[trigger] entries[k] == (v@[k].0@, v@[k].1.sv()),
                        entries_text(entries) == out@ + entries_text(entries.skip(i as int)),
                    decreases v.len() - i,
                {
                    assert(entries.skip(i as int).drop_first() =~= entries.skip(i + 1));
                    assert(decreases_to!(self => v@[i as int].1));
                    push_all(&mut out, &str_to_chars(v[i].0.as_str()));
                    let r = v[i].1.render_chars();
                    push_all(&mut out, &r);
                    i += 1;
                }
                assert(entries.skip(v@.len() as int) =~= Seq::<(Seq<char>, SValue)>::empty());
                out
            },
        }
    }
}


/// The mathematical forms of a sequence of values.
pub open spec fn svs(v: Seq<Value>) -> Seq<SValue> {
    Seq::new(v.len(), |i: int| v[i].sv())
}

/// The value stored under `key` in an object's entries: the first entry
/// with that key.
pub open spec fn lookup(entries: Seq<(Seq<char>, SValue)>, key: Seq<char>) -> Option<SValue>
    decreases entries.len(),
{
    if entries.len() == 0 {
        None
    } else if entries[0].0 == key {
        Some(entries[0].1)
    } else {
        lookup(entries.drop_first(), key)
    }
}

/// The value of property `key` of `v`, if `v` is an object that has it.
pub open spec fn property(v: SValue, key: Seq<char>) -> Option<SValue> {
    match v {
        SValue::Object(entries) => lookup(entries, key),
        _ => None,
    }
}

impl Value {
    /// A copy of the value.
    #[verifier::loop_isolation(false)]
    pub fn duplicate(&self) -> (r: Value)
        ensures
            r.sv() == self.sv(),
        decreases self,
    {
        match self {
            Value::Nil => Value::Nil,
            Value::Bool(b) => Value::Bool(*b),
            Value::Int(i) => Value::Int(*i),
            Value::Float(s) => Value::Float(s.clone()),
            Value::Str(s) => Value::Str(s.clone()),
            Value::Array(v) => {
                let mut out: Vec<Value> = Vec::new();
                let mut i: usize = 0;
                while i < v.len()
                    invariant
                        i <= v.len(),
                        out.len() == i,
                        forall|k: int| 0 <= k < i ==> #[trigger] out@[k].sv() == v@[k].sv(),
                    decreases v.len() - i,
                {
                    assert(decreases_to!(self => v@[i as int]));
                    out.push(v[i].duplicate());
                    i += 1;
                }
                let r = Value::Array(out);
                assert(r.sv() =~= self.sv()) by {
                    let a = match r.sv() { SValue::Array(x) => x, _ => Seq::empty() };
                    let b = match self.sv() { SValue::Array(x) => x, _ => Seq::empty() };
                    assert forall|k: int| 0 <= k < a.len() implies a[k] == b[k] by {
                        assert(out@[k].sv() == v@[k].sv());
                    }
                    assert(a =~= b);
                }
                r
            },
            Value::Object(v) => {
                let mut out: Vec<(String, Value)> = Vec::new();
                let mut i: usize = 0;
                while i < v.len()
                    invariant
                        i <= v.len(),
                        out.len() == i,
                        forall|k: int|
                            0 <= k < i ==> #[trigger] out@[k].1.sv() == v@[k].1.sv() && out@[k].0@
                                == v@[k].0@,
                    decreases v.len() - i,
                {
                    assert(decreases_to!(self => v@[i as int].1));
                    let key = v[i].0.clone();
                    out.push((key, v[i].1.duplicate()));
                    i += 1;
                }
                let r = Value::Object(out);
                assert(r.sv() =~= self.sv()) by {
                    let a = match r.sv() { SValue::Object(x) => x, _ => Seq::empty() };
                    let b = match self.sv() { SValue::Object(x) => x, _ => Seq::empty() };
                    assert(a =~= b);
                }
                r
            },
        }
    }

    /// The value of property `key`, if this is an object that has it.
    #[verifier::loop_isolation(false)]
    pub fn get_property(&self, key: &Vec<char>) -> (r: Option<&Value>)
        ensures
            match r {
                Some(x) => property(self.sv(), key@) == Some(x.sv()),
                None => property(self.sv(), key@) is None,
            },
    {
        match self {
            Value::Object(v) => {
                let ghost entries = match self.sv() {
                    SValue::Object(x) => x,
                    _ => Seq::empty(),
                };
                let mut i: usize = 0;
                assert(entries.skip(0) =~= entries);
                while i < v.len()
                    invariant
                        i <= v.len(),
                        entries.len() == v@.len(),
                        forall|k: int| 0 <= k < v@.len() ==> #[trigger] entries[k] == (v@[k].0@, v@[k].1.sv()),
                        lookup(entries, key@) == lookup(entries.skip(i as int), key@),
                    decreases v.len() - i,
                {
                    assert(entries.skip(i as int).drop_first() =~= entries.skip(i + 1));
                    let kc = str_to_chars(v[i].0.as_str());
                    if vec_eq(&kc, key) {
                        assert(entries.skip(i as int)[0] == entries[i as int]);
                        assert(kc@ == v@[i as int].0@);
                        assert(entries[i as int].0 == key@);
                        assert(lookup(entries.skip(i as int), key@) == Some(entries[i as int].1));
                        return Some(&v[i].1);
                    }
                    i += 1;
                }
                None
            },
            _ => None,
        }
    }
}

} // verus!
