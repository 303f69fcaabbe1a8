//! Array filters: `join`, `array_to_sentence_string`, `compact`, `map`,
//! `find`, and the pass-through filters.
use vstd::prelude::*;
use crate::text::{chars_to_string, push_all, slice, str_to_chars, vec_eq};
use crate::value::{property, rendered, svs, SValue, Value};

verus! {

/// The views of a sequence of character vectors.
pub open spec fn views(v: Seq<Vec<char>>) -> Seq<Seq<char>> {
    Seq::new(v.len(), |i: int| v[i]@)
}

/// `parts` joined with `sep` between neighbours.
pub open spec fn joined(parts: Seq<Seq<char>>, sep: Seq<char>) -> Seq<char>
    decreases parts.len(),
{
    if parts.len() == 0 {
        Seq::empty()
    } else if parts.len() == 1 {
        parts[0]
    } else {
        joined(parts.drop_last(), sep) + sep + parts.last()
    }
}

/// The rendered leaves of nested arrays, depth first (Ruby's `Array#join`
/// flattens recursively).
pub open spec fn leaf_texts(items: Seq<SValue>) -> Seq<Seq<char>>
    decreases items,
{
    if items.len() == 0 {
        Seq::empty()
    } else {
        let last = items[items.len() - 1];
        proof {
            assert(decreases_to!(items => last));
        }
        leaf_texts(items.drop_last()) + match last {
            SValue::Array(inner) => leaf_texts(inner),
            _ => seq![rendered(last)],
        }
    }
}

/// An array flattened by one level: array items are spliced in.
pub open spec fn flatten_one(items: Seq<SValue>) -> Seq<SValue>
    decreases items.len(),
{
    if items.len() == 0 {
        Seq::empty()
    } else {
        flatten_one(items.drop_last()) + match items.last() {
            SValue::Array(inner) => inner,
            v => seq![v],
        }
    }
}

/// The items that are not nil, in order.
pub open spec fn without_nil(items: Seq<SValue>) -> Seq<SValue>
    decreases items.len(),
{
    if items.len() == 0 {
        Seq::empty()
    } else if items.last() is Nil {
        without_nil(items.drop_last())
    } else {
        without_nil(items.drop_last()).push(items.last())
    }
}

/// The value of property `p` of each item, nil where it has none.
pub open spec fn mapped(items: Seq<SValue>, p: Seq<char>) -> Seq<SValue> {
    Seq::new(
        items.len(),
        |i: int|
            match property(items[i], p) {
                Some(v) => v,
                None => SValue::Nil,
            },
    )
}

/// Item `v` has property `p` and it renders as `t`.
pub open spec fn property_renders_as(v: SValue, p: Seq<char>, t: Seq<char>) -> bool {
    match property(v, p) {
        Some(x) => rendered(x) == t,
        None => false,
    }
}

/// The rendered texts of values, in order.
pub open spec fn rendered_all(items: Seq<SValue>) -> Seq<Seq<char>> {
    Seq::new(items.len(), |i: int| rendered(items[i]))
}

/// Ruby's `to_sentence`: all but the last joined by `, `, then `, `, the
/// connector, a space and the last.
pub open spec fn sentence(parts: Seq<Seq<char>>, connector: Seq<char>) -> Seq<char> {
    if parts.len() == 0 {
        Seq::empty()
    } else if parts.len() == 1 {
        parts[0]
    } else {
        joined(parts.drop_last(), seq![',', ' ']) + seq![',', ' '] + connector + seq![' ']
            + parts.last()
    }
}

/// An optional text argument, or the given default.
pub open spec fn text_or(arg: Option<&str>, default: Seq<char>) -> Seq<char> {
    match arg {
        Some(s) => s@,
        None => default,
    }
}

pub proof fn lemma_array_sv(v: &Value, inner: &Vec<Value>)
    requires
        *v == Value::Array(*inner),
    ensures
        v.sv() == SValue::Array(svs(inner@)),
{
    let a = match v.sv() {
        SValue::Array(x) => x,
        _ => Seq::empty(),
    };
    assert(a =~= svs(inner@));
}

/// An array value holding `items`.
pub fn array_of(items: Vec<Value>) -> (r: Value)
    ensures
        r.sv() == SValue::Array(svs(items@)),
{
    let r = Value::Array(items);
    proof {
        let a = match r.sv() {
            SValue::Array(x) => x,
            _ => Seq::empty(),
        };
        assert(a =~= svs(items@));
    }
    r
}

/// Appends the rendered leaves of `items` to `out`.
#[verifier::loop_isolation(false)]
fn push_leaf_texts(items: &Vec<Value>, out: &mut Vec<Vec<char>>)
    ensures
        views(final(out)@) == views(old(out)@) + leaf_texts(svs(items@)),
    decreases items,
{
    let ghost all = svs(items@);
    let mut i: usize = 0;
    assert(views(out@) =~= views(old(out)@) + leaf_texts(all.take(0)));
    while i < items.len()
        invariant
            i <= items.len(),
            views(out@) == views(old(out)@) + leaf_texts(all.take(i as int)),
        decreases items.len() - i,
    {
        assert(all.take(i + 1).drop_last() =~= all.take(i as int));
        assert(all.take(i + 1).last() == items@[i as int].sv());
        let ghost before = views(out@);
        match &items[i] {
            Value::Array(inner) => {
                assert(decreases_to!(items => items@[i as int]));
                proof { lemma_array_sv(&items@[i as int], inner); }
                push_leaf_texts(inner, out);
            },
            other => {
                let t = other.render_chars();
                out.push(t);
                assert(views(out@) =~= before.push(t@));
            },
        }
        assert(views(out@) =~= views(old(out)@) + leaf_texts(all.take(i + 1)));
        i += 1;
    }
    assert(all.take(items.len() as int) =~= all);
}

/// `parts` joined with `sep`.
pub fn join_texts(parts: &Vec<Vec<char>>, sep: &Vec<char>) -> (r: Vec<char>)
    ensures
        r@ == joined(views(parts@), sep@),
{
    let ghost all = views(parts@);
    if parts.len() == 0 {
        return Vec::new();
    }
    let mut out: Vec<char> = Vec::new();
    push_all(&mut out, &parts[0]);
    assert(all.take(1).len() == 1);
    let mut i: usize = 1;
    while i < parts.len()
        invariant
            1 <= i <= parts.len(),
            all == views(parts@),
            out@ == joined(all.take(i as int), sep@),
        decreases parts.len() - i,
    {
        assert(all.take(i + 1).drop_last() =~= all.take(i as int));
        push_all(&mut out, sep);
        push_all(&mut out, &parts[i]);
        i += 1;
    }
    assert(all.take(parts.len() as int) =~= all);
    out
}

/// The `join` filter.
pub struct Join;

impl Join {
    /// Joins the leaves of an array (nested arrays flattened) with the
    /// separator (default a space); any other input is returned as it is.
    pub fn evaluate(&self, input: &Value, separator: Option<&str>) -> (r: Value)
        ensures
            r.sv() == match input.sv() {
                SValue::Array(items) => SValue::Str(
                    joined(leaf_texts(items), text_or(separator, seq![' '])),
                ),
                other => other,
            },
    {
        match input {
            Value::Array(items) => {
                let sep = match separator {
                    Some(s) => str_to_chars(s),
                    None => vec![' '],
                };
                let mut parts: Vec<Vec<char>> = Vec::new();
                push_leaf_texts(items, &mut parts);
                assert(views(parts@) =~= leaf_texts(svs(items@)));
                proof { lemma_array_sv(input, items); }
                assert(sep@ =~= text_or(separator, seq![' ']));
                let j = join_texts(&parts, &sep);
                Value::Str(chars_to_string(&j))
            },
            _ => input.duplicate(),
        }
    }
}

/// The `array_to_sentence_string` filter.
pub struct ArrayToSentenceString;

impl ArrayToSentenceString {
    /// Renders an array as a sentence with the connector (default `and`);
    /// input that is not an array gives the empty string.
    pub fn evaluate(&self, input: &Value, connector: Option<&str>) -> (r: String)
        ensures
            r@ == match input.sv() {
                SValue::Array(items) => sentence(
                    rendered_all(items),
                    text_or(connector, seq!['a', 'n', 'd']),
                ),
                _ => Seq::empty(),
            },
    {
        match input {
            Value::Array(items) => {
                proof { lemma_array_sv(input, items); }
                let conn = match connector {
                    Some(s) => str_to_chars(s),
                    None => vec!['a', 'n', 'd'],
                };
                let ghost parts = rendered_all(svs(items@));
                let mut texts: Vec<Vec<char>> = Vec::new();
                let mut i: usize = 0;
                while i < items.len()
                    invariant
                        i <= items.len(),
                        parts == rendered_all(svs(items@)),
                        views(texts@) == parts.take(i as int),
                    decreases items.len() - i,
                {
                    let t = items[i].render_chars();
                    assert(parts[i as int] == rendered(items@[i as int].sv()));
                    let ghost old_v = views(texts@);
                    texts.push(t);
                    assert(views(texts@) =~= old_v.push(t@));
                    assert(old_v.push(t@) =~= parts.take(i + 1));
                    i += 1;
                }
                assert(views(texts@) =~= parts);
                let n = texts.len();
                if n == 0 {
                    return String::new();
                }
                if n == 1 {
                    return chars_to_string(&texts[0]);
                }
                let mut head: Vec<Vec<char>> = Vec::new();
                let mut k: usize = 0;
                while k < n - 1
                    invariant
                        k <= n - 1,
                        n == texts.len(),
                        views(head@) == views(texts@).take(k as int),
                    decreases n - 1 - k,
                {
                    let c = slice(&texts[k], 0, texts[k].len());
                    assert(c@ =~= texts@[k as int]@);
                    let ghost old_h = views(head@);
                    head.push(c);
                    assert(views(head@) =~= old_h.push(c@));
                    assert(old_h.push(c@) =~= views(texts@).take(k + 1));
                    k += 1;
                }
                assert(views(head@) =~= parts.drop_last());
                let comma = vec![',', ' '];
                let mut out = join_texts(&head, &comma);
                push_all(&mut out, &comma);
                push_all(&mut out, &conn);
                out.push(' ');
                push_all(&mut out, &texts[n - 1]);
                assert(comma@ =~= seq![',', ' ']);
                assert(out@ =~= sentence(parts, conn@));
                chars_to_string(&out)
            },
            _ => String::new(),
        }
    }
}

/// The `compact` filter.
pub struct Compact;

impl Compact {
    /// Flattens an array by one level and drops its nils; input that is not
    /// an array gives nil.
    pub fn evaluate(&self, input: &Value) -> (r: Value)
        ensures
            r.sv() == match input.sv() {
                SValue::Array(items) => SValue::Array(without_nil(flatten_one(items))),
                _ => SValue::Nil,
            },
    {
        match input {
            Value::Array(items) => {
                proof { lemma_array_sv(input, items); }
                let ghost all = svs(items@);
                let mut out: Vec<Value> = Vec::new();
                let mut i: usize = 0;
                while i < items.len()
                    invariant
                        i <= items.len(),
                        all == svs(items@),
                        svs(out@) == without_nil(flatten_one(all.take(i as int))),
                    decreases items.len() - i,
                {
                    assert(all.take(i + 1).drop_last() =~= all.take(i as int));
                    let ghost before = flatten_one(all.take(i as int));
                    match &items[i] {
                        Value::Array(inner) => {
                            proof { lemma_array_sv(&items@[i as int], inner); }
                            let mut j: usize = 0;
                            while j < inner.len()
                                invariant
                                    j <= inner.len(),
                                    svs(out@) == without_nil(before + svs(inner@).take(j as int)),
                                decreases inner.len() - j,
                            {
                                let ghost cur = before + svs(inner@).take(j as int);
                                assert((before + svs(inner@).take(j + 1)).drop_last() =~= cur);
                                if !matches!(inner[j], Value::Nil) {
                                    out.push(inner[j].duplicate());
                                }
                                assert(svs(out@) =~= without_nil(before + svs(inner@).take(j + 1)));
                                j += 1;
                            }
                            assert(svs(inner@).take(inner.len() as int) =~= svs(inner@));
                            assert(flatten_one(all.take(i + 1)) == before + svs(inner@));
                        },
                        other => {
                            assert(flatten_one(all.take(i + 1)) =~= before.push(other.sv()));
                            assert((before.push(other.sv())).drop_last() =~= before);
                            if !matches!(other, Value::Nil) {
                                out.push(other.duplicate());
                            }
                            assert(svs(out@) =~= without_nil(before.push(other.sv())));
                        },
                    }
                    i += 1;
                }
                assert(all.take(items.len() as int) =~= all);
                array_of(out)
            },
            _ => Value::Nil,
        }
    }
}

/// The `map` filter.
pub struct MapFilter;

impl MapFilter {
    /// The value of `property` of each item of an array (nil where an item has
    /// none), with array values spliced in; input that is not an array gives nil.
    pub fn evaluate(&self, input: &Value, property: &str) -> (r: Value)
        ensures
            r.sv() == match input.sv() {
                SValue::Array(items) => SValue::Array(flatten_one(mapped(items, property@))),
                _ => SValue::Nil,
            },
    {
        match input {
            Value::Array(items) => {
                proof { lemma_array_sv(input, items); }
                let p = str_to_chars(property);
                let ghost all = mapped(svs(items@), property@);
                let mut out: Vec<Value> = Vec::new();
                let mut i: usize = 0;
                while i < items.len()
                    invariant
                        i <= items.len(),
                        p@ == property@,
                        all == mapped(svs(items@), property@),
                        svs(out@) == flatten_one(all.take(i as int)),
                    decreases items.len() - i,
                {
                    assert(all.take(i + 1).drop_last() =~= all.take(i as int));
                    let ghost before = svs(out@);
                    match items[i].get_property(&p) {
                        Some(v) => {
                            assert(all[i as int] == v.sv());
                            match v {
                                Value::Array(inner) => {
                                    proof { lemma_array_sv(v, inner); }
                                    let mut j: usize = 0;
                                    while j < inner.len()
                                        invariant
                                            j <= inner.len(),
                                            svs(out@) == before + svs(inner@).take(j as int),
                                        decreases inner.len() - j,
                                    {
                                        let ghost old_o = svs(out@);
                                        let d = inner[j].duplicate();
                                        out.push(d);
                                        assert(svs(out@) =~= old_o.push(d.sv()));
                                        assert(old_o.push(d.sv()) =~= before + svs(inner@).take(j + 1));
                                        j += 1;
                                    }
                                    assert(svs(inner@).take(inner.len() as int) =~= svs(inner@));
                                },
                                other => {
                                    out.push(other.duplicate());
                                    assert(svs(out@) =~= before.push(other.sv()));
                                },
                            }
                        },
                        None => {
                            assert(all[i as int] == SValue::Nil);
                            out.push(Value::Nil);
                            assert(svs(out@) =~= before.push(SValue::Nil));
                        },
                    }
                    i += 1;
                }
                assert(all.take(items.len() as int) =~= all);
                array_of(out)
            },
            _ => Value::Nil,
        }
    }
}

/// The `find` filter.
pub struct Find;

impl Find {
    /// The first item of an array whose `property` renders as `target`; nil
    /// when there is none or the input is not an array.
    pub fn evaluate(&self, input: &Value, property: &str, target: &str) -> (r: Value)
        ensures
            match input.sv() {
                SValue::Array(items) => {
                    ||| exists|k: int|
                        0 <= k < items.len() && property_renders_as(items[k], property@, target@)
                            && (forall|j: int|
                            0 <= j < k ==> !property_renders_as(
                                #[trigger] items[j],
                                property@,
                                target@,
                            )) && r.sv() == items[k]
                    ||| (forall|j: int|
                        0 <= j < items.len() ==> !property_renders_as(
                            #[trigger] items[j],
                            property@,
                            target@,
                        )) && r.sv() == SValue::Nil
                },
                _ => r.sv() == SValue::Nil,
            },
    {
        match input {
            Value::Array(items) => {
                proof { lemma_array_sv(input, items); }
                let ghost all = svs(items@);
                let p = str_to_chars(property);
                let t = str_to_chars(target);
                let mut i: usize = 0;
                while i < items.len()
                    invariant
                        i <= items.len(),
                        p@ == property@,
                        t@ == target@,
                        all == svs(items@),
                        input.sv() == SValue::Array(all),
                        forall|j: int|
                            0 <= j < i ==> !property_renders_as(#[trigger] all[j], property@, target@),
                    decreases items.len() - i,
                {
                    if let Some(v) = items[i].get_property(&p) {
                        let text = v.render_chars();
                        if vec_eq(&text, &t) {
                            assert(property_renders_as(all[i as int], property@, target@));
                            let d = items[i].duplicate();
                            assert(d.sv() == all[i as int]);
                            return d;
                        }
                    }
                    i += 1;
                }
                Value::Nil
            },
            _ => Value::Nil,
        }
    }
}

/// The `camelcase` filter, which Jekyll passes through unchanged.
pub struct Camelcase;

impl Camelcase {
    /// Returns the input unchanged.
    pub fn evaluate(&self, input: &Value) -> (r: Value)
        ensures
            r.sv() == input.sv(),
    {
        input.duplicate()
    }
}

/// A stand-in registered under the name of a filter nobody defined: it
/// returns its input unchanged.
pub struct PassthroughFilter {
    name: String,
}

impl PassthroughFilter {
    /// The stand-in for the filter called `name`.
    pub fn new(name: &str) -> (f: PassthroughFilter)
        ensures
            f.name_spec() == name@,
    {
        PassthroughFilter { name: name.to_string() }
    }

    /// The name the stand-in answers to.
    pub closed spec fn name_spec(&self) -> Seq<char> {
        self.name@
    }

    /// The name the stand-in answers to.
    pub fn name(&self) -> (r: &str)
        ensures
            r@ == self.name_spec(),
    {
        self.name.as_str()
    }

    /// The description every stand-in reports.
    pub fn description(&self) -> (r: &'static str)
        ensures
            r@ == "Passthrough filter for unknown filter name (returns input unchanged)"@,
    {
        "Passthrough filter for unknown filter name (returns input unchanged)"
    }

    /// Returns the input unchanged.
    pub fn evaluate(&self, input: &Value) -> (r: Value)
        ensures
            r.sv() == input.sv(),
    {
        input.duplicate()
    }
}

} // verus!
