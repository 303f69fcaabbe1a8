//! Reading the body of a `{% ... %}` tag: whitespace-control dashes and words.
use vstd::prelude::*;
use crate::text::{
    lemma_trim_len,
    ends_with, has_prefix, has_suffix, is_whitespace, is_ws, slice, starts_with, trim, trim_chars,
    trim_end, trim_end_chars, trim_start, trim_start_chars,
};

verus! {

/// A tag's inner text split into its leading dash marker, its content and
/// its trailing dash marker. The inner text is trimmed; a leading `-` is
/// removed (then the start is trimmed again), and a trailing `-` is removed
/// (then the end is trimmed again).
pub open spec fn tag_parts(inner: Seq<char>) -> (bool, Seq<char>, bool) {
    let t = trim(inner);
    let lead = t.len() > 0 && t[0] == '-';
    let t1 = if lead {
        trim_start(t.drop_first())
    } else {
        t
    };
    let trail = t1.len() > 0 && t1.last() == '-';
    let t2 = if trail {
        trim_end(t1.drop_last())
    } else {
        t1
    };
    (lead, t2, trail)
}

/// A tag's inner text with surrounding white space and at most one dash on
/// each side removed: trim, drop a leading `-`, trim, drop a trailing `-`, trim.
pub open spec fn tag_core(inner: Seq<char>) -> Seq<char> {
    let t = trim(inner);
    let t1 = trim(
        if t.len() > 0 && t[0] == '-' {
            t.drop_first()
        } else {
            t
        },
    );
    trim(
        if t1.len() > 0 && t1.last() == '-' {
            t1.drop_last()
        } else {
            t1
        },
    )
}

/// Index of the first white-space character of `s`, or its length.
pub open spec fn ws_index(s: Seq<char>) -> int
    decreases s.len(),
{
    if s.len() == 0 || is_ws(s[0]) {
        0
    } else {
        1 + ws_index(s.drop_first())
    }
}

/// The first white-space separated word of `s` (empty when there is none).
pub open spec fn first_word(s: Seq<char>) -> Seq<char> {
    let t = trim_start(s);
    t.take(ws_index(t))
}

/// `s` with the literal `p` removed from its front, when `s` begins with it.
pub open spec fn strip_prefix(s: Seq<char>, p: Seq<char>) -> Option<Seq<char>> {
    if starts_with(s, p) {
        Some(s.skip(p.len() as int))
    } else {
        None
    }
}

/// The `"-"` marker when `dash` holds, else nothing.
pub open spec fn dash(d: bool) -> Seq<char> {
    if d {
        seq!['-']
    } else {
        Seq::empty()
    }
}

/// `s` starts with the word `kw` followed by white space; the text after `kw`.
pub open spec fn keyword_rest(s: Seq<char>, kw: Seq<char>) -> Option<Seq<char>> {
    if starts_with(s, kw) && s.len() > kw.len() && is_ws(s[kw.len() as int]) {
        Some(s.skip(kw.len() as int))
    } else {
        None
    }
}

/// `trim_start` drops a prefix and leaves a non-blank first character.
pub proof fn lemma_trim_start_shape(s: Seq<char>)
    ensures
        trim_start(s).len() <= s.len(),
        trim_start(s) == s.skip(s.len() - trim_start(s).len()),
        trim_start(s).len() > 0 ==> !is_ws(trim_start(s)[0]),
    decreases s.len(),
{
    if s.len() > 0 && is_ws(s[0]) {
        lemma_trim_start_shape(s.drop_first());
        assert(s.drop_first().skip(s.drop_first().len() - trim_start(s.drop_first()).len()) =~= s.skip(
            s.len() - trim_start(s).len(),
        ));
    } else {
        assert(s.skip(0) =~= s);
    }
}

/// `trim_end` keeps a prefix and leaves a non-blank last character.
pub proof fn lemma_trim_end_shape(s: Seq<char>)
    ensures
        trim_end(s).len() <= s.len(),
        trim_end(s) == s.take(trim_end(s).len() as int),
        trim_end(s).len() > 0 ==> !is_ws(trim_end(s).last()),
    decreases s.len(),
{
    if s.len() > 0 && is_ws(s.last()) {
        lemma_trim_end_shape(s.drop_last());
        assert(s.drop_last().take(trim_end(s.drop_last()).len() as int) =~= s.take(trim_end(s).len() as int));
    } else {
        assert(s.take(s.len() as int) =~= s);
    }
}

/// The first white space of `s` is at `ws_index(s)`, if anywhere.
pub proof fn lemma_ws_index(s: Seq<char>)
    ensures
        0 <= ws_index(s) <= s.len(),
        ws_index(s) < s.len() ==> is_ws(s[ws_index(s)]),
        forall|j: int| 0 <= j < ws_index(s) ==> !is_ws(#[trigger] s[j]),
    decreases s.len(),
{
    if s.len() > 0 && !is_ws(s[0]) {
        lemma_ws_index(s.drop_first());
        assert forall|j: int| 0 <= j < ws_index(s) implies !is_ws(#[trigger] s[j]) by {
            if j > 0 {
                assert(s[j] == s.drop_first()[j - 1]);
            }
        }
    }
}

/// `y` is a contiguous piece of `x`.
pub open spec fn is_sub(y: Seq<char>, x: Seq<char>) -> bool {
    exists|a: int, b: int| 0 <= a <= b <= x.len() && y == x.subrange(a, b)
}

pub proof fn lemma_sub_trans(z: Seq<char>, y: Seq<char>, x: Seq<char>)
    requires
        is_sub(z, y),
        is_sub(y, x),
    ensures
        is_sub(z, x),
{
    let (a1, b1) = choose|a: int, b: int| 0 <= a <= b <= x.len() && y == x.subrange(a, b);
    let (a2, b2) = choose|a: int, b: int| 0 <= a <= b <= y.len() && z == y.subrange(a, b);
    assert(z =~= x.subrange(a1 + a2, a1 + b2));
}

pub proof fn lemma_sub_range(x: Seq<char>, a: int, b: int)
    requires
        0 <= a <= b <= x.len(),
    ensures
        is_sub(x.subrange(a, b), x),
{
}

/// Trimming and dropping ends keep a contiguous piece.
pub proof fn lemma_sub_trims(x: Seq<char>)
    ensures
        is_sub(trim_start(x), x),
        is_sub(trim_end(x), x),
        is_sub(trim(x), x),
        x.len() > 0 ==> is_sub(x.drop_first(), x) && is_sub(x.drop_last(), x),
        is_sub(x, x),
{
    lemma_trim_start_shape(x);
    lemma_trim_end_shape(x);
    assert(trim_start(x) =~= x.subrange(x.len() - trim_start(x).len(), x.len() as int));
    lemma_sub_range(x, x.len() - trim_start(x).len(), x.len() as int);
    assert(trim_end(x) =~= x.subrange(0, trim_end(x).len() as int));
    lemma_sub_range(x, 0, trim_end(x).len() as int);
    let ts = trim_start(x);
    lemma_trim_end_shape(ts);
    assert(trim_end(ts) =~= ts.subrange(0, trim_end(ts).len() as int));
    lemma_sub_range(ts, 0, trim_end(ts).len() as int);
    lemma_sub_trans(trim(x), ts, x);
    if x.len() > 0 {
        assert(x.drop_first() =~= x.subrange(1, x.len() as int));
        assert(x.drop_last() =~= x.subrange(0, x.len() - 1));
        lemma_sub_range(x, 1, x.len() as int);
        lemma_sub_range(x, 0, x.len() - 1);
    }
    assert(x =~= x.subrange(0, x.len() as int));
    lemma_sub_range(x, 0, x.len() as int);
}

/// A tag's content is a contiguous piece of its inner text.
pub proof fn lemma_tag_parts_sub(inner: Seq<char>)
    ensures
        is_sub(tag_parts(inner).1, inner),
{
    let t = trim(inner);
    lemma_sub_trims(inner);
    let lead = t.len() > 0 && t[0] == '-';
    let t1 = if lead {
        trim_start(t.drop_first())
    } else {
        t
    };
    lemma_sub_trims(t);
    if lead {
        lemma_sub_trims(t.drop_first());
        lemma_sub_trans(t1, t.drop_first(), t);
    }
    lemma_sub_trans(t1, t, inner);
    let trail = t1.len() > 0 && t1.last() == '-';
    lemma_sub_trims(t1);
    if trail {
        lemma_sub_trims(t1.drop_last());
        lemma_sub_trans(trim_end(t1.drop_last()), t1.drop_last(), t1);
        lemma_sub_trans(trim_end(t1.drop_last()), t1, inner);
    }
}

/// A tag's content and its two dashes fit in its inner text.
pub proof fn lemma_tag_parts_dashes(inner: Seq<char>)
    ensures
        tag_parts(inner).1.len() + dash(tag_parts(inner).0).len() + dash(tag_parts(inner).2).len() <= inner.len(),
{
    let t = trim(inner);
    lemma_trim_len(inner);
    let lead = t.len() > 0 && t[0] == '-';
    let t1 = if lead {
        trim_start(t.drop_first())
    } else {
        t
    };
    lemma_trim_len(t.drop_first());
    let trail = t1.len() > 0 && t1.last() == '-';
    lemma_trim_len(t1.drop_last());
}

/// The content of a tag is no longer than its inner text.
pub proof fn lemma_tag_parts_len(inner: Seq<char>)
    ensures
        tag_parts(inner).1.len() <= inner.len(),
{
    let t = trim(inner);
    lemma_trim_len(inner);
    if t.len() > 0 {
        lemma_trim_len(t.drop_first());
    }
    let t1 = if t.len() > 0 && t[0] == '-' { trim_start(t.drop_first()) } else { t };
    if t1.len() > 0 {
        lemma_trim_len(t1.drop_last());
    }
}

pub proof fn lemma_ws_index_bounds(s: Seq<char>)
    ensures
        0 <= ws_index(s) <= s.len(),
        forall|j: int| 0 <= j < ws_index(s) ==> !is_ws(#[trigger] s[j]),
        ws_index(s) < s.len() ==> is_ws(s[ws_index(s)]),
    decreases s.len(),
{
    if s.len() > 0 && !is_ws(s[0]) {
        lemma_ws_index_bounds(s.drop_first());
        assert forall|j: int| 0 <= j < ws_index(s) implies !is_ws(#[trigger] s[j]) by {
            if j > 0 {
                assert(s[j] == s.drop_first()[j - 1]);
            }
        }
    }
}

pub proof fn lemma_ws_index_at(s: Seq<char>, k: int)
    requires
        0 <= k <= s.len(),
        forall|j: int| 0 <= j < k ==> !is_ws(#[trigger] s[j]),
        k == s.len() || is_ws(s[k]),
    ensures
        ws_index(s) == k,
    decreases k,
{
    if k > 0 {
        let t = s.drop_first();
        assert forall|j: int| 0 <= j < k - 1 implies !is_ws(#[trigger] t[j]) by {
            assert(t[j] == s[j + 1]);
        }
        assert(!is_ws(s[0]));
        lemma_ws_index_at(t, k - 1);
    }
}

/// Splits a tag's inner text into (leading dash, content, trailing dash).
pub fn split_tag_parts(inner: &Vec<char>) -> (r: (bool, Vec<char>, bool))
    ensures
        r.0 == tag_parts(inner@).0,
        r.1@ == tag_parts(inner@).1,
        r.2 == tag_parts(inner@).2,
{
    let t = trim_chars(inner);
    let lead = t.len() > 0 && t[0] == '-';
    let t1 = if lead {
        let d = slice(&t, 1, t.len());
        assert(d@ =~= t@.drop_first());
        trim_start_chars(&d)
    } else {
        t
    };
    let trail = t1.len() > 0 && t1[t1.len() - 1] == '-';
    let t2 = if trail {
        let d = slice(&t1, 0, t1.len() - 1);
        assert(d@ =~= t1@.drop_last());
        trim_end_chars(&d)
    } else {
        t1
    };
    (lead, t2, trail)
}

/// A tag's inner text stripped of white space and of one dash on each side.
pub fn tag_core_chars(inner: &Vec<char>) -> (r: Vec<char>)
    ensures
        r@ == tag_core(inner@),
{
    let t = trim_chars(inner);
    let t1 = if t.len() > 0 && t[0] == '-' {
        let d = slice(&t, 1, t.len());
        assert(d@ =~= t@.drop_first());
        trim_chars(&d)
    } else {
        trim_chars(&t)
    };
    if t1.len() > 0 && t1[t1.len() - 1] == '-' {
        let d = slice(&t1, 0, t1.len() - 1);
        assert(d@ =~= t1@.drop_last());
        trim_chars(&d)
    } else {
        trim_chars(&t1)
    }
}

/// The first white-space separated word of `s`.
pub fn first_word_chars(s: &Vec<char>) -> (r: Vec<char>)
    ensures
        r@ == first_word(s@),
{
    let t = trim_start_chars(s);
    let mut k: usize = 0;
    while k < t.len() && !is_whitespace(t[k])
        invariant
            k <= t.len(),
            forall|j: int| 0 <= j < k ==> !is_ws(#[trigger] t@[j]),
        decreases t.len() - k,
    {
        k += 1;
    }
    proof { lemma_ws_index_at(t@, k as int); }
    let r = slice(&t, 0, k);
    assert(r@ =~= t@.take(k as int));
    r
}

/// The text after the word `kw` when `s` starts with `kw` and white space.
pub fn keyword_rest_chars(s: &Vec<char>, kw: &Vec<char>) -> (r: Option<Vec<char>>)
    ensures
        match r {
            Some(v) => keyword_rest(s@, kw@) == Some(v@),
            None => keyword_rest(s@, kw@) is None,
        },
{
    if has_prefix(s, kw) && s.len() > kw.len() && is_whitespace(s[kw.len()]) {
        let v = slice(s, kw.len(), s.len());
        assert(v@ =~= s@.skip(kw@.len() as int));
        Some(v)
    } else {
        None
    }
}

/// Appends `"-"` to `out` when `d` holds.
pub fn push_dash(out: &mut Vec<char>, d: bool)
    ensures
        final(out)@ == old(out)@ + dash(d),
{
    if d {
        out.push('-');
        assert(old(out)@.push('-') =~= old(out)@ + seq!['-']);
    } else {
        assert(old(out)@ + Seq::<char>::empty() =~= old(out)@);
    }
}

} // verus!
