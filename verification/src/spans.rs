//! Rewriting of delimited spans (`{% ... %}` tags, `{{ ... }}` outputs).
//!
//! A template is scanned left to right: the leftmost opening delimiter is
//! found, then the leftmost closing delimiter after it; the text between them
//! (the span's inner text) is handed to a rule that says what the whole span
//! becomes. Text outside spans is kept, and an opening delimiter with no
//! closing one leaves the rest of the template as it is.
use vstd::prelude::*;
use crate::text::{
    byte_len, find_at, find_from, lemma_byte_len_concat, lemma_find_from, lemma_find_from_unique, occurs_at, push_all,
    push_range, slice,
};

verus! {

/// A rule that says what a delimited span becomes, given its inner text.
pub trait SpanRule {
    /// The replacement for the whole span whose inner text is `inner`.
    spec fn replaced(&self, inner: Seq<char>) -> Seq<char>;

    /// The spans the rule can replace (others make the rewriting panic).
    spec fn admits(&self, inner: Seq<char>) -> bool;

    /// Computes the replacement for the span whose inner text is `inner`.
    fn replace(&self, inner: &Vec<char>) -> (r: Vec<char>)
        requires
            self.admits(inner@),
        ensures
            r@ == self.replaced(inner@),
    ;
}

/// The text from index `pos` on, with every span between `open` and `close`
/// replaced according to `rule`.
pub open spec fn rewrite_spans<R: SpanRule>(
    rule: R,
    s: Seq<char>,
    pos: int,
    open: Seq<char>,
    close: Seq<char>,
) -> Seq<char>
    decreases s.len() + 1 - pos,
{
    if !(0 <= pos <= s.len()) || open.len() == 0 {
        s.skip(pos)
    } else {
        match find_from(s, open, pos) {
            None => s.skip(pos),
            Some(st) => match find_from(s, close, st + open.len()) {
                None => s.skip(pos),
                Some(e) => if pos <= st && st + open.len() <= e && e + close.len() <= s.len() {
                    s.subrange(pos, st) + rule.replaced(s.subrange(st + open.len(), e))
                        + rewrite_spans(rule, s, e + close.len(), open, close)
                } else {
                    s.skip(pos)
                },
            },
        }
    }
}

/// Every span from index `pos` on, found as `rewrite_spans` finds them, is
/// one that `rule` admits.
pub open spec fn spans_admitted<R: SpanRule>(rule: R, s: Seq<char>, pos: int, open: Seq<char>, close: Seq<char>) -> bool
    decreases s.len() + 1 - pos,
{
    if !(0 <= pos <= s.len()) || open.len() == 0 {
        true
    } else {
        match find_from(s, open, pos) {
            None => true,
            Some(st) => match find_from(s, close, st + open.len()) {
                None => true,
                Some(e) => if pos <= st && st + open.len() <= e && e + close.len() <= s.len() {
                    rule.admits(s.subrange(st + open.len(), e)) && spans_admitted(
                        rule,
                        s,
                        e + close.len(),
                        open,
                        close,
                    )
                } else {
                    true
                },
            },
        }
    }
}

/// A rule that admits every span admits all spans of any text.
pub proof fn lemma_spans_admitted_all<R: SpanRule>(rule: R, s: Seq<char>, pos: int, open: Seq<char>, close: Seq<char>)
    requires
        forall|x: Seq<char>| #[trigger] rule.admits(x),
    ensures
        spans_admitted(rule, s, pos, open, close),
    decreases s.len() + 1 - pos,
{
    if 0 <= pos <= s.len() && open.len() > 0 {
        match find_from(s, open, pos) {
            None => {},
            Some(st) => match find_from(s, close, st + open.len()) {
                None => {},
                Some(e) => if pos <= st && st + open.len() <= e && e + close.len() <= s.len() {
                    lemma_spans_admitted_all(rule, s, e + close.len(), open, close);
                },
            },
        }
    }
}

/// Every span from index `pos` on, found as `rewrite_spans` finds them, has
/// an inner text for which `p` holds.
pub open spec fn every_span(p: spec_fn(Seq<char>) -> bool, s: Seq<char>, pos: int, open: Seq<char>, close: Seq<char>) -> bool
    decreases s.len() + 1 - pos,
{
    if !(0 <= pos <= s.len()) || open.len() == 0 {
        true
    } else {
        match find_from(s, open, pos) {
            None => true,
            Some(st) => match find_from(s, close, st + open.len()) {
                None => true,
                Some(e) => if pos <= st && st + open.len() <= e && e + close.len() <= s.len() {
                    p(s.subrange(st + open.len(), e)) && every_span(p, s, e + close.len(), open, close)
                } else {
                    true
                },
            },
        }
    }
}

/// A rule that writes back every span for which `p` holds, as it was, leaves
/// a text whose spans all satisfy `p` unchanged.
pub proof fn lemma_rewrite_spans_keeps<R: SpanRule>(
    rule: R,
    p: spec_fn(Seq<char>) -> bool,
    s: Seq<char>,
    pos: int,
    open: Seq<char>,
    close: Seq<char>,
)
    requires
        0 <= pos <= s.len(),
        forall|x: Seq<char>| #[trigger] p(x) ==> rule.replaced(x) == open + x + close,
        every_span(p, s, pos, open, close),
    ensures
        rewrite_spans(rule, s, pos, open, close) == s.skip(pos),
    decreases s.len() + 1 - pos,
{
    if open.len() > 0 {
        lemma_find_from(s, open, pos);
        match find_from(s, open, pos) {
            None => {},
            Some(st) => {
                lemma_find_from(s, close, st + open.len());
                match find_from(s, close, st + open.len()) {
                    None => {},
                    Some(e) => if pos <= st && st + open.len() <= e && e + close.len() <= s.len() {
                        let inner = s.subrange(st + open.len(), e);
                        lemma_rewrite_spans_keeps(rule, p, s, e + close.len(), open, close);
                        assert(s.subrange(st, st + open.len()) == open);
                        assert(s.subrange(e, e + close.len()) == close);
                        assert(s.subrange(pos, st) + (open + inner + close) + s.skip(e + close.len()) =~= s.skip(pos));
                    },
                }
            },
        }
    }
}

/// A rule whose replacement of a span is never longer than the span leaves
/// a text no longer than it was.
pub proof fn lemma_rewrite_spans_shorter<R: SpanRule>(rule: R, s: Seq<char>, pos: int, open: Seq<char>, close: Seq<char>)
    requires
        0 <= pos <= s.len(),
        forall|x: Seq<char>| (#[trigger] rule.replaced(x)).len() <= open.len() + x.len() + close.len(),
    ensures
        rewrite_spans(rule, s, pos, open, close).len() <= s.len() - pos,
    decreases s.len() + 1 - pos,
{
    if open.len() > 0 {
        match find_from(s, open, pos) {
            None => {},
            Some(st) => match find_from(s, close, st + open.len()) {
                None => {},
                Some(e) => if pos <= st && st + open.len() <= e && e + close.len() <= s.len() {
                    lemma_rewrite_spans_shorter(rule, s, e + close.len(), open, close);
                    let inner = s.subrange(st + open.len(), e);
                    assert(rule.replaced(inner).len() <= open.len() + inner.len() + close.len());
                },
            },
        }
    }
}

/// The first `close` in `y` followed by `close` is that last one: `y` holds
/// no `close`, not even one that runs into the following `close`.
pub open spec fn closes_at_end(y: Seq<char>, close: Seq<char>) -> bool {
    find_from(y + close, close, 0) == Some(y.len() as int)
}

/// Searching the tail `t` of `u + t` is searching `t`.
proof fn lemma_find_from_shift(u: Seq<char>, t: Seq<char>, p: Seq<char>, j: int)
    requires
        0 <= j,
    ensures
        find_from(u + t, p, u.len() + j) == match find_from(t, p, j) {
            Some(k) => Some(k + u.len()),
            None => None,
        },
    decreases t.len() + 1 - j,
{
    let s = u + t;
    let i = u.len() + j;
    if i + p.len() > s.len() {
    } else {
        assert(s.subrange(i, i + p.len()) =~= t.subrange(j, j + p.len()));
        if t.subrange(j, j + p.len()) != p {
            lemma_find_from_shift(u, t, p, j + 1);
        }
    }
}

/// Rewriting the tail `t` of `u + t` is rewriting `t`.
pub proof fn lemma_rewrite_spans_shift<R: SpanRule>(
    rule: R,
    u: Seq<char>,
    t: Seq<char>,
    j: int,
    open: Seq<char>,
    close: Seq<char>,
)
    requires
        0 <= j <= t.len(),
    ensures
        rewrite_spans(rule, u + t, u.len() + j, open, close) == rewrite_spans(rule, t, j, open, close),
    decreases t.len() + 1 - j,
{
    let s = u + t;
    let ul = u.len() as int;
    if open.len() > 0 {
        lemma_find_from_shift(u, t, open, j);
        match find_from(t, open, j) {
            None => {
                assert(s.skip(ul + j) =~= t.skip(j));
            },
            Some(st) => {
                lemma_find_from(t, open, j);
                lemma_find_from_shift(u, t, close, st + open.len());
                match find_from(t, close, st + open.len()) {
                    None => {
                        assert(s.skip(ul + j) =~= t.skip(j));
                    },
                    Some(e) => {
                        lemma_find_from(t, close, st + open.len());
                        if j <= st && st + open.len() <= e && e + close.len() <= t.len() {
                            lemma_rewrite_spans_shift(rule, u, t, e + close.len(), open, close);
                            assert(s.subrange(ul + j, ul + st) =~= t.subrange(j, st));
                            assert(s.subrange(ul + st + open.len(), ul + e) =~= t.subrange(st + open.len(), e));
                        } else {
                            assert(s.skip(ul + j) =~= t.skip(j));
                        }
                    },
                }
            },
        }
    } else {
        assert(s.skip(ul + j) =~= t.skip(j));
    }
}

/// A span's inner text, followed by the closing delimiter, closes at its end.
proof fn lemma_subrange_then(s: Seq<char>, a: int, e: int, c: Seq<char>)
    requires
        0 <= a <= e,
        e + c.len() <= s.len(),
        s.subrange(e, e + c.len()) == c,
    ensures
        s.subrange(a, e) + c == s.subrange(a, e + c.len()),
{
    assert(s.subrange(a, e) + s.subrange(e, e + c.len()) =~= s.subrange(a, e + c.len()));
}

proof fn lemma_span_closes_at_end(s: Seq<char>, a: int, e: int, close: Seq<char>)
    requires
        0 <= a <= e,
        e + close.len() <= s.len(),
        find_from(s, close, a) == Some(e),
    ensures
        closes_at_end(s.subrange(a, e), close),
{
    lemma_find_from(s, close, a);
    let cl = close.len() as int;
    let x = s.subrange(a, e);
    let xl = x.len() as int;
    lemma_subrange_then(s, a, e, close);
    let w = s.subrange(a, e + cl);
    assert(x + close == w);
    assert(w.subrange(xl, xl + cl) =~= s.subrange(e, e + cl));
    assert forall|j: int| 0 <= j < xl implies !#[trigger] occurs_at(w, close, j) by {
        assert(w.subrange(j, j + cl) =~= s.subrange(a + j, a + j + cl));
        assert(!occurs_at(s, close, a + j));
    }
    lemma_find_from_unique(w, close, 0, xl);
}

/// Rewriting twice is rewriting once, for a rule that writes each span back
/// as `open`, a new inner text `g(x)`, `close`, where that new inner text
/// again closes at its end and is one the rule keeps.
#[verifier::rlimit(100)]
pub proof fn lemma_rewrite_spans_idempotent<R: SpanRule>(
    rule: R,
    g: spec_fn(Seq<char>) -> Seq<char>,
    s: Seq<char>,
    open: Seq<char>,
    close: Seq<char>,
)
    requires
        open.len() > 0,
        close.len() > 0,
        forall|x: Seq<char>| #[trigger] rule.replaced(x) == open + g(x) + close,
        forall|x: Seq<char>| closes_at_end(x, close) ==> closes_at_end(#[trigger] g(x), close) && g(g(x)) == g(x),
    ensures
        rewrite_spans(rule, rewrite_spans(rule, s, 0, open, close), 0, open, close) == rewrite_spans(
            rule,
            s,
            0,
            open,
            close,
        ),
    decreases s.len(),
{
    let ol = open.len() as int;
    let cl = close.len() as int;
    lemma_find_from(s, open, 0);
    match find_from(s, open, 0) {
        None => {
            assert(s.skip(0) =~= s);
        },
        Some(st) => {
            lemma_find_from(s, close, st + ol);
            match find_from(s, close, st + ol) {
                None => {
                    assert(s.skip(0) =~= s);
                },
                Some(e) => {
                    if 0 <= st && st + ol <= e && e + cl <= s.len() {
                        let x = s.subrange(st + ol, e);
                        let gx = g(x);
                        let rep = open + gx + close;
                        let a = s.subrange(0, st);
                        let s2 = s.skip(e + cl);
                        let tt = rewrite_spans(rule, s, e + cl, open, close);
                        assert(s =~= s.take(e + cl) + s2);
                        lemma_rewrite_spans_shift(rule, s.take(e + cl), s2, 0, open, close);
                        assert(tt == rewrite_spans(rule, s2, 0, open, close));
                        lemma_rewrite_spans_idempotent(rule, g, s2, open, close);
                        let o = a + rep + tt;
                        assert(rewrite_spans(rule, s, 0, open, close) == o);
                        lemma_span_closes_at_end(s, st + ol, e, close);
                        // the rewritten text opens its first span where the text did
                        assert(o.subrange(st, st + ol) =~= open);
                        assert forall|j: int| 0 <= j < st implies !#[trigger] occurs_at(o, open, j) by {
                            if occurs_at(o, open, j) {
                                assert(o.subrange(j, j + ol) =~= s.subrange(j, j + ol));
                                assert(occurs_at(s, open, j));
                            }
                        }
                        lemma_find_from_unique(o, open, 0, st);
                        // and closes it right after the new inner text
                        let w = gx + close;
                        let b = st + ol;
                        lemma_find_from(w, close, 0);
                        assert(o.subrange(b, b + w.len()) =~= w);
                        assert(o.subrange(b + gx.len(), b + gx.len() + cl) =~= close);
                        assert forall|j: int| b <= j < b + gx.len() implies !#[trigger] occurs_at(o, close, j) by {
                            if occurs_at(o, close, j) {
                                assert(o.subrange(j, j + cl) =~= w.subrange(j - b, j - b + cl));
                                assert(occurs_at(w, close, j - b));
                            }
                        }
                        lemma_find_from_unique(o, close, b, b + gx.len());
                        let k = b + gx.len() + cl;
                        assert(o.subrange(b, b + gx.len()) =~= gx);
                        assert(o.subrange(0, st) =~= a);
                        assert(o =~= (a + rep) + tt);
                        lemma_rewrite_spans_shift(rule, a + rep, tt, 0, open, close);
                        assert(k == (a + rep).len());
                    } else {
                        assert(s.skip(0) =~= s);
                    }
                },
            }
        },
    }
}

/// A rule whose replacement of a span never takes more bytes than the span
/// leaves a text no longer in bytes than it was.
pub proof fn lemma_rewrite_spans_fewer_bytes<R: SpanRule>(
    rule: R,
    s: Seq<char>,
    pos: int,
    open: Seq<char>,
    close: Seq<char>,
)
    requires
        0 <= pos <= s.len(),
        forall|x: Seq<char>| byte_len(#[trigger] rule.replaced(x)) <= byte_len(open) + byte_len(x) + byte_len(close),
    ensures
        byte_len(rewrite_spans(rule, s, pos, open, close)) <= byte_len(s.skip(pos)),
    decreases s.len() + 1 - pos,
{
    if open.len() > 0 {
        match find_from(s, open, pos) {
            None => {},
            Some(st) => match find_from(s, close, st + open.len()) {
                None => {},
                Some(e) => if pos <= st && st + open.len() <= e && e + close.len() <= s.len() {
                    lemma_find_from(s, open, pos);
                    lemma_find_from(s, close, st + open.len());
                    lemma_rewrite_spans_fewer_bytes(rule, s, e + close.len(), open, close);
                    let a = s.subrange(pos, st);
                    let inner = s.subrange(st + open.len(), e);
                    let rep = rule.replaced(inner);
                    let t = rewrite_spans(rule, s, e + close.len(), open, close);
                    let tail = s.skip(e + close.len());
                    assert(s.subrange(st, st + open.len()) == open);
                    assert(s.subrange(e, e + close.len()) == close);
                    assert(s.skip(pos) =~= a + open + inner + close + tail);
                    lemma_byte_len_concat(a + open + inner + close, tail);
                    lemma_byte_len_concat(a + open + inner, close);
                    lemma_byte_len_concat(a + open, inner);
                    lemma_byte_len_concat(a, open);
                    lemma_byte_len_concat(a + rep, t);
                    lemma_byte_len_concat(a, rep);
                },
            },
        }
    }
}

/// Rewrites every span of `s` between `open` and `close` with `rule`.
pub fn rewrite_spans_exec<R: SpanRule>(rule: &R, s: &Vec<char>, open: &Vec<char>, close: &Vec<char>) -> (out: Vec<char>)
    requires
        open.len() > 0,
        spans_admitted(*rule, s@, 0, open@, close@),
    ensures
        out@ == rewrite_spans(*rule, s@, 0, open@, close@),
{
    let mut out: Vec<char> = Vec::new();
    let mut pos: usize = 0;
    while pos <= s.len()
        invariant
            pos <= s.len() + 1,
            open@.len() > 0,
            pos <= s.len() ==> rewrite_spans(*rule, s@, 0, open@, close@) == out@ + rewrite_spans(
                *rule,
                s@,
                pos as int,
                open@,
                close@,
            ),
            pos > s.len() ==> rewrite_spans(*rule, s@, 0, open@, close@) == out@,
            pos <= s.len() ==> spans_admitted(*rule, s@, pos as int, open@, close@),
        decreases s.len() + 1 - pos,
    {
        let ghost before = out@;
        match find_at(s, open, pos) {
            None => {
                push_range(&mut out, s, pos, s.len());
                assert(s@.skip(pos as int) =~= s@.subrange(pos as int, s@.len() as int));
                return out;
            },
            Some(st) => {
                proof { lemma_find_from(s@, open@, pos as int); }
                match find_at(s, close, st + open.len()) {
                    None => {
                        push_range(&mut out, s, pos, s.len());
                        assert(s@.skip(pos as int) =~= s@.subrange(pos as int, s@.len() as int));
                        return out;
                    },
                    Some(e) => {
                        proof { lemma_find_from(s@, close@, st + open@.len()); }
                        push_range(&mut out, s, pos, st);
                        let inner = slice(s, st + open.len(), e);
                        let rep = rule.replace(&inner);
                        push_all(&mut out, &rep);
                        assert(out@ == before + s@.subrange(pos as int, st as int) + rule.replaced(
                            s@.subrange(st + open@.len(), e as int),
                        ));
                        pos = e + close.len();
                        assert(rewrite_spans(*rule, s@, 0, open@, close@) == out@ + rewrite_spans(
                            *rule,
                            s@,
                            pos as int,
                            open@,
                            close@,
                        ));
                    },
                }
            },
        }
    }
    out
}

/// Rules that replace and admit alike rewrite alike.
pub proof fn lemma_rewrite_spans_ext<R1: SpanRule, R2: SpanRule>(
    r1: R1,
    r2: R2,
    s: Seq<char>,
    pos: int,
    open: Seq<char>,
    close: Seq<char>,
)
    requires
        forall|x: Seq<char>| #[trigger] r1.replaced(x) == r2.replaced(x),
        forall|x: Seq<char>| #[trigger] r1.admits(x) == r2.admits(x),
    ensures
        rewrite_spans(r1, s, pos, open, close) == rewrite_spans(r2, s, pos, open, close),
        spans_admitted(r1, s, pos, open, close) == spans_admitted(r2, s, pos, open, close),
    decreases s.len() + 1 - pos,
{
    if 0 <= pos <= s.len() && open.len() > 0 {
        match find_from(s, open, pos) {
            None => {},
            Some(st) => match find_from(s, close, st + open.len()) {
                None => {},
                Some(e) => if pos <= st && st + open.len() <= e && e + close.len() <= s.len() {
                    lemma_rewrite_spans_ext(r1, r2, s, e + close.len(), open, close);
                    assert(r1.replaced(s.subrange(st + open.len(), e)) == r2.replaced(
                        s.subrange(st + open.len(), e),
                    ));
                    assert(r1.admits(s.subrange(st + open.len(), e)) == r2.admits(
                        s.subrange(st + open.len(), e),
                    ));
                },
            },
        }
    }
}

/// Rewrites every span of `s` with a rule that admits every span.
pub fn rewrite_spans_total<R: SpanRule>(rule: &R, s: &Vec<char>, open: &Vec<char>, close: &Vec<char>) -> (out: Vec<char>)
    requires
        open.len() > 0,
        forall|x: Seq<char>| #[trigger] rule.admits(x),
    ensures
        out@ == rewrite_spans(*rule, s@, 0, open@, close@),
{
    proof { lemma_spans_admitted_all(*rule, s@, 0, open@, close@); }
    rewrite_spans_exec(rule, s, open, close)
}

} // verus!
