//! Nil guards for `contains` in `{% if %}` / `{% elsif %}` conditions:
//! `{% if EXPR contains "x" %}` becomes `{% if EXPR and EXPR contains "x" %}`.
use vstd::prelude::*;
use crate::capture::{tag_unchanged, unchanged_tag};
use crate::spans::{every_span, lemma_rewrite_spans_keeps, rewrite_spans, rewrite_spans_total, SpanRule};
use crate::tagbody::{dash, push_dash, split_tag_parts, strip_prefix, tag_parts};
use crate::text::{
    chars_to_string, contains, find, find_at, find_from, has_prefix, lemma_find_from,
    lemma_find_skip, lemma_rfind_before, occurs_at, push_all, push_range, rfind, rfind_before, rfind_chars, slice,
    starts_with, str_to_chars, trim, trim_chars, trim_end, trim_end_chars,
};

verus! {

/// The keyword text `" contains "`.
pub open spec fn kw_contains() -> Seq<char> {
    " contains "@
}

/// The last `and`/`or` operand of an expression fragment: the text after the
/// rightmost `" and "` or `" or "` (whichever starts later) of the fragment
/// with trailing white space removed, trimmed.
pub open spec fn last_operand(expr: Seq<char>) -> Seq<char> {
    let t = trim_end(expr);
    let boundary = match (rfind(t, " and "@), rfind(t, " or "@)) {
        (Some(a), Some(o)) => Some(if a >= o { a } else { o }),
        (Some(a), None) => Some(a),
        (None, Some(o)) => Some(o),
        (None, None) => None,
    };
    match boundary {
        Some(pos) => {
            let skip: int = if starts_with(t.skip(pos), " and "@) { 5 } else { 4 };
            trim(t.skip(pos + skip))
        },
        None => trim(t),
    }
}

/// Every `" contains "` of `rem` rewritten with a nil guard on its left
/// operand; the flag tells whether some operand was non-empty (a guard added).
pub open spec fn guard_contains(rem: Seq<char>) -> (Seq<char>, bool)
    decreases rem.len(),
{
    match find(rem, kw_contains()) {
        None => (rem, false),
        Some(p) => if 0 <= p && p + kw_contains().len() <= rem.len() {
            let before = rem.take(p);
            let lhs = last_operand(before);
            proof {
                reveal_strlit(" contains ");
            }
            let (rest, changed) = guard_contains(rem.skip(p + kw_contains().len()));
            if lhs.len() > 0 {
                (before + " and "@ + lhs + kw_contains() + rest, true)
            } else {
                (before + kw_contains() + rest, changed)
            }
        } else {
            (rem, false)
        },
    }
}

/// `expr` with nil guards added, or `None` when no guard applies.
pub open spec fn contains_guarded_expr(expr: Seq<char>) -> Option<Seq<char>> {
    if !contains(expr, kw_contains()) {
        None
    } else {
        let (r, changed) = guard_contains(expr);
        if changed {
            Some(r)
        } else {
            None
        }
    }
}

/// An `if`/`elsif` condition with nil guards added, or `None`.
pub open spec fn contains_guarded_condition(condition: Seq<char>) -> Option<Seq<char>> {
    if !contains(condition, kw_contains()) {
        None
    } else {
        let kw_expr: Option<(Seq<char>, Seq<char>)> = match strip_prefix(condition, "elsif "@) {
            Some(rest) => Some(("elsif"@, trim(rest))),
            None => match strip_prefix(condition, "if "@) {
                Some(rest) => Some(("if"@, trim(rest))),
                None => None,
            },
        };
        match kw_expr {
            None => None,
            Some((kw, expr)) => match contains_guarded_expr(expr) {
                Some(r) => Some(kw + " "@ + r),
                None => None,
            },
        }
    }
}

/// What a tag becomes: `if`/`elsif` tags whose condition gets a nil guard are
/// rewritten as `{%` dash ` ` condition ` ` dash `%}`; others stay as written.
pub open spec fn nil_contains_replacement(inner: Seq<char>) -> Seq<char> {
    let (lead, content, trail) = tag_parts(inner);
    if starts_with(content, "if "@) || starts_with(content, "elsif "@) {
        match contains_guarded_condition(content) {
            Some(rw) => "{%"@ + dash(lead) + " "@ + rw + " "@ + dash(trail) + "%}"@,
            None => tag_unchanged(inner),
        }
    } else {
        tag_unchanged(inner)
    }
}

/// Extracts the last operand of an expression fragment.
pub fn extract_last_operand(expr: &Vec<char>) -> (r: Vec<char>)
    ensures
        r@ == last_operand(expr@),
{
    let t = trim_end_chars(expr);
    let and_kw = str_to_chars(" and ");
    let or_kw = str_to_chars(" or ");
    let last_and = rfind_chars(&t, &and_kw);
    let last_or = rfind_chars(&t, &or_kw);
    proof {
        lemma_rfind_before(t@, and_kw@, t@.len() as int + 1);
        lemma_rfind_before(t@, or_kw@, t@.len() as int + 1);
        reveal_strlit(" and ");
        reveal_strlit(" or ");
    }
    let boundary: Option<usize> = match (last_and, last_or) {
        (Some(a), Some(o)) => Some(if a >= o { a } else { o }),
        (Some(a), None) => Some(a),
        (None, Some(o)) => Some(o),
        (None, None) => None,
    };
    match boundary {
        Some(pos) => {
            let after = slice(&t, pos, t.len());
            assert(after@ =~= t@.skip(pos as int));
            let skip: usize = if has_prefix(&after, &and_kw) { 5 } else { 4 };
            let rest = slice(&t, pos + skip, t.len());
            assert(rest@ =~= t@.skip(pos + skip));
            trim_chars(&rest)
        },
        None => trim_chars(&t),
    }
}

/// Adds nil guards to every `contains` of an expression; `None` when the
/// expression has no `contains` or no guard applies.
pub fn rewrite_contains_in_expr(expr: &Vec<char>) -> (r: Option<Vec<char>>)
    ensures
        match r {
            Some(v) => contains_guarded_expr(expr@) == Some(v@),
            None => contains_guarded_expr(expr@) is None,
        },
{
    let kw = str_to_chars(" contains ");
    proof { reveal_strlit(" contains "); }
    let first = find_at(expr, &kw, 0);
    if first.is_none() {
        return None;
    }
    let mut result: Vec<char> = Vec::new();
    let mut pos: usize = 0;
    let mut changed = false;
    assert(expr@.skip(0) =~= expr@);
    loop
        invariant
            pos <= expr.len(),
            kw@ == kw_contains(),
            kw@.len() == 10,
            contains(expr@, kw_contains()),
            guard_contains(expr@).0 == result@ + guard_contains(expr@.skip(pos as int)).0,
            guard_contains(expr@).1 == (changed || guard_contains(expr@.skip(pos as int)).1),
        decreases expr.len() + 1 - pos,
    {
        let ghost rem = expr@.skip(pos as int);
        proof { lemma_find_skip(expr@, kw@, pos as int); lemma_find_from(expr@, kw@, pos as int); }
        match find_at(expr, &kw, pos) {
            None => {
                push_range(&mut result, expr, pos, expr.len());
                assert(rem =~= expr@.subrange(pos as int, expr@.len() as int));
                assert(guard_contains(rem) == (rem, false));
                if changed {
                    return Some(result);
                } else {
                    return None;
                }
            },
            Some(k) => {
                let before = slice(expr, pos, k);
                assert(before@ =~= rem.take(k - pos));
                let lhs = extract_last_operand(&before);
                proof { lemma_guard_step(rem, k - pos); }
                push_all(&mut result, &before);
                if lhs.len() > 0 {
                    push_all(&mut result, &str_to_chars(" and "));
                    push_all(&mut result, &lhs);
                    changed = true;
                }
                push_all(&mut result, &kw);
                assert(rem.skip(k - pos + 10) =~= expr@.skip(k + 10));
                pos = k + 10;
            },
        }
    }
}

/// One step of `guard_contains` at its first keyword occurrence.
proof fn lemma_guard_step(rem: Seq<char>, p: int)
    requires
        find(rem, kw_contains()) == Some(p),
        0 <= p,
        p + kw_contains().len() <= rem.len(),
    ensures
        ({
            let before = rem.take(p);
            let lhs = last_operand(before);
            let (rest, changed) = guard_contains(rem.skip(p + kw_contains().len()));
            guard_contains(rem) == if lhs.len() > 0 {
                (before + " and "@ + lhs + kw_contains() + rest, true)
            } else {
                (before + kw_contains() + rest, changed)
            }
        }),
{
}

/// Adds nil guards to an `if`/`elsif` condition, or `None` when none applies.
pub fn rewrite_contains_with_nil_guard(condition: &Vec<char>) -> (r: Option<Vec<char>>)
    ensures
        match r {
            Some(v) => contains_guarded_condition(condition@) == Some(v@),
            None => contains_guarded_condition(condition@) is None,
        },
{
    let kw = str_to_chars(" contains ");
    if find_at(condition, &kw, 0).is_none() {
        return None;
    }
    let elsif_kw = str_to_chars("elsif ");
    let if_kw = str_to_chars("if ");
    let (keyword, expr) = if has_prefix(condition, &elsif_kw) {
        let rest = slice(condition, elsif_kw.len(), condition.len());
        assert(rest@ =~= condition@.skip(elsif_kw@.len() as int));
        (str_to_chars("elsif"), trim_chars(&rest))
    } else if has_prefix(condition, &if_kw) {
        let rest = slice(condition, if_kw.len(), condition.len());
        assert(rest@ =~= condition@.skip(if_kw@.len() as int));
        (str_to_chars("if"), trim_chars(&rest))
    } else {
        return None;
    };
    match rewrite_contains_in_expr(&expr) {
        Some(rw) => {
            let mut out = keyword;
            push_all(&mut out, &str_to_chars(" "));
            push_all(&mut out, &rw);
            Some(out)
        },
        None => None,
    }
}

/// The rule adding nil guards to `contains` in `if`/`elsif` tags.
pub struct NilContainsRule;

impl SpanRule for NilContainsRule {
    open spec fn replaced(&self, inner: Seq<char>) -> Seq<char> {
        nil_contains_replacement(inner)
    }

    open spec fn admits(&self, inner: Seq<char>) -> bool {
        true
    }

    fn replace(&self, inner: &Vec<char>) -> (r: Vec<char>) {
        let (lead, content, trail) = split_tag_parts(inner);
        if has_prefix(&content, &str_to_chars("if ")) || has_prefix(&content, &str_to_chars("elsif ")) {
            match rewrite_contains_with_nil_guard(&content) {
                Some(rw) => {
                    let mut out = str_to_chars("{%");
                    push_dash(&mut out, lead);
                    push_all(&mut out, &str_to_chars(" "));
                    push_all(&mut out, &rw);
                    push_all(&mut out, &str_to_chars(" "));
                    push_dash(&mut out, trail);
                    push_all(&mut out, &str_to_chars("%}"));
                    out
                },
                None => unchanged_tag(inner),
            }
        } else {
            unchanged_tag(inner)
        }
    }
}

/// The template with nil guards added to `contains` in `if`/`elsif` tags.
pub open spec fn nil_contains_rewritten(t: Seq<char>) -> Seq<char> {
    rewrite_spans(NilContainsRule, t, 0, "{%"@, "%}"@)
}

/// A tag whose content (trimmed, dashes removed) is an `if` or `elsif`
/// condition holding `" contains "`.
pub open spec fn has_contains_condition(inner: Seq<char>) -> bool {
    let c = tag_parts(inner).1;
    (starts_with(c, "if "@) || starts_with(c, "elsif "@)) && contains(c, kw_contains())
}

/// A template none of whose tags is an `if`/`elsif` with a `contains`
/// comes out of the nil-guard pass as it went in.
pub proof fn lemma_nil_contains_keeps_other_templates(t: Seq<char>)
    requires
        every_span(|x: Seq<char>| !has_contains_condition(x), t, 0, "{%"@, "%}"@),
    ensures
        nil_contains_rewritten(t) == t,
{
    let p = |x: Seq<char>| !has_contains_condition(x);
    assert forall|x: Seq<char>| #[trigger] p(x) implies NilContainsRule.replaced(x) == "{%"@ + x + "%}"@ by {
        assert(tag_unchanged(x) == "{%"@ + x + "%}"@);
    }
    lemma_rewrite_spans_keeps(NilContainsRule, p, t, 0, "{%"@, "%}"@);
    assert(t.skip(0) =~= t);
}

/// Rewrites `{% if EXPR contains "STR" %}` to
/// `{% if EXPR and EXPR contains "STR" %}` (also for `elsif`), so that a nil
/// `EXPR` makes the condition false instead of an error.
pub fn preprocess_nil_contains(template: &str) -> (r: String)
    ensures
        r@ == nil_contains_rewritten(template@),
{
    let s = str_to_chars(template);
    let open = str_to_chars("{%");
    proof { reveal_strlit("{%"); }
    let out = rewrite_spans_total(&NilContainsRule, &s, &open, &str_to_chars("%}"));
    chars_to_string(&out)
}

} // verus!
