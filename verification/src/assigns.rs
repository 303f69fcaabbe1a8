//! Filter chains in `{% for %}` iterables and parenthesized `{% assign %}`
//! expressions.
use vstd::prelude::*;
use crate::capture::{tag_unchanged, unchanged_tag};
use crate::quotes::{find_top_level_pipe, top_level_pipe};
use crate::spans::{rewrite_spans, rewrite_spans_total, SpanRule};
use crate::tagbody::{strip_prefix, tag_core, tag_core_chars};
use crate::text::{
    chars_to_string, contains, ends_with, find, find_at, has_prefix, has_suffix, push_all, slice,
    starts_with, str_to_chars, trim, trim_chars,
};

verus! {

/// The opening marker of a tag: `{%-` when its inner text starts with `-`.
pub open spec fn open_marker(inner: Seq<char>) -> Seq<char> {
    if inner.len() > 0 && inner[0] == '-' {
        "{%-"@
    } else {
        "{%"@
    }
}

/// The closing marker of a tag: `-%}` when its inner text ends with `-`.
pub open spec fn close_marker(inner: Seq<char>) -> Seq<char> {
    if inner.len() > 0 && inner.last() == '-' {
        "-%}"@
    } else {
        "%}"@
    }
}

/// What a `for` tag with a filter chain in its iterable becomes:
/// `{% assign __for_VAR = EXPR | FILTERS %}` followed by `{% for VAR in __for_VAR %}`
/// (markers kept); other tags stay as written.
pub open spec fn for_filter_replacement(inner: Seq<char>) -> Seq<char> {
    let t = tag_core(inner);
    match strip_prefix(t, "for "@) {
        Some(r) => {
            let rest = trim(r);
            match find(rest, " in "@) {
                Some(in_pos) => {
                    let var = trim(rest.take(in_pos));
                    let after_in = trim(rest.skip(in_pos + 4));
                    match top_level_pipe(after_in) {
                        Some(p) => {
                            let expr = trim(after_in.take(p));
                            let chain = trim(after_in.skip(p));
                            let temp = "__for_"@ + var;
                            "{%"@ + " assign "@ + temp + " = "@ + expr + " "@ + chain + " "@ + "%}"@
                                + open_marker(inner) + " for "@ + var + " in "@ + temp + " "@
                                + close_marker(inner)
                        },
                        None => tag_unchanged(inner),
                    }
                },
                None => tag_unchanged(inner),
            }
        },
        None => tag_unchanged(inner),
    }
}

/// What an `assign` tag with a parenthesized value becomes: the parentheses
/// are dropped (markers kept); other tags stay as written.
pub open spec fn paren_assign_replacement(inner: Seq<char>) -> Seq<char> {
    let t = tag_core(inner);
    match strip_prefix(t, "assign "@) {
        Some(rest) => match find(rest, "="@) {
            Some(eq) => {
                let after_eq = trim(rest.skip(eq + 1));
                if after_eq.len() >= 2 && after_eq[0] == '(' && after_eq.last() == ')' {
                    let var = trim(rest.take(eq));
                    open_marker(inner) + " assign "@ + var + " = "@ + after_eq.subrange(
                        1,
                        after_eq.len() - 1,
                    ) + " "@ + close_marker(inner)
                } else {
                    tag_unchanged(inner)
                }
            },
            None => tag_unchanged(inner),
        },
        None => tag_unchanged(inner),
    }
}

fn open_marker_chars(inner: &Vec<char>) -> (r: Vec<char>)
    ensures
        r@ == open_marker(inner@),
{
    if inner.len() > 0 && inner[0] == '-' {
        str_to_chars("{%-")
    } else {
        str_to_chars("{%")
    }
}

fn close_marker_chars(inner: &Vec<char>) -> (r: Vec<char>)
    ensures
        r@ == close_marker(inner@),
{
    if inner.len() > 0 && inner[inner.len() - 1] == '-' {
        str_to_chars("-%}")
    } else {
        str_to_chars("%}")
    }
}

/// The rule extracting filter chains from `for` iterables.
pub struct ForFilterRule;

impl SpanRule for ForFilterRule {
    open spec fn replaced(&self, inner: Seq<char>) -> Seq<char> {
        for_filter_replacement(inner)
    }

    open spec fn admits(&self, inner: Seq<char>) -> bool {
        true
    }

    fn replace(&self, inner: &Vec<char>) -> (r: Vec<char>) {
        let t = tag_core_chars(inner);
        let for_kw = str_to_chars("for ");
        if !has_prefix(&t, &for_kw) {
            return unchanged_tag(inner);
        }
        let r0 = slice(&t, for_kw.len(), t.len());
        assert(r0@ =~= t@.skip(for_kw@.len() as int));
        let rest = trim_chars(&r0);
        let in_kw = str_to_chars(" in ");
        proof { reveal_strlit(" in "); }
        match find_at(&rest, &in_kw, 0) {
            None => unchanged_tag(inner),
            Some(in_pos) => {
                proof { crate::text::lemma_find_from(rest@, in_kw@, 0); }
                let v0 = slice(&rest, 0, in_pos);
                assert(v0@ =~= rest@.take(in_pos as int));
                let var = trim_chars(&v0);
                let a0 = slice(&rest, in_pos + 4, rest.len());
                assert(a0@ =~= rest@.skip(in_pos + 4));
                let after_in = trim_chars(&a0);
                match find_top_level_pipe(&after_in) {
                    None => unchanged_tag(inner),
                    Some(p) => {
                        proof { crate::if_filters::lemma_top_level_pipe_bounds(after_in@, 0, false, false); }
                        let e0 = slice(&after_in, 0, p);
                        assert(e0@ =~= after_in@.take(p as int));
                        let expr = trim_chars(&e0);
                        let c0 = slice(&after_in, p, after_in.len());
                        assert(c0@ =~= after_in@.skip(p as int));
                        let chain = trim_chars(&c0);
                        let mut temp = str_to_chars("__for_");
                        push_all(&mut temp, &var);
                        let mut out = str_to_chars("{%");
                        push_all(&mut out, &str_to_chars(" assign "));
                        push_all(&mut out, &temp);
                        push_all(&mut out, &str_to_chars(" = "));
                        push_all(&mut out, &expr);
                        push_all(&mut out, &str_to_chars(" "));
                        push_all(&mut out, &chain);
                        push_all(&mut out, &str_to_chars(" "));
                        push_all(&mut out, &str_to_chars("%}"));
                        push_all(&mut out, &open_marker_chars(inner));
                        push_all(&mut out, &str_to_chars(" for "));
                        push_all(&mut out, &var);
                        push_all(&mut out, &str_to_chars(" in "));
                        push_all(&mut out, &temp);
                        push_all(&mut out, &str_to_chars(" "));
                        push_all(&mut out, &close_marker_chars(inner));
                        out
                    },
                }
            },
        }
    }
}

/// The rule dropping parentheses around assigned values.
pub struct ParenAssignRule;

impl SpanRule for ParenAssignRule {
    open spec fn replaced(&self, inner: Seq<char>) -> Seq<char> {
        paren_assign_replacement(inner)
    }

    open spec fn admits(&self, inner: Seq<char>) -> bool {
        true
    }

    fn replace(&self, inner: &Vec<char>) -> (r: Vec<char>) {
        let t = tag_core_chars(inner);
        let kw = str_to_chars("assign ");
        if !has_prefix(&t, &kw) {
            return unchanged_tag(inner);
        }
        let rest = slice(&t, kw.len(), t.len());
        assert(rest@ =~= t@.skip(kw@.len() as int));
        let eq_kw = str_to_chars("=");
        proof { reveal_strlit("="); }
        match find_at(&rest, &eq_kw, 0) {
            None => unchanged_tag(inner),
            Some(eq) => {
                proof { crate::text::lemma_find_from(rest@, eq_kw@, 0); }
                let a0 = slice(&rest, eq + 1, rest.len());
                assert(a0@ =~= rest@.skip(eq + 1));
                let after_eq = trim_chars(&a0);
                if after_eq.len() >= 2 && after_eq[0] == '(' && after_eq[after_eq.len() - 1] == ')' {
                    let v0 = slice(&rest, 0, eq);
                    assert(v0@ =~= rest@.take(eq as int));
                    let var = trim_chars(&v0);
                    let mut out = open_marker_chars(inner);
                    push_all(&mut out, &str_to_chars(" assign "));
                    push_all(&mut out, &var);
                    push_all(&mut out, &str_to_chars(" = "));
                    push_all(&mut out, &slice(&after_eq, 1, after_eq.len() - 1));
                    push_all(&mut out, &str_to_chars(" "));
                    push_all(&mut out, &close_marker_chars(inner));
                    out
                } else {
                    unchanged_tag(inner)
                }
            },
        }
    }
}

/// The template with `for` iterable filter chains moved into assignments.
pub open spec fn for_filters_rewritten(t: Seq<char>) -> Seq<char> {
    if !contains(t, "for "@) {
        t
    } else {
        rewrite_spans(ForFilterRule, t, 0, "{%"@, "%}"@)
    }
}

/// The template with parentheses dropped around assigned values.
pub open spec fn paren_assign_rewritten(t: Seq<char>) -> Seq<char> {
    if !contains(t, "assign "@) || !contains(t, "("@) {
        t
    } else {
        rewrite_spans(ParenAssignRule, t, 0, "{%"@, "%}"@)
    }
}

/// Rewrites `{% for x in expr | filters %}` to
/// `{% assign __for_x = expr | filters %}{% for x in __for_x %}`.
pub fn preprocess_for_loop_filters(template: &str) -> (r: String)
    ensures
        r@ == for_filters_rewritten(template@),
{
    let s = str_to_chars(template);
    if find_at(&s, &str_to_chars("for "), 0).is_none() {
        return chars_to_string(&s);
    }
    let open = str_to_chars("{%");
    proof { reveal_strlit("{%"); }
    let out = rewrite_spans_total(&ForFilterRule, &s, &open, &str_to_chars("%}"));
    chars_to_string(&out)
}

/// Rewrites `{% assign x = (expr) %}` to `{% assign x = expr %}`.
pub fn preprocess_parenthesized_assign(template: &str) -> (r: String)
    ensures
        r@ == paren_assign_rewritten(template@),
{
    let s = str_to_chars(template);
    if find_at(&s, &str_to_chars("assign "), 0).is_none() || find_at(&s, &str_to_chars("("), 0).is_none() {
        return chars_to_string(&s);
    }
    let open = str_to_chars("{%");
    proof { reveal_strlit("{%"); }
    let out = rewrite_spans_total(&ParenAssignRule, &s, &open, &str_to_chars("%}"));
    chars_to_string(&out)
}

} // verus!
