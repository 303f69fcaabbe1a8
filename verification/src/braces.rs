//! Stray braces inside `{% ... %}` tags: `{{ }}` wrapped around variables
//! (`{% if {{x}} %}`) and a `}` left before the closing `%}`.
use vstd::prelude::*;
use crate::capture::{tag_unchanged, unchanged_tag};
use crate::spans::{rewrite_spans, rewrite_spans_total, SpanRule};
use crate::tagbody::{tag_core, tag_core_chars};
use crate::text::{
    chars_to_string, contains, ends_with, find_at, has_suffix, lemma_rfind_before, push_all,
    replace_all, replace_chars, rfind, rfind_chars, slice, str_to_chars, trim, trim_chars, trim_end,
    trim_end_chars,
};

verus! {

/// A tag with every `{{` and `}}` removed from its inner text.
pub open spec fn nested_braces_replacement(inner: Seq<char>) -> Seq<char> {
    "{%"@ + replace_all(replace_all(inner, "{{"@, Seq::empty()), "}}"@, Seq::empty()) + "%}"@
}

/// A tag whose content ends in a white space and `}`: the last `}` before
/// the optional trailing dash is removed; other tags stay as written.
pub open spec fn stray_brace_replacement(inner: Seq<char>) -> Seq<char> {
    let content = tag_core(inner);
    if (ends_with(content, " }"@) || ends_with(content, "\t}"@)) && trim(content).len() != 0 {
        let it = trim_end(inner);
        let no_dash = trim_end(
            if it.len() > 0 && it.last() == '-' {
                it.drop_last()
            } else {
                it
            },
        );
        match rfind(no_dash, "}"@) {
            Some(b) => "{%"@ + inner.take(b) + inner.skip(b + 1) + "%}"@,
            None => tag_unchanged(inner),
        }
    } else {
        tag_unchanged(inner)
    }
}

/// The rule removing `{{`/`}}` inside tags.
pub struct NestedBracesRule;

impl SpanRule for NestedBracesRule {
    open spec fn replaced(&self, inner: Seq<char>) -> Seq<char> {
        nested_braces_replacement(inner)
    }

    open spec fn admits(&self, inner: Seq<char>) -> bool {
        true
    }

    fn replace(&self, inner: &Vec<char>) -> (r: Vec<char>) {
        let ob = str_to_chars("{{");
        let cb = str_to_chars("}}");
        proof {
            reveal_strlit("{{");
            reveal_strlit("}}");
        }
        let a = replace_chars(inner, &ob, &Vec::new());
        let b = replace_chars(&a, &cb, &Vec::new());
        let mut out = str_to_chars("{%");
        push_all(&mut out, &b);
        push_all(&mut out, &str_to_chars("%}"));
        out
    }
}

/// The rule removing a stray `}` before a tag's end.
pub struct StrayBraceRule;

proof fn lemma_trim_end_prefix(s: Seq<char>)
    ensures
        trim_end(s).len() <= s.len(),
        trim_end(s) == s.take(trim_end(s).len() as int),
    decreases s.len(),
{
    if s.len() > 0 && crate::text::is_ws(s.last()) {
        lemma_trim_end_prefix(s.drop_last());
        assert(s.drop_last().take(trim_end(s).len() as int) =~= s.take(trim_end(s).len() as int));
    } else {
        assert(s.take(s.len() as int) =~= s);
    }
}

impl SpanRule for StrayBraceRule {
    open spec fn replaced(&self, inner: Seq<char>) -> Seq<char> {
        stray_brace_replacement(inner)
    }

    open spec fn admits(&self, inner: Seq<char>) -> bool {
        true
    }

    fn replace(&self, inner: &Vec<char>) -> (r: Vec<char>) {
        let content = tag_core_chars(inner);
        let ends = has_suffix(&content, &str_to_chars(" }")) || has_suffix(&content, &str_to_chars("\t}"));
        let nonblank = trim_chars(&content).len() != 0;
        if ends && nonblank {
            let it = trim_end_chars(inner);
            proof { lemma_trim_end_prefix(inner@); }
            let nd0 = if it.len() > 0 && it[it.len() - 1] == '-' {
                let d = slice(&it, 0, it.len() - 1);
                assert(d@ =~= it@.drop_last());
                d
            } else {
                it
            };
            let no_dash = trim_end_chars(&nd0);
            proof { lemma_trim_end_prefix(nd0@); }
            let brace = str_to_chars("}");
            proof { reveal_strlit("}"); }
            match rfind_chars(&no_dash, &brace) {
                Some(b) => {
                    proof { lemma_rfind_before(no_dash@, brace@, no_dash@.len() as int + 1); }
                    let mut out = str_to_chars("{%");
                    push_all(&mut out, &slice(inner, 0, b));
                    push_all(&mut out, &slice(inner, b + 1, inner.len()));
                    push_all(&mut out, &str_to_chars("%}"));
                    assert(inner@.take(b as int) =~= inner@.subrange(0, b as int));
                    assert(inner@.skip(b + 1) =~= inner@.subrange(b + 1, inner@.len() as int));
                    out
                },
                None => unchanged_tag(inner),
            }
        } else {
            unchanged_tag(inner)
        }
    }
}

/// The template with `{{`/`}}` removed inside tags.
pub open spec fn nested_braces_rewritten(t: Seq<char>) -> Seq<char> {
    if !contains(t, "{{"@) {
        t
    } else {
        rewrite_spans(NestedBracesRule, t, 0, "{%"@, "%}"@)
    }
}

/// The template with stray `}` removed at tag ends.
pub open spec fn stray_brace_rewritten(t: Seq<char>) -> Seq<char> {
    if !contains(t, "%}"@) {
        t
    } else {
        rewrite_spans(StrayBraceRule, t, 0, "{%"@, "%}"@)
    }
}

/// Rewrites `{% if {{x}} %}` to `{% if x %}`; `{{ }}` outside tags stay.
pub fn preprocess_nested_braces(template: &str) -> (r: String)
    ensures
        r@ == nested_braces_rewritten(template@),
{
    let s = str_to_chars(template);
    if find_at(&s, &str_to_chars("{{"), 0).is_none() {
        return chars_to_string(&s);
    }
    let open = str_to_chars("{%");
    proof { reveal_strlit("{%"); }
    let out = rewrite_spans_total(&NestedBracesRule, &s, &open, &str_to_chars("%}"));
    chars_to_string(&out)
}

/// Removes a stray `}` before the end of a tag: `{% assign x = y } %}`
/// becomes `{% assign x = y  %}`.
pub fn preprocess_stray_brace_in_tags(template: &str) -> (r: String)
    ensures
        r@ == stray_brace_rewritten(template@),
{
    let s = str_to_chars(template);
    if find_at(&s, &str_to_chars("%}"), 0).is_none() {
        return chars_to_string(&s);
    }
    let open = str_to_chars("{%");
    proof { reveal_strlit("{%"); }
    let out = rewrite_spans_total(&StrayBraceRule, &s, &open, &str_to_chars("%}"));
    chars_to_string(&out)
}

} // verus!
