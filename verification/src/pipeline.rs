//! The whole preprocessing pipeline applied to a template before parsing.
use vstd::prelude::*;
use crate::assigns::{
    for_filters_rewritten, paren_assign_rewritten, preprocess_for_loop_filters,
    preprocess_parenthesized_assign,
};
use crate::braces::{
    nested_braces_rewritten, preprocess_nested_braces, preprocess_stray_brace_in_tags,
    stray_brace_rewritten,
};
use crate::capture::{capture_tags_rewritten, preprocess_capture_tags};
use crate::if_filters::{if_filters_rewritten, if_filters_safe, if_filters_safe_exec, preprocess_if_condition_filters};
use crate::link::{jekyll_tags_admitted, jekyll_tags_rewritten, preprocess_jekyll_tags, JekyllTagRule, LinkTagConfig};
use crate::nil_contains::{nil_contains_rewritten, preprocess_nil_contains};
use crate::outputs::{output_or_rewritten, preprocess_output_or};
use crate::outside::{regex_pattern_valid, regex_replace_all, regex_replace_all_exec};
use crate::protect::{preprocess_bare_output_render_mapping, render_mapping_rewritten, render_mapping_safe, render_mapping_safe_exec};
use crate::spans::spans_admitted;
use crate::text::{chars_to_string, contains, find_at, lemma_find_from, str_to_chars};

verus! {

/// The pattern matching `VARIABLE == false`.
pub open spec fn nil_eq_false_pattern() -> Seq<char> {
    "\\b([\\w][\\w.]*)\\s*==\\s*false\\b"@
}

/// The replacement adding a nil guard: `VARIABLE == false and VARIABLE != nil`.
pub open spec fn nil_eq_false_replacement() -> Seq<char> {
    "$1 == false and $1 != nil"@
}

/// The template with `X == false` rewritten to `X == false and X != nil`
/// by the regular expression `\b([\w][\w.]*)\s*==\s*false\b` (the pattern
/// is a fixed one that compiles; were it refused, the text would be kept).
pub open spec fn nil_eq_false_rewritten(t: Seq<char>) -> Seq<char> {
    if regex_pattern_valid(nil_eq_false_pattern()) {
        regex_replace_all(nil_eq_false_pattern(), t, nil_eq_false_replacement())
    } else {
        t
    }
}

/// Rewrites `VAR == false` to `VAR == false and VAR != nil`, so that an
/// undefined variable does not compare equal to `false`.
pub fn preprocess_nil_eq_false(template: &str) -> (r: String)
    ensures
        r@ == nil_eq_false_rewritten(template@),
{
    let r = regex_replace_all_exec("\\b([\\w][\\w.]*)\\s*==\\s*false\\b", template, "$1 == false and $1 != nil");
    match r {
        Some(s) => s,
        None => String::from_str(template),
    }
}

/// Tag-related passes, in order: capture tags, Jekyll link tags, nil guards
/// for `contains`, nil guards for `== false`, condition filter chains, nested
/// braces, `for` filter chains, parenthesized assigns, stray braces.
pub open spec fn tag_passes(t: Seq<char>) -> Seq<char> {
    let a = capture_tags_rewritten(t);
    let b = jekyll_tags_rewritten(LinkTagConfig::default_spec(), a);
    let c = nil_contains_rewritten(b);
    let d = nil_eq_false_rewritten(c);
    let e = if_filters_rewritten(d);
    let f = nested_braces_rewritten(e);
    let g = for_filters_rewritten(f);
    let h = paren_assign_rewritten(g);
    stray_brace_rewritten(h)
}

/// The whole pipeline: tag passes when the template has `{%`, then the
/// output passes (`or` fallbacks, `render_mapping`) when it has `{{`; a
/// template with neither is returned as it is.
pub open spec fn preprocessed(t: Seq<char>) -> Seq<char> {
    let has_tag = contains(t, "{%"@);
    let has_output = contains(t, "{{"@);
    if !has_tag && !has_output {
        t
    } else {
        let pre = if has_tag {
            tag_passes(t)
        } else {
            t
        };
        if has_output {
            render_mapping_rewritten(output_or_rewritten(pre))
        } else {
            pre
        }
    }
}

/// The inputs on which every pass runs without panicking.
pub open spec fn preprocess_safe(t: Seq<char>) -> bool {
    let has_tag = contains(t, "{%"@);
    let has_output = contains(t, "{{"@);
    let pre = if has_tag {
        tag_passes(t)
    } else {
        t
    };
    &&& has_tag ==> {
        let a = capture_tags_rewritten(t);
        let c = nil_contains_rewritten(jekyll_tags_rewritten(LinkTagConfig::default_spec(), a));
        &&& spans_admitted(
            JekyllTagRule { cfg: &LinkTagConfig::default_spec() },
            a,
            0,
            "{%"@,
            "%}"@,
        )
        &&& if_filters_safe(nil_eq_false_rewritten(c))
    }
    &&& has_output ==> render_mapping_safe(output_or_rewritten(pre))
}

/// Content without Liquid markers (`{%` or `{{`) can always be
/// preprocessed, and comes out as it went in.
pub proof fn lemma_plain_content_unchanged(t: Seq<char>)
    requires
        !contains(t, "{%"@),
        !contains(t, "{{"@),
    ensures
        preprocess_safe(t),
        preprocessed(t) == t,
{
}

/// Content with tags but no output markers goes through the tag passes
/// only; content with output markers but no tags, through the output
/// passes only.
pub proof fn lemma_passes_by_markers(t: Seq<char>)
    ensures
        contains(t, "{%"@) && !contains(t, "{{"@) ==> preprocessed(t) == tag_passes(t),
        !contains(t, "{%"@) && contains(t, "{{"@) ==> preprocessed(t) == render_mapping_rewritten(
            output_or_rewritten(t),
        ),
{
}

/// Runs all Liquid preprocessing passes on a template.
pub fn preprocess_all(template: &str) -> (r: String)
    requires
        preprocess_safe(template@),
    ensures
        r@ == preprocessed(template@),
{
    let s = str_to_chars(template);
    let has_tag = find_at(&s, &str_to_chars("{%"), 0).is_some();
    let has_output = find_at(&s, &str_to_chars("{{"), 0).is_some();
    if !has_tag && !has_output {
        return String::from_str(template);
    }
    let pre = if has_tag {
        let a = preprocess_capture_tags(template);
        let b = preprocess_jekyll_tags(a.as_str());
        let c = preprocess_nil_contains(b.as_str());
        let d = preprocess_nil_eq_false(c.as_str());
        let e = preprocess_if_condition_filters(d.as_str());
        let f = preprocess_nested_braces(e.as_str());
        let g = preprocess_for_loop_filters(f.as_str());
        let h = preprocess_parenthesized_assign(g.as_str());
        preprocess_stray_brace_in_tags(h.as_str())
    } else {
        String::from_str(template)
    };
    if has_output {
        let o = preprocess_output_or(pre.as_str());
        preprocess_bare_output_render_mapping(o.as_str())
    } else {
        pre
    }
}

/// Runs all preprocessing passes when none of them would slice inside a
/// character; `None` where a pass would (a byte slice there would panic).
pub fn preprocess_all_checked(template: &str) -> (r: Option<String>)
    ensures
        match r {
            Some(t) => preprocess_safe(template@) && t@ == preprocessed(template@),
            None => !preprocess_safe(template@),
        },
{
    let s = str_to_chars(template);
    let has_tag = find_at(&s, &str_to_chars("{%"), 0).is_some();
    let has_output = find_at(&s, &str_to_chars("{{"), 0).is_some();
    proof {
        lemma_find_from(s@, "{%"@, 0);
        lemma_find_from(s@, "{{"@, 0);
    }
    let cfg = LinkTagConfig::new_default();
    let pre = if has_tag {
        let a = preprocess_capture_tags(template);
        proof { LinkTagConfig::lemma_default_spec(cfg, a@); }
        if !jekyll_tags_admitted(a.as_str(), &cfg) {
            return None;
        }
        let b = preprocess_jekyll_tags(a.as_str());
        let c = preprocess_nil_contains(b.as_str());
        let d = preprocess_nil_eq_false(c.as_str());
        if !if_filters_safe_exec(d.as_str()) {
            return None;
        }
        let e = preprocess_if_condition_filters(d.as_str());
        let f = preprocess_nested_braces(e.as_str());
        let g = preprocess_for_loop_filters(f.as_str());
        let h = preprocess_parenthesized_assign(g.as_str());
        preprocess_stray_brace_in_tags(h.as_str())
    } else {
        String::from_str(template)
    };
    if has_output {
        let o = preprocess_output_or(pre.as_str());
        if !render_mapping_safe_exec(o.as_str()) {
            return None;
        }
    }
    Some(preprocess_all(template))
}

} // verus!
