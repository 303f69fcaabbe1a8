//! Rewrites of `{{ ... }}` output tags: `or` fallbacks and `render_mapping`.
use vstd::prelude::*;
use crate::spans::{rewrite_spans, rewrite_spans_total, SpanRule};
use crate::text::{
    chars_to_string, contains, ends_with, find, find_at, find_from, is_ws, lemma_find_from, lemma_find_from_unique,
    occurs_at, push_all, slice, str_to_chars, trim_start,
    trim, trim_chars, trim_end, trim_end_chars,
};

verus! {

/// An output tag written back unchanged.
pub open spec fn output_unchanged(inner: Seq<char>) -> Seq<char> {
    "{{"@ + inner + "}}"@
}

/// What an output tag becomes: `{{ a or b }}` is written `{{ a | default: b }}`
/// (split at the first `" or "`); others stay as written.
pub open spec fn output_or_replacement(inner: Seq<char>) -> Seq<char> {
    match find(inner, " or "@) {
        Some(p) => "{{ "@ + trim(inner.take(p)) + " | default: "@ + trim(inner.skip(p + 3)) + " }}"@,
        None => output_unchanged(inner),
    }
}

/// `s` without any leading `c` characters (`str::trim_start_matches`).
pub open spec fn drop_leading(s: Seq<char>, c: char) -> Seq<char>
    decreases s.len(),
{
    if s.len() > 0 && s[0] == c {
        drop_leading(s.drop_first(), c)
    } else {
        s
    }
}

/// `s` without any trailing `c` characters (`str::trim_end_matches`).
pub open spec fn drop_trailing(s: Seq<char>, c: char) -> Seq<char>
    decreases s.len(),
{
    if s.len() > 0 && s.last() == c {
        drop_trailing(s.drop_last(), c)
    } else {
        s
    }
}

/// The expression of an output tag: trimmed, without whitespace-control dashes.
pub open spec fn output_expr(inner: Seq<char>) -> Seq<char> {
    trim(drop_trailing(drop_leading(trim(inner), '-'), '-'))
}

/// What an output tag becomes: a non-empty expression with no `|` gets
/// ` | render_mapping` appended (before a trailing dash); others stay.
pub open spec fn render_mapping_replacement(inner: Seq<char>) -> Seq<char> {
    let expr = output_expr(inner);
    if expr.len() > 0 && !contains(expr, "|"@) {
        let te = trim_end(inner);
        if te.len() > 0 && te.last() == '-' {
            "{{"@ + te.drop_last() + " | render_mapping -}}"@
        } else {
            "{{"@ + inner + " | render_mapping }}"@
        }
    } else {
        output_unchanged(inner)
    }
}

proof fn lemma_drop_leading_at(s: Seq<char>, c: char, k: int)
    requires
        0 <= k <= s.len(),
        forall|j: int| 0 <= j < k ==> #[trigger] s[j] == c,
        k == s.len() || s[k] != c,
    ensures
        drop_leading(s, c) == s.skip(k),
    decreases k,
{
    if k == 0 {
        assert(s.skip(0) =~= s);
    } else {
        let t = s.drop_first();
        assert forall|j: int| 0 <= j < k - 1 implies #[trigger] t[j] == c by {
            assert(t[j] == s[j + 1]);
        }
        lemma_drop_leading_at(t, c, k - 1);
        assert(t.skip(k - 1) =~= s.skip(k));
    }
}

proof fn lemma_drop_trailing_at(s: Seq<char>, c: char, k: int)
    requires
        0 <= k <= s.len(),
        forall|j: int| k <= j < s.len() ==> #[trigger] s[j] == c,
        k == 0 || s[k - 1] != c,
    ensures
        drop_trailing(s, c) == s.take(k),
    decreases s.len() - k,
{
    if k == s.len() {
        assert(s.take(k) =~= s);
    } else {
        let t = s.drop_last();
        assert forall|j: int| k <= j < t.len() implies #[trigger] t[j] == c by {
            assert(t[j] == s[j]);
        }
        lemma_drop_trailing_at(t, c, k);
        assert(t.take(k) =~= s.take(k));
    }
}

pub fn drop_leading_chars(s: &Vec<char>, c: char) -> (r: Vec<char>)
    ensures
        r@ == drop_leading(s@, c),
{
    let mut k: usize = 0;
    while k < s.len() && s[k] == c
        invariant
            k <= s.len(),
            forall|j: int| 0 <= j < k ==> #[trigger] s@[j] == c,
        decreases s.len() - k,
    {
        k += 1;
    }
    proof { lemma_drop_leading_at(s@, c, k as int); }
    slice(s, k, s.len())
}

pub fn drop_trailing_chars(s: &Vec<char>, c: char) -> (r: Vec<char>)
    ensures
        r@ == drop_trailing(s@, c),
{
    let mut k: usize = s.len();
    while k > 0 && s[k - 1] == c
        invariant
            k <= s.len(),
            forall|j: int| k <= j < s.len() ==> #[trigger] s@[j] == c,
        decreases k,
    {
        k -= 1;
    }
    proof { lemma_drop_trailing_at(s@, c, k as int); }
    slice(s, 0, k)
}

/// `{{` + `inner` + `}}`.
fn unchanged_output(inner: &Vec<char>) -> (r: Vec<char>)
    ensures
        r@ == output_unchanged(inner@),
{
    let mut out = str_to_chars("{{");
    push_all(&mut out, inner);
    push_all(&mut out, &str_to_chars("}}"));
    out
}

/// Byte offset of the first `" or "` of an output expression.
pub fn find_word_or(inner: &Vec<char>) -> (r: Option<usize>)
    ensures
        match r {
            Some(k) => find(inner@, " or "@) == Some(k as int),
            None => find(inner@, " or "@) is None,
        },
{
    find_at(inner, &str_to_chars(" or "), 0)
}

/// The rule rewriting `or` fallbacks in output tags.
pub struct OutputOrRule;

impl SpanRule for OutputOrRule {
    open spec fn replaced(&self, inner: Seq<char>) -> Seq<char> {
        output_or_replacement(inner)
    }

    open spec fn admits(&self, inner: Seq<char>) -> bool {
        true
    }

    fn replace(&self, inner: &Vec<char>) -> (r: Vec<char>) {
        match find_word_or(inner) {
            Some(p) => {
                proof {
                    reveal_strlit(" or ");
                    lemma_find_from(inner@, " or "@, 0);
                    assert(" or "@.len() == 4);
                    assert(crate::text::occurs_at(inner@, " or "@, p as int));
                    assert(p + 4 <= inner@.len());
                    assert(inner@.len() == inner.len());
                }
                let l0 = slice(inner, 0, p);
                assert(l0@ =~= inner@.take(p as int));
                let r0 = slice(inner, p + 3, inner.len());
                assert(r0@ =~= inner@.skip(p + 3));
                let mut out = str_to_chars("{{ ");
                push_all(&mut out, &trim_chars(&l0));
                push_all(&mut out, &str_to_chars(" | default: "));
                push_all(&mut out, &trim_chars(&r0));
                push_all(&mut out, &str_to_chars(" }}"));
                out
            },
            None => unchanged_output(inner),
        }
    }
}

/// `{{ a or b }}` shows `a`, with `b` as its fallback: the output tag whose
/// inner text is `a`, ` or `, `b` (where that ` or ` is the first one, so
/// `a` holds none and does not end in ` or`) becomes
/// `{{ a | default: b }}` with both operands trimmed.
pub proof fn lemma_or_keeps_operand_order(a: Seq<char>, b: Seq<char>)
    requires
        !contains(a, " or "@),
        !ends_with(a, " or"@),
    ensures
        OutputOrRule.replaced(a + " or "@ + b) == "{{ "@ + trim(a) + " | default: "@ + trim(b) + " }}"@,
{
    reveal_strlit(" or ");
    reveal_strlit(" or");
    let w = " or "@;
    let inner = a + w + b;
    let al = a.len() as int;
    lemma_find_from(a, w, 0);
    assert(inner.subrange(al, al + 4) =~= w);
    assert forall|j: int| 0 <= j < al implies !#[trigger] occurs_at(inner, w, j) by {
        if occurs_at(inner, w, j) {
            let win = inner.subrange(j, j + 4);
            assert(win[0] == inner[j] && win[1] == inner[j + 1] && win[2] == inner[j + 2] && win[3] == inner[j + 3]);
            if j + 4 <= al {
                assert(a.subrange(j, j + 4) =~= win);
                assert(occurs_at(a, w, j));
            } else if j == al - 1 {
                assert(inner[j + 1] == ' ');
            } else if j == al - 2 {
                assert(inner[j + 2] == ' ');
            } else {
                assert(j == al - 3);
                assert(a.skip(al - 3) =~= seq![inner[j], inner[j + 1], inner[j + 2]]);
                assert(a.skip(al - 3) =~= " or"@);
            }
        }
    }
    lemma_find_from_unique(inner, w, 0, al);
    assert(inner.take(al) =~= a);
    let r = inner.skip(al + 3);
    assert(r =~= seq![' '] + b);
    assert(trim_start(r) == trim_start(r.drop_first()));
    assert(r.drop_first() =~= b);
}

/// The rule appending `render_mapping` to bare output tags.
pub struct RenderMappingRule;

impl SpanRule for RenderMappingRule {
    open spec fn replaced(&self, inner: Seq<char>) -> Seq<char> {
        render_mapping_replacement(inner)
    }

    open spec fn admits(&self, inner: Seq<char>) -> bool {
        true
    }

    fn replace(&self, inner: &Vec<char>) -> (r: Vec<char>) {
        let t = trim_chars(inner);
        let a = drop_leading_chars(&t, '-');
        let b = drop_trailing_chars(&a, '-');
        let expr = trim_chars(&b);
        if expr.len() > 0 && find_at(&expr, &str_to_chars("|"), 0).is_none() {
            let te = trim_end_chars(inner);
            if te.len() > 0 && te[te.len() - 1] == '-' {
                let d = slice(&te, 0, te.len() - 1);
                assert(d@ =~= te@.drop_last());
                let mut out = str_to_chars("{{");
                push_all(&mut out, &d);
                push_all(&mut out, &str_to_chars(" | render_mapping -}}"));
                out
            } else {
                let mut out = str_to_chars("{{");
                push_all(&mut out, inner);
                push_all(&mut out, &str_to_chars(" | render_mapping }}"));
                out
            }
        } else {
            unchanged_output(inner)
        }
    }
}

/// The template with `{{ a or b }}` rewritten to `{{ a | default: b }}`.
pub open spec fn output_or_rewritten(t: Seq<char>) -> Seq<char> {
    if !contains(t, "{{"@) {
        t
    } else {
        rewrite_spans(OutputOrRule, t, 0, "{{"@, "}}"@)
    }
}

/// Bare output tags of a text with ` | render_mapping` appended.
pub open spec fn render_mapping_injected(t: Seq<char>) -> Seq<char> {
    rewrite_spans(RenderMappingRule, t, 0, "{{"@, "}}"@)
}

/// Rewrites `{{ a or b }}` to `{{ a | default: b }}`.
pub fn preprocess_output_or(template: &str) -> (r: String)
    ensures
        r@ == output_or_rewritten(template@),
{
    let s = str_to_chars(template);
    let open = str_to_chars("{{");
    proof { reveal_strlit("{{"); }
    if find_at(&s, &open, 0).is_none() {
        return chars_to_string(&s);
    }
    let out = rewrite_spans_total(&OutputOrRule, &s, &open, &str_to_chars("}}"));
    chars_to_string(&out)
}

/// Appends ` | render_mapping` to every bare `{{ expr }}` of a text segment.
pub fn inject_render_mapping(text: &Vec<char>) -> (r: Vec<char>)
    ensures
        r@ == render_mapping_injected(text@),
{
    let open = str_to_chars("{{");
    proof { reveal_strlit("{{"); }
    rewrite_spans_total(&RenderMappingRule, text, &open, &str_to_chars("}}"))
}

} // verus!
