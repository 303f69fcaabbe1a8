//! `{% capture var extra tokens %}` → `{% capture var %}`.
use vstd::prelude::*;
use crate::spans::{
    closes_at_end, every_span, lemma_rewrite_spans_fewer_bytes, lemma_rewrite_spans_idempotent, lemma_rewrite_spans_keeps,
    lemma_rewrite_spans_shorter,
    rewrite_spans, rewrite_spans_total, SpanRule,
};
use crate::tagbody::{
    dash, first_word, first_word_chars, is_sub, keyword_rest, keyword_rest_chars, lemma_sub_range, lemma_sub_trans,
    lemma_sub_trims, lemma_tag_parts_dashes, lemma_tag_parts_sub, lemma_trim_end_shape, lemma_trim_start_shape,
    lemma_ws_index, push_dash, split_tag_parts, tag_parts, ws_index,
};
use crate::text::{
    byte_len, chars_to_string, find_from, is_ws, lemma_byte_len_ascii, lemma_byte_len_concat, lemma_byte_len_piece,
    lemma_find_from, lemma_find_from_unique, lemma_trim_end_at, lemma_trim_start_at,
    occurs_at, push_all, str_to_chars, trim, trim_chars, trim_end, trim_start,
};

verus! {

/// A `{% ... %}` tag written back unchanged.
pub open spec fn tag_unchanged(inner: Seq<char>) -> Seq<char> {
    "{%"@ + inner + "%}"@
}

/// What a capture tag becomes: when its variable name is followed by extra
/// tokens, only the name is kept (dashes are preserved); any other tag is
/// left as written.
pub open spec fn capture_tag_replacement(inner: Seq<char>) -> Seq<char> {
    let (lead, body, trail) = tag_parts(inner);
    match keyword_rest(body, "capture"@) {
        Some(rest) => {
            let args = trim(rest);
            let w = first_word(args);
            let var = if w.len() == 0 {
                args
            } else {
                w
            };
            if args.len() > var.len() {
                "{%"@ + dash(lead) + " capture "@ + var + " "@ + dash(trail) + "%}"@
            } else {
                tag_unchanged(inner)
            }
        },
        None => tag_unchanged(inner),
    }
}

/// The capture-tag rule for `{% ... %}` spans.
pub struct CaptureTagRule;

impl SpanRule for CaptureTagRule {
    open spec fn replaced(&self, inner: Seq<char>) -> Seq<char> {
        capture_tag_replacement(inner)
    }

    open spec fn admits(&self, inner: Seq<char>) -> bool {
        true
    }

    fn replace(&self, inner: &Vec<char>) -> (r: Vec<char>) {
        let (lead, body, trail) = split_tag_parts(inner);
        let kw = str_to_chars("capture");
        match keyword_rest_chars(&body, &kw) {
            Some(rest) => {
                let args = trim_chars(&rest);
                let w = first_word_chars(&args);
                let var = if w.len() == 0 {
                    args.clone()
                } else {
                    w
                };
                if args.len() > var.len() {
                    let mut out = str_to_chars("{%");
                    push_dash(&mut out, lead);
                    push_all(&mut out, &str_to_chars(" capture "));
                    push_all(&mut out, &var);
                    push_all(&mut out, &str_to_chars(" "));
                    push_dash(&mut out, trail);
                    push_all(&mut out, &str_to_chars("%}"));
                    out
                } else {
                    unchanged_tag(inner)
                }
            },
            None => unchanged_tag(inner),
        }
    }
}

/// `{%` + `inner` + `%}`.
pub fn unchanged_tag(inner: &Vec<char>) -> (r: Vec<char>)
    ensures
        r@ == tag_unchanged(inner@),
{
    let mut out = str_to_chars("{%");
    push_all(&mut out, inner);
    push_all(&mut out, &str_to_chars("%}"));
    out
}

/// The template with every capture tag's extra tokens removed.
pub open spec fn capture_tags_rewritten(t: Seq<char>) -> Seq<char> {
    rewrite_spans(CaptureTagRule, t, 0, "{%"@, "%}"@)
}

/// A `capture` tag with more than one argument word.
pub open spec fn capture_has_extra_words(inner: Seq<char>) -> bool {
    match keyword_rest(tag_parts(inner).1, "capture"@) {
        Some(rest) => {
            let args = trim(rest);
            let w = first_word(args);
            w.len() > 0 && args.len() > w.len()
        },
        None => false,
    }
}

/// A template none of whose `capture` tags has more than one argument word
/// comes out of the capture pass as it went in.
pub proof fn lemma_capture_keeps_plain_templates(t: Seq<char>)
    requires
        every_span(|x: Seq<char>| !capture_has_extra_words(x), t, 0, "{%"@, "%}"@),
    ensures
        capture_tags_rewritten(t) == t,
{
    let p = |x: Seq<char>| !capture_has_extra_words(x);
    assert forall|x: Seq<char>| #[trigger] p(x) implies CaptureTagRule.replaced(x) == "{%"@ + x + "%}"@ by {
        assert(tag_unchanged(x) == "{%"@ + x + "%}"@);
    }
    lemma_rewrite_spans_keeps(CaptureTagRule, p, t, 0, "{%"@, "%}"@);
    assert(t.skip(0) =~= t);
}

/// A capture tag's replacement is never longer than the tag.
proof fn lemma_capture_replacement_len(inner: Seq<char>)
    ensures
        capture_tag_replacement(inner).len() <= inner.len() + 4,
{
    let (lead, body, trail) = tag_parts(inner);
    lemma_tag_parts_dashes(inner);
    reveal_strlit("capture");
    reveal_strlit(" capture ");
    reveal_strlit(" ");
    reveal_strlit("{%");
    reveal_strlit("%}");
    match keyword_rest(body, "capture"@) {
        Some(rest) => {
            let args = trim(rest);
            let w = first_word(args);
            let ts = trim_start(rest);
            assert(is_ws(rest[0]));
            assert(ts == trim_start(rest.drop_first()));
            lemma_trim_start_shape(rest.drop_first());
            lemma_trim_start_shape(rest);
            lemma_trim_end_shape(ts);
            if args.len() > 0 {
                assert(args[0] == ts[0]);
            }
            lemma_trim_start_shape(args);
            if args.len() > 0 {
                assert(trim_start(args) == args);
            } else {
                assert(trim_start(args) =~= args);
            }
            lemma_ws_index(args);
            if w.len() > 0 && args.len() > w.len() {
                assert(w.len() == ws_index(args));
                assert(is_ws(args[w.len() as int]));
                assert(args.last() == args[args.len() - 1]);
                assert(args.len() >= w.len() + 2);
                assert(body.len() == 7 + rest.len());
            }
        },
        None => {},
    }
}

/// The capture pass never lengthens a template.
pub proof fn lemma_capture_not_longer(t: Seq<char>)
    ensures
        capture_tags_rewritten(t).len() <= t.len(),
{
    reveal_strlit("{%");
    reveal_strlit("%}");
    assert forall|x: Seq<char>| (#[trigger] CaptureTagRule.replaced(x)).len() <= "{%"@.len() + x.len() + "%}"@.len() by {
        lemma_capture_replacement_len(x);
    }
    lemma_rewrite_spans_shorter(CaptureTagRule, t, 0, "{%"@, "%}"@);
}

/// The variable a capture tag keeps, when it has extra tokens to drop.
pub open spec fn capture_var(inner: Seq<char>) -> Option<Seq<char>> {
    match keyword_rest(tag_parts(inner).1, "capture"@) {
        Some(rest) => {
            let args = trim(rest);
            let w = first_word(args);
            let var = if w.len() == 0 {
                args
            } else {
                w
            };
            if args.len() > var.len() {
                Some(var)
            } else {
                None
            }
        },
        None => None,
    }
}

/// The inner text a tag is written back with by the capture rule.
pub open spec fn capture_inner(inner: Seq<char>) -> Seq<char> {
    match capture_var(inner) {
        Some(var) => dash(tag_parts(inner).0) + " capture "@ + var + " "@ + dash(tag_parts(inner).2),
        None => inner,
    }
}

proof fn lemma_capture_replacement_form(x: Seq<char>)
    ensures
        capture_tag_replacement(x) == "{%"@ + capture_inner(x) + "%}"@,
{
    match capture_var(x) {
        Some(var) => {
            let (lead, body, trail) = tag_parts(x);
            assert("{%"@ + dash(lead) + " capture "@ + var + " "@ + dash(trail) + "%}"@ =~= "{%"@ + (dash(lead)
                + " capture "@ + var + " "@ + dash(trail)) + "%}"@);
        },
        None => {},
    }
}

/// The kept variable is a non-blank word taken from the tag's text.
proof fn lemma_capture_var_word(x: Seq<char>)
    requires
        capture_var(x) is Some,
    ensures
        capture_var(x)->0.len() > 0,
        forall|j: int| 0 <= j < capture_var(x)->0.len() ==> !is_ws(#[trigger] capture_var(x)->0[j]),
        is_sub(capture_var(x)->0, x),
{
    reveal_strlit("capture");
    let body = tag_parts(x).1;
    let rest = keyword_rest(body, "capture"@)->0;
    let args = trim(rest);
    let ta = trim_start(args);
    let w = first_word(args);
    lemma_trim_start_shape(args);
    lemma_ws_index(ta);
    // `args` is trimmed, so its first word is not empty when it is not
    lemma_trim_start_shape(rest);
    let tsr = trim_start(rest);
    lemma_trim_end_shape(tsr);
    if args.len() > 0 {
        assert(args[0] == tsr[0]);
        assert(!is_ws(args[0]));
        lemma_trim_start_at(args, 0);
        assert(args.skip(0) =~= args);
        assert(ta == args);
        assert(ws_index(ta) > 0);
    }
    assert(w.len() > 0);
    // it is a piece of the tag's text
    lemma_tag_parts_sub(x);
    assert(rest =~= body.subrange(7, body.len() as int));
    lemma_sub_range(body, 7, body.len() as int);
    lemma_sub_trans(rest, body, x);
    lemma_sub_trims(rest);
    lemma_sub_trans(args, rest, x);
    lemma_sub_trims(args);
    lemma_sub_trans(ta, args, x);
    assert(w =~= ta.subrange(0, ws_index(ta)));
    lemma_sub_range(ta, 0, ws_index(ta));
    lemma_sub_trans(w, ta, x);
}

/// The rewritten inner text still closes at its end.
proof fn lemma_capture_inner_closes(x: Seq<char>)
    requires
        closes_at_end(x, "%}"@),
    ensures
        closes_at_end(capture_inner(x), "%}"@),
{
    if let Some(var) = capture_var(x) {
        reveal_strlit("%}");
        reveal_strlit(" capture ");
        reveal_strlit(" ");
        let close = "%}"@;
        lemma_capture_var_word(x);
        let (lead, body, trail) = tag_parts(x);
        let d1 = dash(lead);
        let d2 = dash(trail);
        let y = capture_inner(x);
        let w = y + close;
        let o = d1.len() + 9;
        let vl = var.len() as int;
        assert(y =~= d1 + " capture "@ + var + " "@ + d2);
        lemma_find_from(x + close, close, 0);
        let (a, b) = choose|a: int, b: int| 0 <= a <= b <= x.len() && var == x.subrange(a, b);
        assert(w.subrange(y.len() as int, y.len() as int + 2) =~= close);
        assert forall|j: int| 0 <= j < y.len() implies !#[trigger] occurs_at(w, close, j) by {
            if occurs_at(w, close, j) {
                assert(w.subrange(j, j + 2)[0] == w[j]);
                assert(w.subrange(j, j + 2)[1] == w[j + 1]);
                assert(w[j] == '%' && w[j + 1] == '}');
                if j < o {
                    assert(w[j] == (d1 + " capture "@)[j]);
                } else if j < o + vl - 1 {
                    assert(w[j] == var[j - o] && w[j + 1] == var[j - o + 1]);
                    let m = a + j - o;
                    assert(x[m] == var[j - o] && x[m + 1] == var[j - o + 1]);
                    assert((x + close).subrange(m, m + 2) =~= close);
                    assert(occurs_at(x + close, close, m));
                } else if j == o + vl - 1 {
                    assert(w[j + 1] == ' ');
                } else {
                    assert(w[j] == (" "@ + d2)[j - o - vl]);
                }
            }
        }
        lemma_find_from_unique(w, close, 0, y.len() as int);
    }
}

/// `"capture " + v`, for a non-blank word `v`, keeps its variable.
proof fn lemma_capture_body_plain(v: Seq<char>)
    requires
        v.len() > 0,
        forall|j: int| 0 <= j < v.len() ==> !is_ws(#[trigger] v[j]),
    ensures
        keyword_rest("capture "@ + v, "capture"@) == Some(" "@ + v),
        trim(" "@ + v) == v,
        first_word(v) == v,
{
    reveal_strlit("capture ");
    reveal_strlit("capture");
    reveal_strlit(" ");
    let body = "capture "@ + v;
    assert(body.take(7) =~= "capture"@);
    assert(body.skip(7) =~= " "@ + v);
    let r = " "@ + v;
    lemma_trim_start_at(r, 1);
    assert(r.skip(1) =~= v);
    lemma_trim_end_at(v, v.len() as int);
    assert(v.take(v.len() as int) =~= v);
    lemma_trim_start_at(v, 0);
    assert(v.skip(0) =~= v);
    lemma_ws_index(v);
    assert(v.take(ws_index(v)) =~= v);
}

/// Rewriting a rewritten tag leaves it as it is.
proof fn lemma_capture_inner_fixed(x: Seq<char>)
    ensures
        capture_inner(capture_inner(x)) == capture_inner(x),
{
    if let Some(var) = capture_var(x) {
        reveal_strlit(" capture ");
        reveal_strlit("capture ");
        reveal_strlit("capture");
        reveal_strlit(" ");
        lemma_capture_var_word(x);
        let (lead, body0, trail) = tag_parts(x);
        let y = capture_inner(x);
        let vl = var.len() as int;
        let tt: Seq<char> = if trail { " -"@ } else { Seq::empty() };
        reveal_strlit(" -");
        // trimming the new inner text
        let u = if lead { y } else { y.skip(1) };
        if lead {
            assert(y[0] == '-');
            lemma_trim_start_at(y, 0);
            assert(y.skip(0) =~= y);
        } else {
            assert(y[0] == ' ' && y[1] == 'c');
            lemma_trim_start_at(y, 1);
        }
        assert(trim_start(y) == u);
        let t = if lead { "-"@ + " capture "@ + var + tt } else { "capture "@ + var + tt };
        reveal_strlit("-");
        if trail {
            assert(u.last() == '-');
            lemma_trim_end_at(u, u.len() as int);
            assert(u.take(u.len() as int) =~= t);
        } else {
            assert(u[u.len() - 2] == var[vl - 1]);
            lemma_trim_end_at(u, u.len() - 1);
            assert(u.take(u.len() - 1) =~= t);
        }
        assert(trim(y) == t);
        let t1 = "capture "@ + var + tt;
        if lead {
            assert(t[0] == '-');
            lemma_trim_start_at(t.drop_first(), 1);
            assert(t.drop_first().skip(1) =~= t1);
        } else {
            assert(t[0] == 'c');
        }
        assert(tag_parts(y).0 == lead);
        let v2 = if !trail && var[vl - 1] == '-' { var.drop_last() } else { var };
        if trail {
            assert(t1.last() == '-');
            let p = t1.drop_last();
            assert(p =~= "capture "@ + var + " "@);
            assert(p[p.len() - 2] == var[vl - 1]);
            lemma_trim_end_at(p, p.len() - 1);
            assert(p.take(p.len() - 1) =~= "capture "@ + var);
        } else if var[vl - 1] == '-' {
            assert(t1.last() == '-');
            let p = t1.drop_last();
            if vl == 1 {
                assert(p =~= "capture "@);
                lemma_trim_end_at(p, 7);
                assert(p.take(7) =~= "capture"@);
            } else {
                assert(p =~= "capture "@ + v2);
                assert(p.last() == var[vl - 2]);
                lemma_trim_end_at(p, p.len() as int);
                assert(p.take(p.len() as int) =~= p);
            }
        } else {
            assert(t1.last() == var[vl - 1]);
            assert(t1 =~= "capture "@ + var);
        }
        if v2.len() > 0 {
            assert forall|j: int| 0 <= j < v2.len() implies !is_ws(#[trigger] v2[j]) by {
                assert(v2[j] == var[j]);
            }
            assert(tag_parts(y).1 == "capture "@ + v2);
            lemma_capture_body_plain(v2);
        } else {
            assert(tag_parts(y).1 == "capture"@);
        }
        assert(capture_var(y) is None);
    }
}

/// A piece of a text takes no more bytes than the text, less one byte for
/// each character left out.
proof fn lemma_sub_bytes(y: Seq<char>, x: Seq<char>)
    requires
        is_sub(y, x),
    ensures
        byte_len(x) >= byte_len(y) + x.len() - y.len(),
{
    let (a, b) = choose|a: int, b: int| 0 <= a <= b <= x.len() && y == x.subrange(a, b);
    lemma_byte_len_piece(x, a, b);
}

/// A dash marker is one ASCII byte or nothing.
proof fn lemma_dash_bytes(d: bool)
    ensures
        byte_len(dash(d)) == dash(d).len(),
{
    assert forall|j: int| 0 <= j < dash(d).len() implies (#[trigger] dash(d)[j] as u32) < 0x80 by {
        assert(dash(d)[j] == '-');
    }
    lemma_byte_len_ascii(dash(d));
}

/// The text after `capture` in a capture tag, and its trimmed arguments.
pub open spec fn capture_rest(x: Seq<char>) -> Seq<char> {
    tag_parts(x).1.skip(7)
}

pub open spec fn capture_args(x: Seq<char>) -> Seq<char> {
    trim(capture_rest(x))
}

/// Trimming a text that opens with white space drops at least that
/// character, and leaves non-blank ends.
proof fn lemma_trim_after_ws(rest: Seq<char>)
    requires
        rest.len() > 0,
        is_ws(rest[0]),
    ensures
        is_sub(trim(rest), rest),
        rest.len() >= trim(rest).len() + 1,
        trim_start(trim(rest)) == trim(rest),
        trim(rest).len() > 0 ==> !is_ws(trim(rest).last()),
{
    let args = trim(rest);
    lemma_sub_trims(rest);
    let ts = trim_start(rest);
    assert(ts == trim_start(rest.drop_first()));
    lemma_trim_start_shape(rest.drop_first());
    lemma_trim_start_shape(rest);
    lemma_trim_end_shape(ts);
    if args.len() > 0 {
        assert(args[0] == ts[0]);
    }
    lemma_trim_start_shape(args);
    if args.len() == 0 {
        assert(trim_start(args) =~= args);
    }
}

/// The first word of a trimmed text that has more than one word leaves at
/// least a blank and a non-blank character after it.
proof fn lemma_first_word_short(args: Seq<char>)
    requires
        trim_start(args) == args,
        args.len() > 0 ==> !is_ws(args.last()),
        args.len() > first_word(args).len(),
    ensures
        first_word(args) == args.take(first_word(args).len() as int),
        args.len() >= first_word(args).len() + 2,
{
    lemma_ws_index(args);
    let k = ws_index(args);
    assert(first_word(args) == args.take(k));
    assert(is_ws(args[k]));
    assert(args.last() == args[args.len() - 1]);
}

/// How a capture tag with extra tokens is laid out, in characters.
proof fn lemma_capture_shape(x: Seq<char>)
    requires
        capture_var(x) is Some,
    ensures
        tag_parts(x).1 == "capture"@ + capture_rest(x),
        is_sub(tag_parts(x).1, x),
        tag_parts(x).1.len() + dash(tag_parts(x).0).len() + dash(tag_parts(x).2).len() <= x.len(),
        is_sub(capture_args(x), capture_rest(x)),
        capture_rest(x).len() >= capture_args(x).len() + 1,
        capture_var(x)->0 == capture_args(x).take(capture_var(x)->0.len() as int),
        capture_args(x).len() >= capture_var(x)->0.len() + 2,
{
    reveal_strlit("capture");
    let body = tag_parts(x).1;
    let rest = capture_rest(x);
    let args = capture_args(x);
    assert(keyword_rest(body, "capture"@) == Some(rest));
    assert(body.take(7) == "capture"@);
    assert(body =~= "capture"@ + rest);
    lemma_tag_parts_dashes(x);
    lemma_tag_parts_sub(x);
    lemma_trim_after_ws(rest);
    assert(capture_var(x)->0 == first_word(args));
    lemma_first_word_short(args);
}

/// The rewritten inner text takes no more bytes than the tag's.
proof fn lemma_capture_inner_bytes(x: Seq<char>)
    ensures
        byte_len(capture_inner(x)) <= byte_len(x),
{
    if let Some(var) = capture_var(x) {
        reveal_strlit("capture");
        reveal_strlit(" capture ");
        reveal_strlit(" ");
        lemma_capture_shape(x);
        let lead = tag_parts(x).0;
        let trail = tag_parts(x).2;
        let body = tag_parts(x).1;
        let rest = capture_rest(x);
        let args = capture_args(x);
        // bytes of the tag's text
        lemma_sub_bytes(body, x);
        assert forall|j: int| 0 <= j < 7 implies (#[trigger] "capture"@[j] as u32) < 0x80 by {}
        lemma_byte_len_ascii("capture"@);
        lemma_byte_len_concat("capture"@, rest);
        lemma_sub_bytes(args, rest);
        assert(var =~= args.subrange(0, var.len() as int));
        lemma_byte_len_piece(args, 0, var.len() as int);
        // bytes of the rewritten text
        let d1 = dash(lead);
        let d2 = dash(trail);
        lemma_dash_bytes(lead);
        lemma_dash_bytes(trail);
        assert forall|j: int| 0 <= j < 9 implies (#[trigger] " capture "@[j] as u32) < 0x80 by {}
        lemma_byte_len_ascii(" capture "@);
        assert forall|j: int| 0 <= j < 1 implies (#[trigger] " "@[j] as u32) < 0x80 by {}
        lemma_byte_len_ascii(" "@);
        lemma_byte_len_concat(d1 + " capture "@ + var + " "@, d2);
        lemma_byte_len_concat(d1 + " capture "@ + var, " "@);
        lemma_byte_len_concat(d1 + " capture "@, var);
        lemma_byte_len_concat(d1, " capture "@);
    }
}

/// The capture pass never lengthens a template in bytes.
pub proof fn lemma_capture_fewer_bytes(t: Seq<char>)
    ensures
        byte_len(capture_tags_rewritten(t)) <= byte_len(t),
{
    reveal_strlit("{%");
    reveal_strlit("%}");
    assert forall|x: Seq<char>| byte_len(#[trigger] CaptureTagRule.replaced(x)) <= byte_len("{%"@) + byte_len(x)
        + byte_len("%}"@) by {
        lemma_capture_replacement_form(x);
        lemma_capture_inner_bytes(x);
        lemma_byte_len_concat("{%"@ + capture_inner(x), "%}"@);
        lemma_byte_len_concat("{%"@, capture_inner(x));
    }
    lemma_rewrite_spans_fewer_bytes(CaptureTagRule, t, 0, "{%"@, "%}"@);
    assert(t.skip(0) =~= t);
}

/// The capture pass is idempotent: running it on its own output changes
/// nothing.
pub proof fn lemma_capture_idempotent(t: Seq<char>)
    ensures
        capture_tags_rewritten(capture_tags_rewritten(t)) == capture_tags_rewritten(t),
{
    reveal_strlit("{%");
    reveal_strlit("%}");
    let g = |x: Seq<char>| capture_inner(x);
    assert forall|x: Seq<char>| #[trigger] CaptureTagRule.replaced(x) == "{%"@ + g(x) + "%}"@ by {
        lemma_capture_replacement_form(x);
    }
    assert forall|x: Seq<char>| closes_at_end(x, "%}"@) implies closes_at_end(#[trigger] g(x), "%}"@) && g(g(x)) == g(
        x,
    ) by {
        lemma_capture_inner_closes(x);
        lemma_capture_inner_fixed(x);
    }
    lemma_rewrite_spans_idempotent(CaptureTagRule, g, t, "{%"@, "%}"@);
}

/// Strips extra tokens after the variable name of `{% capture %}` tags,
/// keeping whitespace-control dashes: `{%- capture v do -%}` becomes
/// `{%- capture v -%}`.
pub fn preprocess_capture_tags(template: &str) -> (r: String)
    ensures
        r@ == capture_tags_rewritten(template@),
{
    let s = str_to_chars(template);
    let open = str_to_chars("{%");
    proof { reveal_strlit("{%"); }
    let out = rewrite_spans_total(&CaptureTagRule, &s, &open, &str_to_chars("%}"));
    chars_to_string(&out)
}

} // verus!
