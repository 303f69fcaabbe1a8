//! `markdownify`: the math delimiters of converted Markdown.
use vstd::prelude::*;
use crate::text::{
    chars_to_string, ends_with, find, find_at, has_prefix, has_suffix, lemma_find_from, push_all, push_range, slice,
    starts_with, str_to_chars,
};

verus! {

/// A `$$...$$` pair that makes up a whole paragraph: `<p>` right before it
/// and `</p>` right after it.
pub open spec fn standalone(before: Seq<char>, rest: Seq<char>) -> bool {
    ends_with(before, "<p>"@) && starts_with(rest, "</p>"@)
}

/// `$$...$$` pairs, scanning left to right: display math `\[...\]` where the
/// pair is a paragraph of its own, inline math `\(...\)` within running
/// text; an unpaired `$$` is kept with the rest.
pub open spec fn math_converted(s: Seq<char>) -> Seq<char>
    decreases s.len(),
{
    match find(s, "$$"@) {
        None => s,
        Some(st) => if 0 <= st && st + 2 <= s.len() {
            let after = s.skip(st + 2);
            match find(after, "$$"@) {
                Some(e) => if 0 <= e && e + 2 <= after.len() {
                    let rest = after.skip(e + 2);
                    if standalone(s.take(st), rest) {
                        s.take(st) + "\\["@ + after.take(e) + "\\]"@ + math_converted(rest)
                    } else {
                        s.take(st) + "\\("@ + after.take(e) + "\\)"@ + math_converted(rest)
                    }
                } else {
                    s
                },
                None => s.take(st) + "$$"@ + after,
            }
        } else {
            s
        },
    }
}

/// Converts kramdown math delimiters `$$..$$` to MathJax notation: `\[..\]`
/// for a paragraph of its own, `\(..\)` within running text.
pub fn convert_math_delimiters(input: &str) -> (r: String)
    ensures
        r@ == math_converted(input@),
{
    let mut s = str_to_chars(input);
    let dd = str_to_chars("$$");
    let open_m = str_to_chars("\\(");
    let close_m = str_to_chars("\\)");
    let open_d = str_to_chars("\\[");
    let close_d = str_to_chars("\\]");
    let p_open = str_to_chars("<p>");
    let p_close = str_to_chars("</p>");
    proof {
        reveal_strlit("$$");
    }
    let mut out: Vec<char> = Vec::new();
    loop
        invariant
            dd@ == "$$"@,
            dd@.len() == 2,
            open_m@ == "\\("@,
            close_m@ == "\\)"@,
            open_d@ == "\\["@,
            close_d@ == "\\]"@,
            p_open@ == "<p>"@,
            p_close@ == "</p>"@,
            math_converted(input@) == out@ + math_converted(s@),
        decreases s.len(),
    {
        proof {
            lemma_find_from(s@, dd@, 0);
        }
        match find_at(&s, &dd, 0) {
            None => {
                push_all(&mut out, &s);
                return chars_to_string(&out);
            },
            Some(st) => {
                let after = slice(&s, st + 2, s.len());
                assert(after@ =~= s@.skip(st + 2));
                proof {
                    lemma_find_from(after@, dd@, 0);
                }
                match find_at(&after, &dd, 0) {
                    Some(e) => {
                        let before = slice(&s, 0, st);
                        let rest = slice(&after, e + 2, after.len());
                        assert(before@ =~= s@.take(st as int));
                        assert(rest@ =~= after@.skip(e + 2));
                        let display = has_suffix(&before, &p_open) && has_prefix(&rest, &p_close);
                        push_all(&mut out, &before);
                        if display {
                            push_all(&mut out, &open_d);
                        } else {
                            push_all(&mut out, &open_m);
                        }
                        push_range(&mut out, &after, 0, e);
                        if display {
                            push_all(&mut out, &close_d);
                        } else {
                            push_all(&mut out, &close_m);
                        }
                        assert(after@.subrange(0, e as int) =~= after@.take(e as int));
                        s = rest;
                    },
                    None => {
                        push_range(&mut out, &s, 0, st);
                        push_all(&mut out, &dd);
                        push_all(&mut out, &after);
                        assert(s@.subrange(0, st as int) =~= s@.take(st as int));
                        return chars_to_string(&out);
                    },
                }
            },
        }
    }
}

/// The `markdownify` filter's step after Markdown conversion.
pub struct Markdownify;

impl Markdownify {
    /// Finishes converted Markdown: math delimiters become MathJax notation
    /// (display math for a paragraph of its own, inline math elsewhere).
    pub fn finish(&self, html: &str) -> (r: String)
        ensures
            r@ == math_converted(html@),
    {
        convert_math_delimiters(html)
    }
}

} // verus!
