//! Splitting a template into protected blocks (fenced code, `{% raw %}`,
//! `{% highlight %}`) and the unprotected text between them.
use vstd::prelude::*;
use crate::outputs::{inject_render_mapping, render_mapping_injected};
use crate::text::{
    chars_to_string, contains, find_at, find_from, lemma_find_from, matches_at, occurs_at,
    push_all, slice, starts_with, str_to_chars, trim, trim_chars,
};

verus! {

/// Length of the run of `c` characters starting at index `i`.
pub open spec fn run_len(s: Seq<char>, i: int, c: char) -> int
    decreases s.len() - i,
{
    if 0 <= i < s.len() && s[i] == c {
        1 + run_len(s, i + 1, c)
    } else {
        0
    }
}

/// Index just past the line holding index `i`: past the next `\n`, or the end.
pub open spec fn line_end_from(s: Seq<char>, i: int) -> int {
    match find_from(s, "\n"@, i) {
        Some(k) => k + 1,
        None => s.len() as int,
    }
}

/// Searching from line start `sp` for a closing fence of at least `fl`
/// characters `fc`; the end of the closing fence's line when found.
pub open spec fn fence_close(s: Seq<char>, sp: int, fc: char, fl: int) -> Option<int>
    decreases s.len() - sp,
{
    if sp < 0 || sp >= s.len() {
        None
    } else if s[sp] == fc && run_len(s, sp, fc) >= fl {
        let cl = run_len(s, sp, fc);
        Some(
            match find_from(s, "\n"@, sp + cl) {
                Some(k) => k + 1,
                None => sp + cl,
            },
        )
    } else {
        match find_from(s, "\n"@, sp) {
            Some(nl) => if nl >= sp && nl < s.len() {
                fence_close(s, nl + 1, fc, fl)
            } else {
                None
            },
            None => None,
        }
    }
}

/// End of the fenced code block (```` ``` ```` or `~~~`) opening at line start
/// `pos`, if it is closed.
pub open spec fn fence_block_end(s: Seq<char>, pos: int) -> Option<int> {
    if 0 <= pos && (pos == 0 || s[pos - 1] == '\n') && pos + 3 <= s.len() && (occurs_at(
        s,
        "```"@,
        pos,
    ) || occurs_at(s, "~~~"@, pos)) {
        let fc = s[pos];
        let fl = run_len(s, pos, fc);
        fence_close(s, line_end_from(s, pos + fl), fc, fl)
    } else {
        None
    }
}

/// End of the `{% raw %}` / `{% highlight %}` block opening at `pos`, if closed.
pub open spec fn tag_block_end(s: Seq<char>, pos: int) -> Option<int> {
    if 0 <= pos < s.len() && s[pos] == '{' && occurs_at(s, "{%"@, pos) {
        match find_from(s, "%}"@, pos) {
            Some(te) => if te >= pos + 2 {
                let inner = trim(s.subrange(pos + 2, te));
                if inner == "raw"@ {
                    match find_from(s, "{% endraw %}"@, te + 2) {
                        Some(o) => Some(o + 12),
                        None => None,
                    }
                } else if starts_with(inner, "highlight"@) {
                    match find_from(s, "{% endhighlight %}"@, te + 2) {
                        Some(o) => Some(o + 18),
                        None => None,
                    }
                } else {
                    None
                }
            } else {
                None
            },
            None => None,
        }
    } else {
        None
    }
}

/// End of the protected block opening at `pos`, if one does.
pub open spec fn protected_block_end(s: Seq<char>, pos: int) -> Option<int> {
    match tag_block_end(s, pos) {
        Some(e) => Some(e),
        None => fence_block_end(s, pos),
    }
}

/// The segments of `s` from scan position `pos` on, where unprotected text
/// started at `u`: `(text, protected)` pairs in order.
pub open spec fn protect_scan(s: Seq<char>, pos: int, u: int) -> Seq<(Seq<char>, bool)>
    decreases s.len() - pos,
{
    if pos < 0 || pos >= s.len() {
        if 0 <= u < s.len() {
            seq![(s.subrange(u, s.len() as int), false)]
        } else {
            Seq::empty()
        }
    } else {
        match protected_block_end(s, pos) {
            Some(be) => if pos < be <= s.len() {
                let head: Seq<(Seq<char>, bool)> = if u < pos {
                    seq![(s.subrange(u, pos), false)]
                } else {
                    Seq::empty()
                };
                head + seq![(s.subrange(pos, be), true)] + protect_scan(s, be, be)
            } else {
                protect_scan(s, pos + 1, u)
            },
            None => protect_scan(s, pos + 1, u),
        }
    }
}

/// The segments of a template: protected blocks and the text between them.
pub open spec fn protected_segments(s: Seq<char>) -> Seq<(Seq<char>, bool)> {
    protect_scan(s, 0, 0)
}

/// The scan never slices a `{%}` (a tag start whose `%}` overlaps its `{%`)
/// from scan position `pos` on.
pub open spec fn protect_scan_safe(s: Seq<char>, pos: int) -> bool
    decreases s.len() - pos,
{
    if pos < 0 || pos >= s.len() {
        true
    } else {
        !occurs_at(s, "{%}"@, pos) && match protected_block_end(s, pos) {
            Some(be) => if pos < be <= s.len() {
                protect_scan_safe(s, be)
            } else {
                protect_scan_safe(s, pos + 1)
            },
            None => protect_scan_safe(s, pos + 1),
        }
    }
}

/// The concatenated texts of a list of segments.
pub open spec fn segments_text(segs: Seq<(Seq<char>, bool)>) -> Seq<char>
    decreases segs.len(),
{
    if segs.len() == 0 {
        Seq::empty()
    } else {
        segs[0].0 + segments_text(segs.drop_first())
    }
}

/// The concatenated texts, with `render_mapping` injected into unprotected ones.
pub open spec fn segments_rendered(segs: Seq<(Seq<char>, bool)>) -> Seq<char>
    decreases segs.len(),
{
    if segs.len() == 0 {
        Seq::empty()
    } else {
        (if segs[0].1 {
            segs[0].0
        } else {
            render_mapping_injected(segs[0].0)
        }) + segments_rendered(segs.drop_first())
    }
}

/// Concatenating the segments gives back the scanned text.
pub proof fn lemma_protect_scan_text(s: Seq<char>, pos: int, u: int)
    requires
        0 <= u <= pos,
        u <= s.len(),
    ensures
        segments_text(protect_scan(s, pos, u)) == s.subrange(u, s.len() as int),
    decreases s.len() - pos,
{
    if pos >= s.len() {
        if u < s.len() {
            lemma_segments_text_single((s.subrange(u, s.len() as int), false));
        } else {
            assert(s.subrange(u, s.len() as int) =~= Seq::<char>::empty());
        }
    } else {
        match protected_block_end(s, pos) {
            Some(be) => if pos < be <= s.len() {
                lemma_protect_scan_text(s, be, be);
                let tail = protect_scan(s, be, be);
                let mid: Seq<(Seq<char>, bool)> = seq![(s.subrange(pos, be), true)];
                lemma_segments_text_append(mid, tail);
                if u < pos {
                    let head: Seq<(Seq<char>, bool)> = seq![(s.subrange(u, pos), false)];
                    lemma_segments_text_append(head, mid + tail);
                    assert(head + mid + tail =~= head + (mid + tail));
                    lemma_segments_text_single((s.subrange(u, pos), false));
                    lemma_segments_text_single((s.subrange(pos, be), true));
                    assert(s.subrange(u, pos) + (s.subrange(pos, be) + s.subrange(be, s.len() as int))
                        =~= s.subrange(u, s.len() as int));
                } else {
                    assert(Seq::<(Seq<char>, bool)>::empty() + mid + tail =~= mid + tail);
                    lemma_segments_text_single((s.subrange(pos, be), true));
                    assert(s.subrange(pos, be) + s.subrange(be, s.len() as int) =~= s.subrange(
                        u,
                        s.len() as int,
                    ));
                }
            } else {
                lemma_protect_scan_text(s, pos + 1, u);
            },
            None => lemma_protect_scan_text(s, pos + 1, u),
        }
    }
}

/// Text of a single segment.
pub proof fn lemma_segments_text_single(x: (Seq<char>, bool))
    ensures
        segments_text(seq![x]) == x.0,
{
    let e = Seq::<(Seq<char>, bool)>::empty();
    assert(seq![x].drop_first() =~= e);
    assert(segments_text(e) == Seq::<char>::empty());
    assert(seq![x][0] == x);
    assert(x.0 + Seq::<char>::empty() =~= x.0);
}

/// Text of a concatenation of segment lists.
pub proof fn lemma_segments_text_append(a: Seq<(Seq<char>, bool)>, b: Seq<(Seq<char>, bool)>)
    ensures
        segments_text(a + b) == segments_text(a) + segments_text(b),
    decreases a.len(),
{
    if a.len() == 0 {
        assert(a + b =~= b);
        assert(segments_text(a) + segments_text(b) =~= segments_text(b));
    } else {
        assert((a + b).drop_first() =~= a.drop_first() + b);
        lemma_segments_text_append(a.drop_first(), b);
        assert(segments_text(a) + segments_text(b) =~= a[0].0 + (segments_text(a.drop_first())
            + segments_text(b)));
    }
}

/// The protected blocks and the text between them, concatenated, give back
/// the whole template.
pub proof fn lemma_segments_cover_template(s: Seq<char>)
    ensures
        segments_text(protected_segments(s)) == s,
{
    lemma_protect_scan_text(s, 0, 0);
    assert(s.subrange(0, s.len() as int) =~= s);
}

fn run_len_exec(s: &Vec<char>, i: usize, c: char) -> (r: usize)
    requires
        i <= s.len(),
    ensures
        r as int == run_len(s@, i as int, c),
        i + r <= s.len(),
{
    let mut j = i;
    while j < s.len() && s[j] == c
        invariant
            i <= j <= s.len(),
            run_len(s@, i as int, c) == (j - i) + run_len(s@, j as int, c),
        decreases s.len() - j,
    {
        j += 1;
    }
    j - i
}

fn newline_after(s: &Vec<char>, i: usize, nl: &Vec<char>) -> (r: Option<usize>)
    requires
        nl@ == "\n"@,
    ensures
        match r {
            Some(k) => find_from(s@, "\n"@, i as int) == Some(k as int) && k < s.len(),
            None => find_from(s@, "\n"@, i as int) is None,
        },
{
    let r = find_at(s, nl, i);
    proof {
        reveal_strlit("\n");
        lemma_find_from(s@, nl@, i as int);
    }
    r
}

fn fence_close_exec(s: &Vec<char>, sp0: usize, fc: char, fl: usize) -> (r: Option<usize>)
    ensures
        match r {
            Some(k) => fence_close(s@, sp0 as int, fc, fl as int) == Some(k as int),
            None => fence_close(s@, sp0 as int, fc, fl as int) is None,
        },
{
    let nl = str_to_chars("\n");
    let mut sp = sp0;
    while sp < s.len()
        invariant
            nl@ == "\n"@,
            fence_close(s@, sp0 as int, fc, fl as int) == fence_close(s@, sp as int, fc, fl as int),
        decreases s.len() - sp,
    {
        if s[sp] == fc {
            let cl = run_len_exec(s, sp, fc);
            if cl >= fl {
                return match newline_after(s, sp + cl, &nl) {
                    Some(k) => Some(k + 1),
                    None => Some(sp + cl),
                };
            }
        }
        match newline_after(s, sp, &nl) {
            Some(k) => {
                if k < sp {
                    return None;
                }
                sp = k + 1;
            },
            None => {
                return None;
            },
        }
    }
    None
}

fn fence_block_end_exec(s: &Vec<char>, pos: usize) -> (r: Option<usize>)
    ensures
        match r {
            Some(k) => fence_block_end(s@, pos as int) == Some(k as int),
            None => fence_block_end(s@, pos as int) is None,
        },
{
    if (pos == 0 || (pos <= s.len() && s[pos - 1] == '\n')) && pos <= s.len() && 3 <= s.len() - pos
        && (matches_at(s, &str_to_chars("```"), pos) || matches_at(s, &str_to_chars("~~~"), pos)) {
        let fc = s[pos];
        let fl = run_len_exec(s, pos, fc);
        let nl = str_to_chars("\n");
        let le = match newline_after(s, pos + fl, &nl) {
            Some(k) => k + 1,
            None => s.len(),
        };
        fence_close_exec(s, le, fc, fl)
    } else {
        None
    }
}

fn tag_block_end_exec(s: &Vec<char>, pos: usize) -> (r: Option<usize>)
    ensures
        match r {
            Some(k) => tag_block_end(s@, pos as int) == Some(k as int),
            None => tag_block_end(s@, pos as int) is None,
        },
{
    if pos < s.len() && s[pos] == '{' && matches_at(s, &str_to_chars("{%"), pos) {
        let close = str_to_chars("%}");
        match find_at(s, &close, pos) {
            Some(te) => {
                proof {
                    reveal_strlit("%}");
                    lemma_find_from(s@, close@, pos as int);
                }
                if te >= pos + 2 {
                    let raw_inner = slice(s, pos + 2, te);
                    let inner = trim_chars(&raw_inner);
                    let raw_kw = str_to_chars("raw");
                    let endraw = str_to_chars("{% endraw %}");
                    let endhl = str_to_chars("{% endhighlight %}");
                    proof {
                        reveal_strlit("{% endraw %}");
                        reveal_strlit("{% endhighlight %}");
                    }
                    if crate::text::vec_eq(&inner, &raw_kw) {
                        match find_at(s, &endraw, te + 2) {
                            Some(o) => {
                                proof { lemma_find_from(s@, endraw@, te + 2); }
                                Some(o + 12)
                            },
                            None => None,
                        }
                    } else if crate::text::has_prefix(&inner, &str_to_chars("highlight")) {
                        match find_at(s, &endhl, te + 2) {
                            Some(o) => {
                                proof { lemma_find_from(s@, endhl@, te + 2); }
                                Some(o + 18)
                            },
                            None => None,
                        }
                    } else {
                        None
                    }
                } else {
                    None
                }
            },
            None => None,
        }
    } else {
        None
    }
}

fn protected_block_end_exec(s: &Vec<char>, pos: usize) -> (r: Option<usize>)
    ensures
        match r {
            Some(k) => protected_block_end(s@, pos as int) == Some(k as int),
            None => protected_block_end(s@, pos as int) is None,
        },
{
    match tag_block_end_exec(s, pos) {
        Some(e) => Some(e),
        None => fence_block_end_exec(s, pos),
    }
}

/// The segments as character sequences.
pub open spec fn segments_view(v: Seq<(Vec<char>, bool)>) -> Seq<(Seq<char>, bool)> {
    v.map_values(|p: (Vec<char>, bool)| (p.0@, p.1))
}

/// Splits a template into `(text, protected)` segments: fenced code blocks,
/// `{% raw %}...{% endraw %}` and `{% highlight %}...{% endhighlight %}`
/// blocks are protected; the text between them is not.
pub fn split_protected_segments(template: &Vec<char>) -> (r: Vec<(Vec<char>, bool)>)
    requires
        protect_scan_safe(template@, 0),
    ensures
        segments_view(r@) == protected_segments(template@),
{
    let s = template;
    let mut segs: Vec<(Vec<char>, bool)> = Vec::new();
    let mut pos: usize = 0;
    let mut u: usize = 0;
    while pos < s.len()
        invariant
            u <= pos,
            pos <= s.len(),
            protected_segments(s@) == segments_view(segs@) + protect_scan(s@, pos as int, u as int),
        decreases s.len() - pos,
    {
        match protected_block_end_exec(s, pos) {
            Some(be) => {
                if pos < be && be <= s.len() {
                    let ghost old_segs = segs@;
                    if u < pos {
                        segs.push((slice(s, u, pos), false));
                    }
                    segs.push((slice(s, pos, be), true));
                    proof {
                        let head: Seq<(Seq<char>, bool)> = if u < pos {
                            seq![(s@.subrange(u as int, pos as int), false)]
                        } else {
                            Seq::empty()
                        };
                        assert(segments_view(segs@) =~= segments_view(old_segs) + head + seq![
                            (s@.subrange(pos as int, be as int), true),
                        ]);
                    }
                    pos = be;
                    u = be;
                } else {
                    pos += 1;
                }
            },
            None => {
                pos += 1;
            },
        }
    }
    let ghost old_segs = segs@;
    if u < s.len() {
        segs.push((slice(s, u, s.len()), false));
    }
    assert(segments_view(segs@) =~= segments_view(old_segs) + protect_scan(s@, pos as int, u as int));
    segs
}

/// The template with ` | render_mapping` appended to bare output tags outside
/// protected blocks.
pub open spec fn render_mapping_rewritten(t: Seq<char>) -> Seq<char> {
    if !contains(t, "{{"@) {
        t
    } else {
        segments_rendered(protected_segments(t))
    }
}

/// Whether the template's protected-block scan never slices a `{%}`.
pub open spec fn render_mapping_safe(t: Seq<char>) -> bool {
    !contains(t, "{{"@) || protect_scan_safe(t, 0)
}

/// Appends ` | render_mapping` to bare `{{ expr }}` outputs, leaving fenced
/// code, raw and highlight blocks untouched.
pub fn preprocess_bare_output_render_mapping(template: &str) -> (r: String)
    requires
        render_mapping_safe(template@),
    ensures
        r@ == render_mapping_rewritten(template@),
{
    let s = str_to_chars(template);
    if find_at(&s, &str_to_chars("{{"), 0).is_none() {
        return chars_to_string(&s);
    }
    let segs = split_protected_segments(&s);
    let mut out: Vec<char> = Vec::new();
    let mut i: usize = 0;
    assert(segments_view(segs@).skip(0) =~= segments_view(segs@));
    assert(out@ + segments_rendered(segments_view(segs@)) =~= segments_rendered(segments_view(segs@)));
    while i < segs.len()
        invariant
            i <= segs.len(),
            segments_rendered(segments_view(segs@)) == out@ + segments_rendered(
                segments_view(segs@).skip(i as int),
            ),
        decreases segs.len() - i,
    {
        let ghost rest = segments_view(segs@).skip(i as int);
        assert(rest.drop_first() =~= segments_view(segs@).skip(i + 1));
        if segs[i].1 {
            push_all(&mut out, &segs[i].0);
        } else {
            push_all(&mut out, &inject_render_mapping(&segs[i].0));
        }
        i += 1;
    }
    assert(segments_view(segs@).skip(segs.len() as int) =~= Seq::<(Seq<char>, bool)>::empty());
    chars_to_string(&out)
}

/// Whether the protected-block scan of the template never slices a `{%}`
/// (the inputs `preprocess_bare_output_render_mapping` takes).
pub fn render_mapping_safe_exec(template: &str) -> (r: bool)
    ensures
        r == render_mapping_safe(template@),
{
    let s = str_to_chars(template);
    let oo = str_to_chars("{{");
    proof {
        lemma_find_from(s@, oo@, 0);
    }
    if find_at(&s, &oo, 0).is_none() {
        return true;
    }
    let bad = str_to_chars("{%}");
    let mut pos: usize = 0;
    while pos < s.len()
        invariant
            pos <= s.len(),
            s@ == template@,
            bad@ == "{%}"@,
            render_mapping_safe(template@) == protect_scan_safe(s@, pos as int),
        decreases s.len() - pos,
    {
        if matches_at(&s, &bad, pos) {
            return false;
        }
        match protected_block_end_exec(&s, pos) {
            Some(be) => {
                if pos < be && be <= s.len() {
                    pos = be;
                } else {
                    pos += 1;
                }
            },
            None => {
                pos += 1;
            },
        }
    }
    true
}

/// A protected block starts with its opening delimiter.
pub open spec fn opens_block(t: Seq<char>) -> bool {
    starts_with(t, "{%"@) || starts_with(t, "```"@) || starts_with(t, "~~~"@)
}

/// Segments as the scan gives them: none is empty, no two unprotected ones
/// are adjacent, and every protected one starts with its delimiter.
pub open spec fn segments_well_formed(segs: Seq<(Seq<char>, bool)>) -> bool {
    &&& forall|i: int| 0 <= i < segs.len() ==> (#[trigger] segs[i]).0.len() > 0
    &&& forall|i: int| 0 <= i < segs.len() && (#[trigger] segs[i]).1 ==> opens_block(segs[i].0)
    &&& forall|i: int| 0 <= i < segs.len() - 1 && !(#[trigger] segs[i]).1 ==> segs[i + 1].1
}

/// A run of `c` from `i` stays within the text.
proof fn lemma_run_len_bounds(s: Seq<char>, i: int, c: char)
    requires
        0 <= i <= s.len(),
    ensures
        0 <= run_len(s, i, c),
        i + run_len(s, i, c) <= s.len(),
    decreases s.len() - i,
{
    if 0 <= i < s.len() && s[i] == c {
        lemma_run_len_bounds(s, i + 1, c);
    }
}

/// The line end after `i` is past `i` (or the text's end).
proof fn lemma_line_end_from(s: Seq<char>, i: int)
    requires
        0 <= i <= s.len(),
    ensures
        i <= line_end_from(s, i) <= s.len(),
{
    reveal_strlit("\n");
    lemma_find_from(s, "\n"@, i);
}

/// A closing fence found from `sp` ends past `sp`.
proof fn lemma_fence_close_after(s: Seq<char>, sp: int, fc: char, fl: int)
    ensures
        fence_close(s, sp, fc, fl) matches Some(e) ==> e > sp,
    decreases s.len() - sp,
{
    reveal_strlit("\n");
    if 0 <= sp < s.len() {
        if s[sp] == fc && run_len(s, sp, fc) >= fl {
            lemma_run_len_bounds(s, sp + 1, fc);
            assert(run_len(s, sp, fc) >= 1);
            lemma_find_from(s, "\n"@, sp + run_len(s, sp, fc));
        } else {
            lemma_find_from(s, "\n"@, sp);
            match find_from(s, "\n"@, sp) {
                Some(nl) => if nl >= sp && nl < s.len() {
                    lemma_fence_close_after(s, nl + 1, fc, fl);
                },
                None => {},
            }
        }
    }
}

/// A protected block opening at `pos` runs past its opening delimiter.
proof fn lemma_block_opens(s: Seq<char>, pos: int)
    requires
        0 <= pos < s.len(),
    ensures
        protected_block_end(s, pos) matches Some(be) ==> pos < be <= s.len() ==> opens_block(s.subrange(pos, be)),
{
    reveal_strlit("{%");
    match tag_block_end(s, pos) {
        Some(be) => {
            let te = find_from(s, "%}"@, pos)->0;
            lemma_find_from(s, "%}"@, pos);
            if trim(s.subrange(pos + 2, te)) == "raw"@ {
                lemma_find_from(s, "{% endraw %}"@, te + 2);
            } else {
                lemma_find_from(s, "{% endhighlight %}"@, te + 2);
            }
            assert(be >= pos + 2);
            if be <= s.len() {
                assert(s.subrange(pos, be).take(2) =~= s.subrange(pos, pos + 2));
            }
        },
        None => match fence_block_end(s, pos) {
            Some(be) => {
                let fc = s[pos];
                let fl = run_len(s, pos, fc);
                assert(s.subrange(pos, pos + 3)[0] == s[pos]);
                assert(s.subrange(pos, pos + 3)[1] == s[pos + 1]);
                assert(s.subrange(pos, pos + 3)[2] == s[pos + 2]);
                reveal_strlit("```");
                reveal_strlit("~~~");
                assert(s[pos + 1] == fc && s[pos + 2] == fc);
                lemma_run_len_bounds(s, pos + 3, fc);
                assert(run_len(s, pos + 2, fc) == 1 + run_len(s, pos + 3, fc));
                assert(run_len(s, pos + 1, fc) == 1 + run_len(s, pos + 2, fc));
                assert(fl == 1 + run_len(s, pos + 1, fc));
                assert(fl >= 3);
                lemma_run_len_bounds(s, pos, fc);
                lemma_line_end_from(s, pos + fl);
                lemma_fence_close_after(s, line_end_from(s, pos + fl), fc, fl);
                assert(be >= pos + 3);
                if be <= s.len() {
                    assert(s.subrange(pos, be).take(3) =~= s.subrange(pos, pos + 3));
                }
            },
            None => {},
        },
    }
}

/// The scan from `pos` (unprotected text started at `u`) gives well-formed
/// segments.
proof fn lemma_protect_scan_well_formed(s: Seq<char>, pos: int, u: int)
    requires
        0 <= u <= pos,
        u <= s.len(),
    ensures
        segments_well_formed(protect_scan(s, pos, u)),
    decreases s.len() - pos,
{
    if pos >= s.len() {
    } else {
        match protected_block_end(s, pos) {
            Some(be) => if pos < be <= s.len() {
                lemma_protect_scan_well_formed(s, be, be);
                lemma_block_opens(s, pos);
                let tail = protect_scan(s, be, be);
                let mid: Seq<(Seq<char>, bool)> = seq![(s.subrange(pos, be), true)];
                let head: Seq<(Seq<char>, bool)> = if u < pos {
                    seq![(s.subrange(u, pos), false)]
                } else {
                    Seq::empty()
                };
                let all = head + mid + tail;
                assert(all == protect_scan(s, pos, u));
                assert forall|i: int| 0 <= i < all.len() implies (#[trigger] all[i]).0.len() > 0 && (all[i].1
                    ==> opens_block(all[i].0)) && (i < all.len() - 1 && !all[i].1 ==> all[i + 1].1) by {
                    if i < head.len() {
                        assert(all[i] == head[i]);
                        assert(all[i + 1] == mid[0]);
                    } else if i == head.len() {
                        assert(all[i] == mid[0]);
                    } else {
                        assert(all[i] == tail[i - head.len() - 1]);
                        if i < all.len() - 1 {
                            assert(all[i + 1] == tail[i - head.len()]);
                        }
                    }
                }
            } else {
                lemma_protect_scan_well_formed(s, pos + 1, u);
            },
            None => lemma_protect_scan_well_formed(s, pos + 1, u),
        }
    }
}

/// The segments of any template are well formed: none is empty, no two
/// unprotected ones are adjacent, each protected one starts with `{%`,
/// ```` ``` ```` or `~~~`; and together they give back the template.
pub proof fn lemma_segments_well_formed(s: Seq<char>)
    ensures
        segments_well_formed(protected_segments(s)),
        segments_text(protected_segments(s)) == s,
{
    lemma_protect_scan_well_formed(s, 0, 0);
    lemma_segments_cover_template(s);
}

} // verus!
