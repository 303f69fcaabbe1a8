//! `{% feed_meta %}`, `{% details %}` and `{% file_exists %}`.
use vstd::prelude::*;
use crate::filters::collections::{joined, views, join_texts, lemma_array_sv};
use crate::filters::urls::{trim_trailing_slashes, without_trailing_slashes};
use crate::text::{
    chars_to_string, find, find_at, find_from, lemma_find_from, lemma_replace_char_absent, push_all, replace_all,
    replace_chars, slice, str_to_chars, trim, trim_chars,
};
use crate::value::{rendered, svs, SValue, Value};

verus! {

// ---------------------------------------------------------------------------
// feed_meta
// ---------------------------------------------------------------------------

/// `&`, `<`, `>`, `"` and `'` written as HTML entities, in that order.
pub open spec fn html_escaped(s: Seq<char>) -> Seq<char> {
    replace_all(
        replace_all(
            replace_all(
                replace_all(replace_all(s, "&"@, "&amp;"@), "<"@, "&lt;"@),
                ">"@,
                "&gt;"@,
            ),
            "\""@,
            "&quot;"@,
        ),
        "'"@,
        "&#39;"@,
    )
}

/// A setting that counts only when present and non-empty.
pub open spec fn setting(o: Option<&str>) -> Option<Seq<char>> {
    match o {
        Some(s) => if s@.len() > 0 {
            Some(s@)
        } else {
            None
        },
        None => None,
    }
}

/// `s` without its leading `/` characters.
pub open spec fn without_leading_slashes(s: Seq<char>) -> Seq<char>
    decreases s.len(),
{
    if s.len() > 0 && s[0] == '/' {
        without_leading_slashes(s.drop_first())
    } else {
        s
    }
}

/// One feed `<link>` element.
pub open spec fn feed_link(href: Seq<char>, title: Seq<char>) -> Seq<char> {
    "<link type=\"application/atom+xml\" rel=\"alternate\" href=\""@ + html_escaped(href)
        + "\" title=\""@ + html_escaped(title) + "\" />"@
}

/// The links for the category feeds, one line each, skipping empty names.
pub open spec fn category_links(cats: Seq<SValue>, url: Seq<char>, title: Seq<char>) -> Seq<char>
    decreases cats.len(),
{
    if cats.len() == 0 {
        Seq::empty()
    } else {
        let name = rendered(cats.last());
        category_links(cats.drop_last(), url, title) + if name.len() == 0 {
            Seq::<char>::empty()
        } else {
            seq!['\n'] + feed_link(url + "/feed/"@ + name + ".xml"@, title + seq![' ', '|', ' '] + name)
        }
    }
}

/// What `{% feed_meta %}` writes for the site settings: the main feed link
/// and one link per category feed.
pub open spec fn feed_meta_html(
    url: Option<&str>,
    name: Option<&str>,
    title: Option<&str>,
    path: Option<&str>,
    categories: Option<SValue>,
) -> Seq<char> {
    let u = without_trailing_slashes(
        match setting(url) {
            Some(s) => s,
            None => Seq::empty(),
        },
    );
    let t = match setting(name) {
        Some(s) => s,
        None => match setting(title) {
            Some(s) => s,
            None => Seq::empty(),
        },
    };
    let p = without_leading_slashes(
        match setting(path) {
            Some(s) => s,
            None => "feed.xml"@,
        },
    );
    feed_link(u + seq!['/'] + p, t) + match categories {
        Some(SValue::Array(cats)) => category_links(cats, u, t),
        _ => Seq::empty(),
    }
}

/// The HTML escape leaves none of `<`, `>`, `"` and `'` in its output, so
/// that it is safe inside a quoted attribute value.
pub proof fn lemma_html_escaped_safe(s: Seq<char>)
    ensures
        !html_escaped(s).contains('<'),
        !html_escaped(s).contains('>'),
        !html_escaped(s).contains('"'),
        !html_escaped(s).contains('\''),
{
    reveal_strlit("&");
    reveal_strlit("<");
    reveal_strlit(">");
    reveal_strlit("\"");
    reveal_strlit("'");
    reveal_strlit("&amp;");
    reveal_strlit("&lt;");
    reveal_strlit("&gt;");
    reveal_strlit("&quot;");
    reveal_strlit("&#39;");
    let s1 = replace_all(s, "&"@, "&amp;"@);
    let s2 = replace_all(s1, "<"@, "&lt;"@);
    let s3 = replace_all(s2, ">"@, "&gt;"@);
    let s4 = replace_all(s3, "\""@, "&quot;"@);
    assert("&"@ =~= seq!['&']);
    assert("<"@ =~= seq!['<']);
    assert(">"@ =~= seq!['>']);
    assert("\""@ =~= seq!['"']);
    assert("'"@ =~= seq!['\'']);
    let specials = seq!['<', '>', '"', '\''];
    assert forall|k: int| 0 <= k < 4 implies !html_escaped(s).contains(#[trigger] specials[k]) by {
        let c = specials[k];
        let tos = seq!["&amp;"@, "&lt;"@, "&gt;"@, "&quot;"@, "&#39;"@];
        assert forall|t: int| 0 <= t < 5 implies !tos[t].contains(c) by {
            if tos[t].contains(c) {
                let m = choose|m: int| 0 <= m < tos[t].len() && tos[t][m] == c;
            }
        }
        lemma_replace_char_absent(s, '&', "&amp;"@, c);
        lemma_replace_char_absent(s1, '<', "&lt;"@, c);
        lemma_replace_char_absent(s2, '>', "&gt;"@, c);
        lemma_replace_char_absent(s3, '"', "&quot;"@, c);
        lemma_replace_char_absent(s4, '\'', "&#39;"@, c);
    }
    assert(specials[0] == '<');
    assert(specials[1] == '>');
    assert(specials[2] == '"');
    assert(specials[3] == '\'');
}

fn push_str(out: &mut Vec<char>, s: &str)
    ensures
        final(out)@ == old(out)@ + s@,
{
    push_all(out, &str_to_chars(s));
}

fn replace_str(s: &Vec<char>, from: &str, to: &str) -> (r: Vec<char>)
    requires
        from@.len() > 0,
    ensures
        r@ == replace_all(s@, from@, to@),
{
    replace_chars(s, &str_to_chars(from), &str_to_chars(to))
}

/// HTML-escapes text for an attribute value.
pub fn html_escape(s: &Vec<char>) -> (r: Vec<char>)
    ensures
        r@ == html_escaped(s@),
{
    proof {
        reveal_strlit("&");
        reveal_strlit("<");
        reveal_strlit(">");
        reveal_strlit("\"");
        reveal_strlit("'");
    }
    let a = replace_str(s, "&", "&amp;");
    let b = replace_str(&a, "<", "&lt;");
    let c = replace_str(&b, ">", "&gt;");
    let d = replace_str(&c, "\"", "&quot;");
    replace_str(&d, "'", "&#39;")
}

fn setting_chars(o: Option<&str>) -> (r: Option<Vec<char>>)
    ensures
        match r {
            Some(v) => setting(o) == Some(v@),
            None => setting(o) is None,
        },
{
    match o {
        Some(s) => {
            if s.is_empty() {
                None
            } else {
                Some(str_to_chars(s))
            }
        },
        None => None,
    }
}

fn trim_leading_slashes(s: &Vec<char>) -> (r: Vec<char>)
    ensures
        r@ == without_leading_slashes(s@),
{
    let mut k: usize = 0;
    assert(s@.skip(0) =~= s@);
    while k < s.len() && s[k] == '/'
        invariant
            k <= s.len(),
            without_leading_slashes(s@) == without_leading_slashes(s@.skip(k as int)),
        decreases s.len() - k,
    {
        assert(s@.skip(k as int).drop_first() =~= s@.skip(k + 1));
        k += 1;
    }
    let r = slice(s, k, s.len());
    assert(r@ =~= s@.skip(k as int));
    r
}

fn push_feed_link(out: &mut Vec<char>, href: &Vec<char>, title: &Vec<char>)
    ensures
        final(out)@ == old(out)@ + feed_link(href@, title@),
{
    push_str(out, "<link type=\"application/atom+xml\" rel=\"alternate\" href=\"");
    push_all(out, &html_escape(href));
    push_str(out, "\" title=\"");
    push_all(out, &html_escape(title));
    push_str(out, "\" />");
    assert(final(out)@ =~= old(out)@ + feed_link(href@, title@));
}

/// The `{% feed_meta %}` tag.
pub struct FeedMetaTag;

impl FeedMetaTag {
    /// The feed links for the site's `url`, `name`, `title`, `feed.path` and
    /// `feed.categories` settings (a missing or empty text setting counts as
    /// absent; the title is the name, else the title; the path defaults to
    /// `feed.xml`).
    pub fn render(
        &self,
        url: Option<&str>,
        name: Option<&str>,
        title: Option<&str>,
        path: Option<&str>,
        categories: Option<&Value>,
    ) -> (r: String)
        ensures
            r@ == feed_meta_html(
                url,
                name,
                title,
                path,
                match categories {
                    Some(v) => Some(v.sv()),
                    None => None,
                },
            ),
    {
        let u = match setting_chars(url) {
            Some(v) => trim_trailing_slashes(&v),
            None => {
                let e: Vec<char> = Vec::new();
                assert(without_trailing_slashes(e@) == e@);
                e
            },
        };
        let t = match setting_chars(name) {
            Some(v) => v,
            None => match setting_chars(title) {
                Some(v) => v,
                None => Vec::new(),
            },
        };
        let p = match setting_chars(path) {
            Some(v) => trim_leading_slashes(&v),
            None => trim_leading_slashes(&str_to_chars("feed.xml")),
        };
        let ghost uu = without_trailing_slashes(
            match setting(url) {
                Some(s) => s,
                None => Seq::empty(),
            },
        );
        let ghost want_t = match setting(name) {
            Some(s) => s,
            None => match setting(title) {
                Some(s) => s,
                None => Seq::empty(),
            },
        };
        let ghost want_p = without_leading_slashes(
            match setting(path) {
                Some(s) => s,
                None => "feed.xml"@,
            },
        );
        assert(u@ == uu);
        assert(t@ == want_t);
        assert(p@ == want_p);
        let mut href = slice(&u, 0, u.len());
        assert(href@ =~= u@);
        href.push('/');
        push_all(&mut href, &p);
        assert(href@ =~= uu + seq!['/'] + want_p);
        let mut out: Vec<char> = Vec::new();
        push_feed_link(&mut out, &href, &t);
        assert(out@ =~= feed_link(uu + seq!['/'] + want_p, want_t));
        let ghost head = out@;
        match categories {
            Some(v) => match v {
                Value::Array(items) => {
                    proof { lemma_array_sv(v, items); }
                    let ghost cats = svs(items@);
                    let mut i: usize = 0;
                    while i < items.len()
                        invariant
                            i <= items.len(),
                            cats == svs(items@),
                            out@ == head + category_links(cats.take(i as int), u@, t@),
                        decreases items.len() - i,
                    {
                        assert(cats.take(i + 1).drop_last() =~= cats.take(i as int));
                        let cname = items[i].render_chars();
                        if cname.len() > 0 {
                            let mut h = slice(&u, 0, u.len());
                            push_str(&mut h, "/feed/");
                            push_all(&mut h, &cname);
                            push_str(&mut h, ".xml");
                            let mut tt = slice(&t, 0, t.len());
                            tt.push(' ');
                            tt.push('|');
                            tt.push(' ');
                            push_all(&mut tt, &cname);
                            out.push('\n');
                            push_feed_link(&mut out, &h, &tt);
                            assert(h@ =~= u@ + "/feed/"@ + cname@ + ".xml"@);
                            assert(tt@ =~= t@ + seq![' ', '|', ' '] + cname@);
                        }
                        i += 1;
                    }
                    assert(cats.take(items.len() as int) =~= cats);
                },
                _ => {},
            },
            None => {},
        }
        chars_to_string(&out)
    }
}

// ---------------------------------------------------------------------------
// details
// ---------------------------------------------------------------------------

/// `html` without its opening `<p...>` tags: each is removed, from `<p` to
/// the next `>`, searching again from the start after each removal.
pub open spec fn without_open_p(s: Seq<char>) -> Seq<char>
    decreases s.len(),
{
    match find(s, "<p"@) {
        None => s,
        Some(st) => match find_from(s, ">"@, st) {
            None => s,
            Some(e) => if 0 <= st && st + 2 <= e && e < s.len() {
                without_open_p(s.take(st) + s.skip(e + 1))
            } else {
                s
            },
        },
    }
}

/// `html` without `<p>` / `<p ...>` and `</p>` tags.
pub open spec fn without_p_tags(s: Seq<char>) -> Seq<char> {
    replace_all(without_open_p(s), "</p>"@, Seq::empty())
}

/// The `<details>` element for an already converted summary and body.
pub open spec fn details_html(summary: Seq<char>, body: Seq<char>) -> Seq<char> {
    "<details><summary>"@ + summary + "</summary>"@ + body + "</details>"@
}

/// Removes `<p>` tags as Jekyll's `gsub(/<\/?p[^>]*>/, '')` on the
/// converted summary does.
pub fn strip_p_tags(html: &str) -> (r: String)
    ensures
        r@ == without_p_tags(html@),
{
    let mut s = str_to_chars(html);
    let open = str_to_chars("<p");
    let close = str_to_chars(">");
    proof {
        reveal_strlit("<p");
        reveal_strlit(">");
    }
    loop
        invariant
            open@ == "<p"@,
            close@ == ">"@,
            without_open_p(html@) == without_open_p(s@),
        ensures
            without_open_p(html@) == s@,
        decreases s.len(),
    {
        proof {
            reveal_strlit("<p");
            reveal_strlit(">");
            lemma_find_from(s@, open@, 0);
        }
        match find_at(&s, &open, 0) {
            None => break,
            Some(st) => {
                proof {
                    lemma_find_from(s@, close@, st as int);
                }
                match find_at(&s, &close, st) {
                    None => break,
                    Some(e) => {
                        assert(s@.subrange(st as int, st + 2) == open@);
                        assert(s@.subrange(e as int, e + 1) == close@);
                        assert(open@[0] == '<' && open@[1] == 'p' && close@[0] == '>');
                        assert(s@.subrange(st as int, st + 2)[0] == s@[st as int]);
                        assert(s@.subrange(st as int, st + 2)[1] == s@[st + 1]);
                        assert(s@.subrange(e as int, e + 1)[0] == s@[e as int]);
                        assert(s@[st as int] == '<' && s@[st + 1] == 'p');
                        assert(s@[e as int] == '>');
                        assert(e != st && e != st + 1);
                        let mut next = slice(&s, 0, st);
                        let rest = slice(&s, e + 1, s.len());
                        push_all(&mut next, &rest);
                        assert(next@ =~= s@.take(st as int) + s@.skip(e + 1));
                        s = next;
                    },
                }
            },
        }
    }
    let empty: Vec<char> = Vec::new();
    assert(empty@ =~= Seq::<char>::empty());
    proof {
        reveal_strlit("</p>");
    }
    let r = replace_chars(&s, &str_to_chars("</p>"), &empty);
    chars_to_string(&r)
}

/// The `{% details %}` block.
pub struct DetailsBlock;

impl DetailsBlock {
    /// The summary: the tag's argument tokens joined by spaces.
    pub fn summary(&self, tokens: &Vec<Vec<char>>) -> (r: String)
        ensures
            r@ == joined(views(tokens@), seq![' ']),
    {
        let sp = vec![' '];
        assert(sp@ =~= seq![' ']);
        chars_to_string(&join_texts(tokens, &sp))
    }

    /// The `<details>` element around the converted summary and body.
    pub fn render(&self, summary_html: &str, body_html: &str) -> (r: String)
        ensures
            r@ == details_html(summary_html@, body_html@),
    {
        let mut out = str_to_chars("<details><summary>");
        push_all(&mut out, &str_to_chars(summary_html));
        push_all(&mut out, &str_to_chars("</summary>"));
        push_all(&mut out, &str_to_chars(body_html));
        push_all(&mut out, &str_to_chars("</details>"));
        chars_to_string(&out)
    }
}

// ---------------------------------------------------------------------------
// file_exists
// ---------------------------------------------------------------------------

/// `base` joined with the relative path `rel` as `PathBuf::push` joins them.
pub open spec fn path_joined(base: Seq<char>, rel: Seq<char>) -> Seq<char> {
    if base.len() == 0 || base.last() == '/' {
        base + rel
    } else {
        base + seq!['/'] + rel
    }
}

/// The file `{% file_exists path %}` looks for: the path without leading
/// slashes, under the site source when one is set; none for an empty path.
pub open spec fn file_exists_target(path: Seq<char>, source: Option<&str>) -> Option<Seq<char>> {
    if path.len() == 0 {
        None
    } else {
        let rel = without_leading_slashes(path);
        match setting(source) {
            Some(src) => Some(path_joined(src, rel)),
            None => Some(rel),
        }
    }
}

/// The `{% file_exists %}` tag.
pub struct FileExistsTag;

impl FileExistsTag {
    /// The path: the argument tokens joined by spaces, trimmed.
    pub fn path(&self, tokens: &Vec<Vec<char>>) -> (r: String)
        ensures
            r@ == trim(joined(views(tokens@), seq![' '])),
    {
        let sp = vec![' '];
        assert(sp@ =~= seq![' ']);
        chars_to_string(&trim_chars(&join_texts(tokens, &sp)))
    }

    /// The file to test for the path and the site source.
    pub fn target(&self, path: &str, source: Option<&str>) -> (r: Option<String>)
        ensures
            match r {
                Some(s) => file_exists_target(path@, source) == Some(s@),
                None => file_exists_target(path@, source) is None,
            },
    {
        if path.is_empty() {
            return None;
        }
        let rel = trim_leading_slashes(&str_to_chars(path));
        match setting_chars(source) {
            Some(src) => {
                let mut out = slice(&src, 0, src.len());
                assert(out@ =~= src@);
                if src.len() > 0 && src[src.len() - 1] != '/' {
                    out.push('/');
                }
                push_all(&mut out, &rel);
                Some(chars_to_string(&out))
            },
            None => Some(chars_to_string(&rel)),
        }
    }

    /// What the tag writes: `true` when the file exists, else `false`.
    pub fn render(&self, found: bool) -> (r: &'static str)
        ensures
            r@ == if found {
                "true"@
            } else {
                "false"@
            },
    {
        if found {
            "true"
        } else {
            "false"
        }
    }
}

} // verus!
