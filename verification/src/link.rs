//! `{% link path %}` and `{% post_url slug %}` tags resolved to URLs.
use vstd::prelude::*;
use crate::capture::{tag_unchanged, unchanged_tag};
use crate::outputs::{drop_leading, drop_leading_chars, drop_trailing, drop_trailing_chars};
use crate::spans::{every_span, lemma_rewrite_spans_keeps, rewrite_spans, rewrite_spans_exec, spans_admitted, SpanRule};
use crate::tagbody::{keyword_rest, keyword_rest_chars, strip_prefix, tag_core, tag_core_chars};
use crate::text::{
    byte_len, byte_len_exceeds, char_index_at, char_index_at_byte, chars_to_string, contains,
    ends_with, find, find_at, has_prefix, has_suffix, is_ws, lemma_find_from, lemma_replace_all_len,
    push_all, replace_all, replace_chars, rfind, rfind_chars, slice, starts_with, str_to_chars, trim,
    trim_chars, vec_eq, lemma_rfind_before, lemma_find_from_unique, occurs_at, lemma_trim_start_at, lemma_trim_end_at,
    find_from, trim_start, trim_end,
};

verus! {

/// How `{% link %}` tags are resolved: the site's page permalink style, the
/// URL suffix configured per collection, and the post permalink pattern.
pub struct LinkTagConfig {
    /// The site's `permalink` style (`"pretty"` gives trailing slashes).
    pub page_permalink_style: String,
    /// Per-collection URL suffix (`"/"` or `""`), by collection name.
    pub collection_suffixes: Option<Vec<(String, String)>>,
    /// The post permalink pattern (`:year`, `:month`, `:day`, `:title`, `:categories`).
    pub post_permalink_pattern: String,
}

/// The suffix of the first entry named `name`.
pub open spec fn suffix_lookup(entries: Seq<(String, String)>, name: Seq<char>) -> Option<Seq<char>>
    decreases entries.len(),
{
    if entries.len() == 0 {
        None
    } else if entries[0].0@ == name {
        Some(entries[0].1@)
    } else {
        suffix_lookup(entries.drop_first(), name)
    }
}

impl LinkTagConfig {
    /// URL suffix for root pages: `/` for the `pretty` style, else `.html`.
    pub open spec fn page_suffix(&self) -> Seq<char> {
        if self.page_permalink_style@ == "pretty"@ {
            "/"@
        } else {
            ".html"@
        }
    }

    /// The URL suffix configured for a collection.
    pub open spec fn collection_suffix(&self, name: Seq<char>) -> Option<Seq<char>> {
        match self.collection_suffixes {
            Some(v) => suffix_lookup(v@, name),
            None => None,
        }
    }

    /// No collection is named twice (the site's settings map each collection
    /// to one suffix).
    pub open spec fn well_formed(&self) -> bool {
        match self.collection_suffixes {
            Some(v) => forall|i: int, j: int| 0 <= i < j < v@.len() ==> (#[trigger] v@[i]).0@ != (#[trigger] v@[j]).0@,
            None => true,
        }
    }

    /// Whether no collection is named twice.
    #[verifier::loop_isolation(false)]
    pub fn collections_distinct(&self) -> (r: bool)
        ensures
            r == self.well_formed(),
    {
        match &self.collection_suffixes {
            None => true,
            Some(v) => {
                let mut j: usize = 1;
                while j < v.len()
                    invariant
                        1 <= j <= v.len() || v.len() == 0,
                        forall|a: int, b: int| 0 <= a < b < j && b < v@.len() ==> (#[trigger] v@[a]).0@ != (
                        #[trigger] v@[b]).0@,
                    decreases v.len() - j,
                {
                    let nj = str_to_chars(v[j].0.as_str());
                    let mut i: usize = 0;
                    while i < j
                        invariant
                            i <= j < v.len(),
                            nj@ == v@[j as int].0@,
                            forall|a: int| 0 <= a < i ==> (#[trigger] v@[a]).0@ != v@[j as int].0@,
                        decreases j - i,
                    {
                        if vec_eq(&str_to_chars(v[i].0.as_str()), &nj) {
                            assert(v@[i as int].0@ == v@[j as int].0@);
                            assert(!self.well_formed()) by {
                                assert(self.collection_suffixes == Some(*v));
                                assert(0 <= i < j < v@.len() && v@[i as int].0@ == v@[j as int].0@);
                            }
                            return false;
                        }
                        i += 1;
                    }
                    j += 1;
                }
                true
            },
        }
    }

    /// Whether this is the default configuration.
    pub open spec fn is_default(&self) -> bool {
        &&& self.page_permalink_style@ == Seq::<char>::empty()
        &&& self.collection_suffixes is None
        &&& self.post_permalink_pattern@ == "/:categories/:year/:month/:day/:title.html"@
    }

    /// The link behaviour of the default configuration.
    pub open spec fn default_spec() -> Self {
        choose|c: LinkTagConfig| c.is_default()
    }

    /// Any default configuration resolves tags as `default_spec` does.
    pub proof fn lemma_default_spec(c: Self, t: Seq<char>)
        requires
            c.is_default(),
        ensures
            rewrite_spans(JekyllTagRule { cfg: &c }, t, 0, "{%"@, "%}"@) == rewrite_spans(
                JekyllTagRule { cfg: &Self::default_spec() },
                t,
                0,
                "{%"@,
                "%}"@,
            ),
            spans_admitted(JekyllTagRule { cfg: &c }, t, 0, "{%"@, "%}"@) == spans_admitted(
                JekyllTagRule { cfg: &Self::default_spec() },
                t,
                0,
                "{%"@,
                "%}"@,
            ),
    {
        let d = Self::default_spec();
        assert(d.is_default());
        assert forall|x: Seq<char>| #[trigger] jekyll_tag_replacement(c, x) == jekyll_tag_replacement(d, x) by {
        }
        crate::spans::lemma_rewrite_spans_ext(JekyllTagRule { cfg: &c }, JekyllTagRule { cfg: &d }, t, 0, "{%"@, "%}"@);
    }

    /// The default configuration: no page style, no collection suffixes,
    /// and the `date` post pattern `/:categories/:year/:month/:day/:title.html`.
    pub fn new_default() -> (c: Self)
        ensures
            c.page_permalink_style@ == Seq::<char>::empty(),
            c.collection_suffixes is None,
            c.post_permalink_pattern@ == "/:categories/:year/:month/:day/:title.html"@,
    {
        LinkTagConfig {
            page_permalink_style: String::new(),
            collection_suffixes: None,
            post_permalink_pattern: String::from_str("/:categories/:year/:month/:day/:title.html"),
        }
    }

    /// URL suffix for root pages.
    pub fn link_tag_suffix(&self) -> (r: Vec<char>)
        ensures
            r@ == self.page_suffix(),
    {
        if vec_eq(&str_to_chars(self.page_permalink_style.as_str()), &str_to_chars("pretty")) {
            str_to_chars("/")
        } else {
            str_to_chars(".html")
        }
    }

    /// URL suffix configured for a collection.
    pub fn collection_link_suffix(&self, name: &Vec<char>) -> (r: Option<Vec<char>>)
        ensures
            match r {
                Some(v) => self.collection_suffix(name@) == Some(v@),
                None => self.collection_suffix(name@) is None,
            },
    {
        match &self.collection_suffixes {
            None => None,
            Some(v) => {
                let mut i: usize = 0;
                assert(v@.skip(0) =~= v@);
                while i < v.len()
                    invariant
                        i <= v.len(),
                        suffix_lookup(v@, name@) == suffix_lookup(v@.skip(i as int), name@),
                        self.collection_suffix(name@) == suffix_lookup(v@, name@),
                    decreases v.len() - i,
                {
                    assert(v@.skip(i as int).drop_first() =~= v@.skip(i + 1));
                    assert(v@.skip(i as int)[0] == v@[i as int]);
                    if vec_eq(&str_to_chars(v[i].0.as_str()), name) {
                        assert(v@[i as int].0@ == name@);
                        assert(suffix_lookup(v@.skip(i as int), name@) == Some(v@[i as int].1@));
                        return Some(str_to_chars(v[i].1.as_str()));
                    }
                    i += 1;
                }
                None
            },
        }
    }
}

impl Default for LinkTagConfig {
    fn default() -> (c: Self)
        ensures
            c.page_permalink_style@ == Seq::<char>::empty(),
            c.collection_suffixes is None,
            c.post_permalink_pattern@ == "/:categories/:year/:month/:day/:title.html"@,
    {
        Self::new_default()
    }
}

/// `s` with the literal `p` removed from its end, when it ends with it.
pub open spec fn strip_suffix(s: Seq<char>, p: Seq<char>) -> Option<Seq<char>> {
    if ends_with(s, p) {
        Some(s.take(s.len() - p.len()))
    } else {
        None
    }
}

/// `s` with repeated `//` collapsed until none is left.
pub open spec fn collapse_slashes(s: Seq<char>) -> Seq<char>
    decreases s.len(),
{
    if contains(s, "//"@) {
        let r = replace_all(s, "//"@, "/"@);
        if r.len() < s.len() {
            collapse_slashes(r)
        } else {
            s
        }
    } else {
        s
    }
}

/// Collapsing leaves no `//`.
pub proof fn lemma_collapse_slashes_done(s: Seq<char>)
    ensures
        !contains(collapse_slashes(s), "//"@),
    decreases s.len(),
{
    if contains(s, "//"@) {
        reveal_strlit("//");
        reveal_strlit("/");
        lemma_replace_all_len(s, "//"@, "/"@);
        lemma_collapse_slashes_done(replace_all(s, "//"@, "/"@));
    }
}

/// The URL of a dated post never holds `//`.
pub proof fn lemma_post_url_single_slashes(post: Seq<char>, pattern: Seq<char>)
    requires
        post_stem_dated(post_stem(post)),
    ensures
        !contains(resolve_post_url(post, pattern), "//"@),
{
    let stem = post_stem(post);
    let y = stem.take(at_byte(stem, 4));
    let m = stem.subrange(at_byte(stem, 5), at_byte(stem, 7));
    let d = stem.subrange(at_byte(stem, 8), at_byte(stem, 10));
    let t = stem.skip(at_byte(stem, 11));
    let url = replace_all(
        replace_all(
            replace_all(replace_all(replace_all(pattern, ":year"@, y), ":month"@, m), ":day"@, d),
            ":title"@,
            t,
        ),
        ":categories"@,
        Seq::empty(),
    );
    lemma_collapse_slashes_done(replace_all(url, "//"@, "/"@));
}

/// The character index at byte offset `b` (`0` when `b` is no boundary).
pub open spec fn at_byte(s: Seq<char>, b: int) -> int {
    match char_index_at(s, b) {
        Some(k) => k,
        None => 0,
    }
}

/// A post file stem shaped `YYYY-MM-DD-title` by bytes: longer than 10 bytes,
/// with `-` at bytes 4 and 7.
pub open spec fn post_stem_dated(stem: Seq<char>) -> bool {
    &&& byte_len(stem) > 10
    &&& char_index_at(stem, 4) matches Some(k) && k < stem.len() && stem[k] == '-'
    &&& char_index_at(stem, 7) matches Some(j) && j < stem.len() && stem[j] == '-'
}

/// The stem of a post file name: without `.md`, else without `.html`.
pub open spec fn post_stem(post: Seq<char>) -> Seq<char> {
    match strip_suffix(post, ".md"@) {
        Some(x) => x,
        None => match strip_suffix(post, ".html"@) {
            Some(x) => x,
            None => post,
        },
    }
}

/// The URL of `_posts/<post>`: a dated stem fills the permalink pattern's
/// `:year`, `:month`, `:day`, `:title` (bytes 0-4, 5-7, 8-10 and 11-) and
/// drops `:categories`, then double slashes are collapsed; any other stem
/// gives `/posts/<stem>`.
pub open spec fn resolve_post_url(post: Seq<char>, pattern: Seq<char>) -> Seq<char> {
    let stem = post_stem(post);
    if post_stem_dated(stem) {
        let y = stem.take(at_byte(stem, 4));
        let m = stem.subrange(at_byte(stem, 5), at_byte(stem, 7));
        let d = stem.subrange(at_byte(stem, 8), at_byte(stem, 10));
        let t = stem.skip(at_byte(stem, 11));
        let url = replace_all(
            replace_all(
                replace_all(replace_all(replace_all(pattern, ":year"@, y), ":month"@, m), ":day"@, d),
                ":title"@,
                t,
            ),
            ":categories"@,
            Seq::empty(),
        );
        collapse_slashes(replace_all(url, "//"@, "/"@))
    } else {
        "/posts/"@ + stem
    }
}

/// Slicing a dated post stem at bytes 10 and 11 does not split a character.
pub open spec fn post_url_path_safe(post: Seq<char>) -> bool {
    let stem = post_stem(post);
    post_stem_dated(stem) ==> char_index_at(stem, 10) is Some && char_index_at(stem, 11) is Some
}

/// A `post_url` slug shaped `YYYY-MM-DD-title`: longer than 10 bytes, with
/// `-` as its 5th and 8th characters.
pub open spec fn slug_dated(slug: Seq<char>) -> bool {
    byte_len(slug) > 10 && slug.len() > 7 && slug[4] == '-' && slug[7] == '-'
}

/// Slicing a dated slug at bytes 4, 5, 7, 8, 10 and 11 does not split a character.
pub open spec fn slug_safe(slug: Seq<char>) -> bool {
    slug_dated(slug) ==> {
        &&& char_index_at(slug, 4) is Some
        &&& char_index_at(slug, 5) is Some
        &&& char_index_at(slug, 7) is Some
        &&& char_index_at(slug, 8) is Some
        &&& char_index_at(slug, 10) is Some
        &&& char_index_at(slug, 11) is Some
    }
}

/// The URL of `{% post_url slug %}`: `/YYYY/MM/DD/title/` for a dated slug
/// (byte ranges 0-4, 5-7, 8-10, 11-), else `/slug`.
pub open spec fn post_url_of(slug: Seq<char>) -> Seq<char> {
    if slug_dated(slug) {
        "/"@ + slug.take(at_byte(slug, 4)) + "/"@ + slug.subrange(at_byte(slug, 5), at_byte(slug, 7))
            + "/"@ + slug.subrange(at_byte(slug, 8), at_byte(slug, 10)) + "/"@ + slug.skip(
            at_byte(slug, 11),
        ) + "/"@
    } else {
        "/"@ + slug
    }
}

/// The text before the first `c` (all of `s` when there is none).
pub open spec fn before_first(s: Seq<char>, c: char) -> Seq<char> {
    match find(s, seq![c]) {
        Some(i) => s.take(i),
        None => s,
    }
}

/// The text after the last `c` (all of `s` when there is none).
pub open spec fn after_last(s: Seq<char>, c: char) -> Seq<char> {
    match rfind(s, seq![c]) {
        Some(i) => s.skip(i + 1),
        None => s,
    }
}

/// The URL of a collection document's stem: an `index` document gives its
/// directory; others get the collection's suffix.
pub open spec fn collection_doc_url(stem: Seq<char>, suffix: Option<Seq<char>>) -> Seq<char> {
    if after_last(stem, '/') == "index"@ {
        "/"@ + stem.take(stem.len() - 5)
    } else {
        "/"@ + stem + match suffix {
            Some(x) => x,
            None => Seq::empty(),
        }
    }
}

/// The URL for `{% link path %}` (quotes trimmed off the path).
pub open spec fn link_url(cfg: LinkTagConfig, path: Seq<char>) -> Seq<char> {
    match strip_prefix(path, "_posts/"@) {
        Some(post) => resolve_post_url(post, cfg.post_permalink_pattern@),
        None => {
            let is_collection = path.len() > 0 && path[0] == '_';
            let url_path = if is_collection { path.drop_first() } else { path };
            let suffix = if is_collection {
                cfg.collection_suffix(before_first(url_path, '/'))
            } else {
                None
            };
            match strip_suffix(url_path, ".md"@) {
                Some(stem) => if is_collection {
                    collection_doc_url(stem, suffix)
                } else {
                    "/"@ + stem + cfg.page_suffix()
                },
                None => match strip_suffix(url_path, ".html"@) {
                    Some(stem) => if is_collection {
                        collection_doc_url(stem, suffix)
                    } else if cfg.page_suffix() == "/"@ {
                        "/"@ + stem + "/"@
                    } else {
                        "/"@ + url_path
                    },
                    None => "/"@ + url_path,
                },
            }
        },
    }
}

/// `{% link _c/rest.md %}` for a collection `c` other than `posts`: the URL
/// is `/c/rest` followed by the suffix configured for `c` (none when it has
/// none), whatever the page permalink style, unless the document is an
/// `index` page. `_pages/banners.md` gives `/pages/banners` even under
/// `pretty`.
pub proof fn lemma_collection_link_url(cfg: LinkTagConfig, c: Seq<char>, rest: Seq<char>)
    requires
        c.len() > 0,
        !c.contains('/'),
        c != "posts"@,
        rest.len() > 0,
        after_last(c + "/"@ + rest, '/') != "index"@,
    ensures
        link_url(cfg, "_"@ + c + "/"@ + rest + ".md"@) == "/"@ + c + "/"@ + rest + match cfg.collection_suffix(c) {
            Some(x) => x,
            None => Seq::empty(),
        },
{
    reveal_strlit("_");
    reveal_strlit("/");
    reveal_strlit(".md");
    reveal_strlit("_posts/");
    reveal_strlit("posts");
    let path = "_"@ + c + "/"@ + rest + ".md"@;
    let url_path = path.drop_first();
    let stem = c + "/"@ + rest;
    assert(url_path =~= stem + ".md"@);
    // not a post
    if starts_with(path, "_posts/"@) {
        let pp = "_posts/"@;
        assert(path.take(7) == pp);
        let cl1 = c.len() as int + 1;
        if c.len() < 5 {
            assert(path[cl1] == '/');
            assert(pp[cl1] != '/');
            assert(path.take(7)[cl1] == path[cl1]);
        } else if c.len() == 5 {
            assert forall|i: int| 0 <= i < 5 implies c[i] == "posts"@[i] by {
                assert(path.take(7)[i + 1] == path[i + 1]);
                assert(path[i + 1] == c[i]);
            }
            assert(c =~= "posts"@);
        } else {
            assert(path.take(7)[6] == path[6]);
            assert(path[6] == c[5]);
            assert(c.contains(c[5]));
        }
    }
    assert(strip_prefix(path, "_posts/"@) is None);
    // the collection name is the text before the first '/'
    let sl = seq!['/'];
    let cl = c.len() as int;
    assert(occurs_at(url_path, sl, c.len() as int)) by {
        assert(url_path.subrange(cl, cl + 1) =~= sl);
    }
    assert forall|j: int| 0 <= j < c.len() implies !#[trigger] occurs_at(url_path, sl, j) by {
        if occurs_at(url_path, sl, j) {
            assert(url_path.subrange(j, j + 1)[0] == url_path[j]);
            assert(url_path[j] == c[j]);
            assert(c.contains(c[j]));
        }
    }
    lemma_find_from_unique(url_path, sl, 0, c.len() as int);
    assert(before_first(url_path, '/') =~= c);
    // the extension comes off
    assert(url_path.skip(url_path.len() - 3) =~= ".md"@);
    assert(strip_suffix(url_path, ".md"@) == Some(stem)) by {
        assert(url_path.take(url_path.len() - 3) =~= stem);
    }
}

/// The path argument of a link tag: trimmed, then `"` and `'` quotes removed
/// from both ends.
pub open spec fn link_path(rest: Seq<char>) -> Seq<char> {
    drop_trailing(drop_leading(drop_trailing(drop_leading(trim(rest), '"'), '"'), '\''), '\'')
}

/// What a tag becomes: `link` tags become their URL, `post_url` tags their
/// post URL; other tags (`gist` included) stay as written.
pub open spec fn jekyll_tag_replacement(cfg: LinkTagConfig, inner: Seq<char>) -> Seq<char> {
    let t = tag_core(inner);
    match keyword_rest(t, "link"@) {
        Some(rest) => link_url(cfg, link_path(rest)),
        None => match keyword_rest(t, "post_url"@) {
            Some(rest) => post_url_of(trim(rest)),
            None => tag_unchanged(inner),
        },
    }
}

/// A tag's URL resolution never slices inside a character.
pub open spec fn jekyll_tag_safe(inner: Seq<char>) -> bool {
    let t = tag_core(inner);
    match keyword_rest(t, "link"@) {
        Some(rest) => match strip_prefix(link_path(rest), "_posts/"@) {
            Some(post) => post_url_path_safe(post),
            None => true,
        },
        None => match keyword_rest(t, "post_url"@) {
            Some(rest) => slug_safe(trim(rest)),
            None => true,
        },
    }
}

/// `s` without the literal suffix `p`, when it ends with it.
pub fn strip_suffix_chars(s: &Vec<char>, p: &Vec<char>) -> (r: Option<Vec<char>>)
    ensures
        match r {
            Some(v) => strip_suffix(s@, p@) == Some(v@),
            None => strip_suffix(s@, p@) is None,
        },
{
    if has_suffix(s, p) {
        Some(slice(s, 0, s.len() - p.len()))
    } else {
        None
    }
}

/// `s` without the literal prefix `p`, when it starts with it.
pub fn strip_prefix_chars(s: &Vec<char>, p: &Vec<char>) -> (r: Option<Vec<char>>)
    ensures
        match r {
            Some(v) => strip_prefix(s@, p@) == Some(v@),
            None => strip_prefix(s@, p@) is None,
        },
{
    if has_prefix(s, p) {
        let v = slice(s, p.len(), s.len());
        assert(v@ =~= s@.skip(p@.len() as int));
        Some(v)
    } else {
        None
    }
}

/// Collapses `//` until none is left.
fn collapse_slashes_exec(s: Vec<char>) -> (r: Vec<char>)
    ensures
        r@ == collapse_slashes(s@),
{
    let dbl = str_to_chars("//");
    let one = str_to_chars("/");
    proof {
        reveal_strlit("//");
        reveal_strlit("/");
    }
    let mut cur = s;
    while find_at(&cur, &dbl, 0).is_some()
        invariant
            dbl@ == "//"@,
            one@ == "/"@,
            dbl@.len() == 2,
            one@.len() == 1,
            collapse_slashes(s@) == collapse_slashes(cur@),
        decreases cur@.len(),
    {
        proof { lemma_replace_all_len(cur@, dbl@, one@); }
        cur = replace_chars(&cur, &dbl, &one);
    }
    cur
}

/// Resolves `{% link _posts/<post> %}` with the post permalink pattern.
pub fn resolve_link_post_url(post_filename: &Vec<char>, pattern: &Vec<char>) -> (r: Vec<char>)
    requires
        post_url_path_safe(post_filename@),
    ensures
        r@ == resolve_post_url(post_filename@, pattern@),
{
    let stem = match strip_suffix_chars(post_filename, &str_to_chars(".md")) {
        Some(x) => x,
        None => match strip_suffix_chars(post_filename, &str_to_chars(".html")) {
            Some(x) => x,
            None => post_filename.clone(),
        },
    };
    let i4 = char_index_at_byte(&stem, 4);
    let i7 = char_index_at_byte(&stem, 7);
    let dated = byte_len_exceeds(&stem, 10) && match i4 {
        Some(k) => k < stem.len() && stem[k] == '-',
        None => false,
    } && match i7 {
        Some(j) => j < stem.len() && stem[j] == '-',
        None => false,
    };
    if dated {
        let k4 = i4.unwrap();
        let k7 = i7.unwrap();
        let k10 = char_index_at_byte(&stem, 10).unwrap();
        let k11 = char_index_at_byte(&stem, 11).unwrap();
        proof {
            lemma_char_index_bounds(stem@, 4);
            lemma_char_index_bounds(stem@, 7);
            lemma_char_index_bounds(stem@, 10);
            lemma_char_index_bounds(stem@, 11);
            lemma_byte_offset_order(stem@, k4 as int, k7 as int);
            crate::text::lemma_byte_offset_step(stem@, k4 as int);
            crate::text::lemma_byte_offset_step(stem@, k7 as int);
            lemma_char_index_unique(stem@, 5, k4 as int + 1);
            lemma_char_index_unique(stem@, 8, k7 as int + 1);
            lemma_byte_offset_order(stem@, k4 as int + 1, k7 as int);
            lemma_byte_offset_order(stem@, k7 as int + 1, k10 as int);
            lemma_byte_offset_order(stem@, k10 as int, k11 as int);
        }
        let k5 = k4 + 1;
        let k8 = k7 + 1;
        let y = slice(&stem, 0, k4);
        assert(y@ =~= stem@.take(k4 as int));
        let m = slice(&stem, k5, k7);
        let d = slice(&stem, k8, k10);
        let t = slice(&stem, k11, stem.len());
        assert(t@ =~= stem@.skip(k11 as int));
        proof {
            reveal_strlit(":year");
            reveal_strlit(":month");
            reveal_strlit(":day");
            reveal_strlit(":title");
            reveal_strlit(":categories");
        }
        let u1 = replace_chars(pattern, &str_to_chars(":year"), &y);
        let u2 = replace_chars(&u1, &str_to_chars(":month"), &m);
        let u3 = replace_chars(&u2, &str_to_chars(":day"), &d);
        let u4 = replace_chars(&u3, &str_to_chars(":title"), &t);
        let url = replace_chars(&u4, &str_to_chars(":categories"), &Vec::new());
        proof {
            reveal_strlit("//");
        }
        let cleaned = replace_chars(&url, &str_to_chars("//"), &str_to_chars("/"));
        collapse_slashes_exec(cleaned)
    } else {
        let mut out = str_to_chars("/posts/");
        push_all(&mut out, &stem);
        out
    }
}

/// The URL of `{% post_url slug %}`.
pub fn post_url_for_slug(slug: &Vec<char>) -> (r: Vec<char>)
    requires
        slug_safe(slug@),
    ensures
        r@ == post_url_of(slug@),
{
    if byte_len_exceeds(slug, 10) && slug.len() > 7 && slug[4] == '-' && slug[7] == '-' {
        let k4 = char_index_at_byte(slug, 4).unwrap();
        let k5 = char_index_at_byte(slug, 5).unwrap();
        let k7 = char_index_at_byte(slug, 7).unwrap();
        let k8 = char_index_at_byte(slug, 8).unwrap();
        let k10 = char_index_at_byte(slug, 10).unwrap();
        let k11 = char_index_at_byte(slug, 11).unwrap();
        proof {
            lemma_char_index_bounds(slug@, 4);
            lemma_char_index_bounds(slug@, 5);
            lemma_char_index_bounds(slug@, 7);
            lemma_char_index_bounds(slug@, 8);
            lemma_char_index_bounds(slug@, 10);
            lemma_char_index_bounds(slug@, 11);
            lemma_byte_offset_order(slug@, k5 as int, k7 as int);
            lemma_byte_offset_order(slug@, k8 as int, k10 as int);
        }
        let mut out = str_to_chars("/");
        let y = slice(slug, 0, k4);
        assert(y@ =~= slug@.take(k4 as int));
        push_all(&mut out, &y);
        push_all(&mut out, &str_to_chars("/"));
        push_all(&mut out, &slice(slug, k5, k7));
        push_all(&mut out, &str_to_chars("/"));
        push_all(&mut out, &slice(slug, k8, k10));
        push_all(&mut out, &str_to_chars("/"));
        let t = slice(slug, k11, slug.len());
        assert(t@ =~= slug@.skip(k11 as int));
        push_all(&mut out, &t);
        push_all(&mut out, &str_to_chars("/"));
        out
    } else {
        let mut out = str_to_chars("/");
        push_all(&mut out, slug);
        out
    }
}

fn before_first_chars(s: &Vec<char>, c: char) -> (r: Vec<char>)
    ensures
        r@ == before_first(s@, c),
{
    let mut p: Vec<char> = Vec::new();
    p.push(c);
    assert(p@ =~= seq![c]);
    match find_at(s, &p, 0) {
        Some(i) => {
            proof { lemma_find_from(s@, p@, 0); }
            let r = slice(s, 0, i);
            assert(r@ =~= s@.take(i as int));
            r
        },
        None => s.clone(),
    }
}

fn after_last_chars(s: &Vec<char>, c: char) -> (r: Vec<char>)
    ensures
        r@ == after_last(s@, c),
        r@.len() <= s@.len(),
{
    let mut p: Vec<char> = Vec::new();
    p.push(c);
    assert(p@ =~= seq![c]);
    match rfind_chars(s, &p) {
        Some(i) => {
            proof {
                lemma_rfind_before(s@, p@, s@.len() as int + 1);
                assert(crate::text::occurs_at(s@, p@, i as int));
                assert(i + 1 <= s@.len());
                assert(s@.len() == s.len());
            }
            let r = slice(s, i + 1, s.len());
            assert(r@ =~= s@.skip(i + 1));
            r
        },
        None => s.clone(),
    }
}

fn collection_doc_url_exec(stem: &Vec<char>, suffix: &Option<Vec<char>>) -> (r: Vec<char>)
    ensures
        r@ == collection_doc_url(
            stem@,
            match suffix {
                Some(x) => Some(x@),
                None => None,
            },
        ),
{
    let base = after_last_chars(stem, '/');
    let index_kw = str_to_chars("index");
    proof { reveal_strlit("index"); }
    if vec_eq(&base, &index_kw) {
        let mut out = str_to_chars("/");
        let d = slice(stem, 0, stem.len() - 5);
        assert(d@ =~= stem@.take(stem@.len() - 5));
        push_all(&mut out, &d);
        out
    } else {
        let mut out = str_to_chars("/");
        push_all(&mut out, stem);
        match suffix {
            Some(x) => push_all(&mut out, x),
            None => {
                assert(out@ + Seq::<char>::empty() =~= out@);
            },
        }
        out
    }
}

/// The URL for `{% link path %}`.
pub fn link_url_exec(cfg: &LinkTagConfig, path: &Vec<char>) -> (r: Vec<char>)
    requires
        strip_prefix(path@, "_posts/"@) matches Some(post) ==> post_url_path_safe(post),
    ensures
        r@ == link_url(*cfg, path@),
{
    match strip_prefix_chars(path, &str_to_chars("_posts/")) {
        Some(post) => {
            let pat = str_to_chars(cfg.post_permalink_pattern.as_str());
            resolve_link_post_url(&post, &pat)
        },
        None => {
            let is_collection = path.len() > 0 && path[0] == '_';
            let url_path = if is_collection {
                let d = slice(path, 1, path.len());
                assert(d@ =~= path@.drop_first());
                d
            } else {
                path.clone()
            };
            let suffix = if is_collection {
                cfg.collection_link_suffix(&before_first_chars(&url_path, '/'))
            } else {
                None
            };
            match strip_suffix_chars(&url_path, &str_to_chars(".md")) {
                Some(stem) => {
                    if is_collection {
                        collection_doc_url_exec(&stem, &suffix)
                    } else {
                        let mut out = str_to_chars("/");
                        push_all(&mut out, &stem);
                        push_all(&mut out, &cfg.link_tag_suffix());
                        out
                    }
                },
                None => match strip_suffix_chars(&url_path, &str_to_chars(".html")) {
                    Some(stem) => {
                        if is_collection {
                            collection_doc_url_exec(&stem, &suffix)
                        } else if vec_eq(&cfg.link_tag_suffix(), &str_to_chars("/")) {
                            let mut out = str_to_chars("/");
                            push_all(&mut out, &stem);
                            push_all(&mut out, &str_to_chars("/"));
                            out
                        } else {
                            let mut out = str_to_chars("/");
                            push_all(&mut out, &url_path);
                            out
                        }
                    },
                    None => {
                        let mut out = str_to_chars("/");
                        push_all(&mut out, &url_path);
                        out
                    },
                },
            }
        },
    }
}

fn link_path_exec(rest: &Vec<char>) -> (r: Vec<char>)
    ensures
        r@ == link_path(rest@),
{
    let t = trim_chars(rest);
    let a = drop_leading_chars(&t, '"');
    let b = drop_trailing_chars(&a, '"');
    let c = drop_leading_chars(&b, '\'');
    drop_trailing_chars(&c, '\'')
}

/// The rule resolving `link` and `post_url` tags.
pub struct JekyllTagRule<'a> {
    /// The link configuration.
    pub cfg: &'a LinkTagConfig,
}

impl<'a> SpanRule for JekyllTagRule<'a> {
    open spec fn replaced(&self, inner: Seq<char>) -> Seq<char> {
        jekyll_tag_replacement(*self.cfg, inner)
    }

    open spec fn admits(&self, inner: Seq<char>) -> bool {
        jekyll_tag_safe(inner)
    }

    fn replace(&self, inner: &Vec<char>) -> (r: Vec<char>) {
        let t = tag_core_chars(inner);
        match keyword_rest_chars(&t, &str_to_chars("link")) {
            Some(rest) => {
                let path = link_path_exec(&rest);
                link_url_exec(self.cfg, &path)
            },
            None => match keyword_rest_chars(&t, &str_to_chars("post_url")) {
                Some(rest) => {
                    let slug = trim_chars(&rest);
                        post_url_for_slug(&slug)
                },
                None => unchanged_tag(inner),
            },
        }
    }
}

/// The template with `link` and `post_url` tags resolved with `cfg`.
pub open spec fn jekyll_tags_rewritten(cfg: LinkTagConfig, t: Seq<char>) -> Seq<char> {
    rewrite_spans(JekyllTagRule { cfg: &cfg }, t, 0, "{%"@, "%}"@)
}

/// A tag that names `link` or `post_url` (after trimming and dashes).
pub open spec fn is_link_tag(inner: Seq<char>) -> bool {
    keyword_rest(tag_core(inner), "link"@) is Some || keyword_rest(tag_core(inner), "post_url"@) is Some
}

/// A template with no `link` or `post_url` tag comes out of the link pass as
/// it went in, whatever the configuration.
pub proof fn lemma_jekyll_tags_keep_other_templates(cfg: LinkTagConfig, t: Seq<char>)
    requires
        every_span(|x: Seq<char>| !is_link_tag(x), t, 0, "{%"@, "%}"@),
    ensures
        jekyll_tags_rewritten(cfg, t) == t,
{
    let p = |x: Seq<char>| !is_link_tag(x);
    let rule = JekyllTagRule { cfg: &cfg };
    assert forall|x: Seq<char>| #[trigger] p(x) implies rule.replaced(x) == "{%"@ + x + "%}"@ by {
        assert(tag_unchanged(x) == "{%"@ + x + "%}"@);
    }
    lemma_rewrite_spans_keeps(rule, p, t, 0, "{%"@, "%}"@);
    assert(t.skip(0) =~= t);
}

/// A text with non-blank ends is its own trim.
proof fn lemma_trim_fixed(s: Seq<char>)
    requires
        s.len() > 0,
        !is_ws(s[0]),
        !is_ws(s.last()),
    ensures
        trim(s) == s,
{
    lemma_trim_start_at(s, 0);
    assert(s.skip(0) =~= s);
    lemma_trim_end_at(s, s.len() as int);
    assert(s.take(s.len() as int) =~= s);
}

/// A template that is one `{% link p %}` tag becomes the URL of `p`, for a
/// path without blank or quoted ends, not ending in `-`, and without `%}`.
#[verifier::rlimit(80)]
pub proof fn lemma_link_tag(cfg: LinkTagConfig, p: Seq<char>)
    requires
        p.len() > 0,
        !is_ws(p[0]),
        !is_ws(p.last()),
        p.last() != '-',
        p[0] != '"' && p[0] != '\'',
        p.last() != '"' && p.last() != '\'',
        !contains(p, "%}"@),
    ensures
        jekyll_tags_rewritten(cfg, "{% link "@ + p + " %}"@) == link_url(cfg, p),
{
    reveal_strlit("{% link ");
    reveal_strlit(" %}");
    reveal_strlit("{%");
    reveal_strlit("%}");
    reveal_strlit("link");
    reveal_strlit(" link ");
    reveal_strlit("link ");
    reveal_strlit(" ");
    let open = "{%"@;
    let close = "%}"@;
    let t = "{% link "@ + p + " %}"@;
    let l = t.len() as int;
    let rule = JekyllTagRule { cfg: &cfg };
    // the tag opens at 0
    assert(t.subrange(0, 2) =~= open);
    lemma_find_from_unique(t, open, 0, 0);
    // and closes at its end
    lemma_find_from(p, close, 0);
    assert(t.subrange(l - 2, l) =~= close);
    assert forall|j: int| 2 <= j < l - 2 implies !#[trigger] occurs_at(t, close, j) by {
        if occurs_at(t, close, j) {
            assert(t.subrange(j, j + 2)[0] == t[j]);
            assert(t.subrange(j, j + 2)[1] == t[j + 1]);
            if j < 8 {
                assert(t[j] != '%');
            } else if j < 8 + p.len() - 1 {
                assert(t[j] == p[j - 8] && t[j + 1] == p[j - 7]);
                assert(p.subrange(j - 8, j - 6) =~= close);
                assert(occurs_at(p, close, j - 8));
            } else if j == 8 + p.len() - 1 {
                assert(t[j + 1] == ' ');
            } else {
                assert(t[j] == ' ');
            }
        }
    }
    lemma_find_from_unique(t, close, 2, l - 2);
    // the tag's core is `link p`
    let inner = t.subrange(2, l - 2);
    assert(inner =~= " link "@ + p + " "@);
    let t0 = inner.skip(1);
    lemma_trim_start_at(inner, 1);
    assert(t0 =~= "link "@ + p + " "@);
    let core = "link "@ + p;
    assert(t0[t0.len() - 2] == p.last());
    lemma_trim_end_at(t0, t0.len() - 1);
    assert(t0.take(t0.len() - 1) =~= core);
    assert(trim(inner) == core);
    assert(core[0] == 'l');
    assert(core.last() == p.last());
    lemma_trim_fixed(core);
    assert(tag_core(inner) == core);
    // the path is `p`
    assert(core.take(4) =~= "link"@);
    assert(keyword_rest(core, "link"@) == Some(core.skip(4)));
    let rest = core.skip(4);
    assert(rest =~= " "@ + p);
    lemma_trim_start_at(rest, 1);
    assert(rest.skip(1) =~= p);
    lemma_trim_fixed(p);
    assert(trim(rest) == p);
    assert(link_path(rest) == p);
    assert(rule.replaced(inner) == link_url(cfg, p));
    assert(t.subrange(0, 0) =~= Seq::<char>::empty());
    assert(t.skip(l) =~= Seq::<char>::empty());
    assert(rewrite_spans(rule, t, l, open, close) == t.skip(l));
    assert(Seq::<char>::empty() + link_url(cfg, p) + Seq::<char>::empty() =~= link_url(cfg, p));
}

/// `{% link _c/rest.md %}` for a collection `c` other than `posts` becomes
/// `/c/rest` followed by the suffix configured for `c`, whatever the page
/// permalink style, unless the document is an `index` page.
pub proof fn lemma_collection_link_tag(cfg: LinkTagConfig, c: Seq<char>, rest: Seq<char>)
    requires
        c.len() > 0,
        !c.contains('/'),
        c != "posts"@,
        rest.len() > 0,
        after_last(c + "/"@ + rest, '/') != "index"@,
        !contains("_"@ + c + "/"@ + rest + ".md"@, "%}"@),
    ensures
        jekyll_tags_rewritten(cfg, "{% link "@ + ("_"@ + c + "/"@ + rest + ".md"@) + " %}"@) == "/"@ + c + "/"@ + rest
            + match cfg.collection_suffix(c) {
            Some(x) => x,
            None => Seq::empty(),
        },
{
    reveal_strlit("_");
    reveal_strlit(".md");
    let p = "_"@ + c + "/"@ + rest + ".md"@;
    assert(p[0] == '_');
    assert(p.last() == 'd');
    lemma_link_tag(cfg, p);
    lemma_collection_link_url(cfg, c, rest);
}

/// Replaces `{% link path %}` and `{% post_url slug %}` tags by the URLs
/// they denote under `link_config`; other tags are kept.
pub fn preprocess_jekyll_tags_with_config(template: &str, link_config: &LinkTagConfig) -> (r: String)
    requires
        link_config.well_formed(),
        spans_admitted(JekyllTagRule { cfg: link_config }, template@, 0, "{%"@, "%}"@),
    ensures
        r@ == jekyll_tags_rewritten(*link_config, template@),
{
    let s = str_to_chars(template);
    let open = str_to_chars("{%");
    proof { reveal_strlit("{%"); }
    let rule = JekyllTagRule { cfg: link_config };
    let out = rewrite_spans_exec(&rule, &s, &open, &str_to_chars("%}"));
    chars_to_string(&out)
}

/// Resolves `link` and `post_url` tags with the default configuration
/// (`LinkTagConfig::default()`).
pub fn preprocess_jekyll_tags(template: &str) -> (r: String)
    requires
        spans_admitted(
            JekyllTagRule { cfg: &LinkTagConfig::default_spec() },
            template@,
            0,
            "{%"@,
            "%}"@,
        ),
    ensures
        r@ == jekyll_tags_rewritten(LinkTagConfig::default_spec(), template@),
{
    let cfg = LinkTagConfig::new_default();
    proof { LinkTagConfig::lemma_default_spec(cfg, template@); }
    preprocess_jekyll_tags_with_config(template, &cfg)
}

/// A character index found at a byte offset is in bounds and has that offset.
pub proof fn lemma_char_index_bounds(s: Seq<char>, b: int)
    ensures
        char_index_at(s, b) matches Some(k) ==> 0 <= k <= s.len() && crate::text::byte_offset(s, k) == b,
{
    lemma_char_index_from_bounds(s, b, 0);
}

proof fn lemma_char_index_from_bounds(s: Seq<char>, b: int, k0: int)
    ensures
        crate::text::char_index_at_from(s, b, k0) matches Some(k) ==> k0 <= k <= s.len() && 0 <= k
            && crate::text::byte_offset(s, k) == b,
    decreases s.len() + 1 - k0,
{
    if 0 <= k0 <= s.len() && crate::text::byte_offset(s, k0) != b {
        lemma_char_index_from_bounds(s, b, k0 + 1);
    }
}

/// The character index with a given byte offset is that index.
pub proof fn lemma_char_index_unique(s: Seq<char>, b: int, k: int)
    requires
        0 <= k <= s.len(),
        crate::text::byte_offset(s, k) == b,
    ensures
        char_index_at(s, b) == Some(k),
{
    lemma_char_index_unique_from(s, b, k, 0);
}

proof fn lemma_char_index_unique_from(s: Seq<char>, b: int, k: int, k0: int)
    requires
        0 <= k0 <= k <= s.len(),
        crate::text::byte_offset(s, k) == b,
    ensures
        crate::text::char_index_at_from(s, b, k0) == Some(k),
    decreases k - k0,
{
    if k0 < k {
        crate::text::lemma_byte_offset_mono(s, k0, k);
        lemma_char_index_unique_from(s, b, k, k0 + 1);
    }
}

/// Character indices are ordered as their byte offsets.
pub proof fn lemma_byte_offset_order(s: Seq<char>, k1: int, k2: int)
    requires
        0 <= k1 <= s.len(),
        0 <= k2 <= s.len(),
        crate::text::byte_offset(s, k1) <= crate::text::byte_offset(s, k2),
    ensures
        k1 <= k2,
{
    if k2 < k1 {
        crate::text::lemma_byte_offset_mono(s, k2, k1);
    }
}

/// Whether the post URL of `_posts/<post>` resolves on character boundaries.
fn post_url_path_safe_exec(post: &Vec<char>) -> (r: bool)
    ensures
        r == post_url_path_safe(post@),
{
    let stem = match strip_suffix_chars(post, &str_to_chars(".md")) {
        Some(x) => x,
        None => match strip_suffix_chars(post, &str_to_chars(".html")) {
            Some(x) => x,
            None => slice(post, 0, post.len()),
        },
    };
    assert(stem@ == post_stem(post@)) by {
        assert(post@.subrange(0, post@.len() as int) =~= post@);
    }
    let i4 = char_index_at_byte(&stem, 4);
    let i7 = char_index_at_byte(&stem, 7);
    let dated = byte_len_exceeds(&stem, 10) && match i4 {
        Some(k) => k < stem.len() && stem[k] == '-',
        None => false,
    } && match i7 {
        Some(j) => j < stem.len() && stem[j] == '-',
        None => false,
    };
    if dated {
        char_index_at_byte(&stem, 10).is_some() && char_index_at_byte(&stem, 11).is_some()
    } else {
        true
    }
}

/// Whether the URL of a `post_url` slug resolves on character boundaries.
fn slug_safe_exec(slug: &Vec<char>) -> (r: bool)
    ensures
        r == slug_safe(slug@),
{
    let dated = byte_len_exceeds(slug, 10) && slug.len() > 7 && slug[4] == '-' && slug[7] == '-';
    if dated {
        char_index_at_byte(slug, 4).is_some() && char_index_at_byte(slug, 5).is_some()
            && char_index_at_byte(slug, 7).is_some() && char_index_at_byte(slug, 8).is_some()
            && char_index_at_byte(slug, 10).is_some() && char_index_at_byte(slug, 11).is_some()
    } else {
        true
    }
}

/// Whether one tag resolves on character boundaries.
fn jekyll_tag_safe_exec(inner: &Vec<char>) -> (r: bool)
    ensures
        r == jekyll_tag_safe(inner@),
{
    let t = tag_core_chars(inner);
    match keyword_rest_chars(&t, &str_to_chars("link")) {
        Some(rest) => {
            let path = link_path_exec(&rest);
            match strip_prefix_chars(&path, &str_to_chars("_posts/")) {
                Some(post) => post_url_path_safe_exec(&post),
                None => true,
            }
        },
        None => match keyword_rest_chars(&t, &str_to_chars("post_url")) {
            Some(rest) => slug_safe_exec(&trim_chars(&rest)),
            None => true,
        },
    }
}

/// Whether every `link`/`post_url` tag of the template resolves on character
/// boundaries (the inputs `preprocess_jekyll_tags_with_config` takes).
pub fn jekyll_tags_admitted(template: &str, link_config: &LinkTagConfig) -> (r: bool)
    ensures
        r == spans_admitted(JekyllTagRule { cfg: link_config }, template@, 0, "{%"@, "%}"@),
{
    let s = str_to_chars(template);
    let open = str_to_chars("{%");
    let close = str_to_chars("%}");
    proof {
        reveal_strlit("{%");
        reveal_strlit("%}");
    }
    let ghost rule = JekyllTagRule { cfg: link_config };
    let mut pos: usize = 0;
    loop
        invariant
            pos <= s.len(),
            s@ == template@,
            open@ == "{%"@,
            close@ == "%}"@,
            open@.len() == 2,
            close@.len() == 2,
            rule == (JekyllTagRule { cfg: link_config }),
            spans_admitted(rule, s@, 0, open@, close@) == spans_admitted(rule, s@, pos as int, open@, close@),
        decreases s.len() + 1 - pos,
    {
        match find_at(&s, &open, pos) {
            None => return true,
            Some(st) => {
                proof { lemma_find_from(s@, open@, pos as int); }
                match find_at(&s, &close, st + 2) {
                    None => return true,
                    Some(e) => {
                        proof { lemma_find_from(s@, close@, st + 2); }
                        let inner = slice(&s, st + 2, e);
                        if !jekyll_tag_safe_exec(&inner) {
                            return false;
                        }
                        pos = e + 2;
                    },
                }
            },
        }
    }
}

} // verus!
