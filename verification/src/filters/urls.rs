//! `absolute_url`: the site's url and base url put before a path.
use vstd::prelude::*;
use crate::text::{chars_to_string, has_prefix, push_all, replace_all, replace_chars, starts_with, str_to_chars};

verus! {

/// `s` without its trailing `/` characters (`trim_end_matches('/')`).
pub open spec fn without_trailing_slashes(s: Seq<char>) -> Seq<char>
    decreases s.len(),
{
    if s.len() > 0 && s.last() == '/' {
        without_trailing_slashes(s.drop_last())
    } else {
        s
    }
}

/// Spaces written as `%20`.
pub open spec fn spaces_encoded(s: Seq<char>) -> Seq<char> {
    replace_all(s, seq![' '], seq!['%', '2', '0'])
}

/// A path that already names a scheme (`http://` or `https://`).
pub open spec fn is_absolute(path: Seq<char>) -> bool {
    starts_with(path, "http://"@) || starts_with(path, "https://"@)
}

/// A non-empty path with a leading `/`.
pub open spec fn rooted(path: Seq<char>) -> Seq<char> {
    if path.len() > 0 && path[0] != '/' {
        seq!['/'] + path
    } else {
        path
    }
}

/// The absolute URL of `path` under the site's `url` and `baseurl`.
pub open spec fn absolute_url(path: Seq<char>, url: Seq<char>, baseurl: Seq<char>) -> Seq<char> {
    if is_absolute(path) {
        path
    } else {
        spaces_encoded(
            without_trailing_slashes(url) + without_trailing_slashes(baseurl) + rooted(path),
        )
    }
}

/// `s` without its trailing `/` characters.
pub fn trim_trailing_slashes(s: &Vec<char>) -> (r: Vec<char>)
    ensures
        r@ == without_trailing_slashes(s@),
{
    let mut k = s.len();
    assert(s@.take(k as int) =~= s@);
    while k > 0 && s[k - 1] == '/'
        invariant
            k <= s.len(),
            without_trailing_slashes(s@) == without_trailing_slashes(s@.take(k as int)),
        decreases k,
    {
        assert(s@.take(k as int).drop_last() =~= s@.take(k - 1));
        k -= 1;
    }
    let mut r: Vec<char> = Vec::new();
    let mut i: usize = 0;
    while i < k
        invariant
            i <= k <= s.len(),
            r@ == s@.take(i as int),
        decreases k - i,
    {
        r.push(s[i]);
        assert(s@.take(i as int).push(s@[i as int]) =~= s@.take(i + 1));
        i += 1;
    }
    r
}

/// The `absolute_url` filter, given the site's `url` and `baseurl`.
pub struct AbsoluteUrl;

impl AbsoluteUrl {
    /// A path starting with `http://` or `https://` is returned as it is;
    /// any other is joined to the site url and base url (trailing slashes
    /// dropped, a leading slash added to a non-empty path) and its spaces
    /// written as `%20`.
    pub fn evaluate(&self, path: &str, site_url: &str, baseurl: &str) -> (r: String)
        ensures
            r@ == absolute_url(path@, site_url@, baseurl@),
    {
        let p = str_to_chars(path);
        let http = str_to_chars("http://");
        let https = str_to_chars("https://");
        if has_prefix(&p, &http) || has_prefix(&p, &https) {
            return path.to_string();
        }
        let u = trim_trailing_slashes(&str_to_chars(site_url));
        let b = trim_trailing_slashes(&str_to_chars(baseurl));
        let mut out = u;
        push_all(&mut out, &b);
        if p.len() > 0 && p[0] != '/' {
            out.push('/');
        }
        push_all(&mut out, &p);
        let ghost joined = without_trailing_slashes(site_url@) + without_trailing_slashes(baseurl@)
            + rooted(path@);
        assert(out@ =~= joined);
        let space = vec![' '];
        let pct = vec!['%', '2', '0'];
        assert(space@ =~= seq![' ']);
        assert(pct@ =~= seq!['%', '2', '0']);
        let enc = replace_chars(&out, &space, &pct);
        chars_to_string(&enc)
    }
}

} // verus!
