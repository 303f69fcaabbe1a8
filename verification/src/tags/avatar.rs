//! `{% avatar %}`: a GitHub avatar `<img>` tag (the jekyll-avatar plugin).
use vstd::prelude::*;
use crate::filters::numbers::{all_digits, digits_value, is_digit};
use crate::numfmt::{decimal, u64_to_decimal};
use crate::text::{chars_to_string, push_all, str_to_chars, vec_eq};

verus! {

// ---------------------------------------------------------------------------
// Arguments
// ---------------------------------------------------------------------------

/// One argument token of the tag, as the tag's parser classifies it: its
/// text, the identifier it reads as (if it is one), and the text of the
/// value expression it reads as (if it is not an identifier but a value).
pub struct AvatarToken {
    pub raw: String,
    pub ident: Option<String>,
    pub value: Option<String>,
}

/// The mathematical form of a token.
pub struct TokenView {
    pub raw: Seq<char>,
    pub ident: Option<Seq<char>>,
    pub value: Option<Seq<char>>,
}

/// The mathematical forms of the tokens.
pub open spec fn token_views(t: Seq<AvatarToken>) -> Seq<TokenView> {
    Seq::new(
        t.len(),
        |i: int|
            TokenView {
                raw: t[i].raw@,
                ident: match t[i].ident {
                    Some(s) => Some(s@),
                    None => None,
                },
                value: match t[i].value {
                    Some(s) => Some(s@),
                    None => None,
                },
            },
    )
}

/// Where the username comes from.
pub enum UsernameSource {
    /// A literal username.
    Literal(String),
    /// The name of a variable holding the username.
    Variable(String),
}

/// The parsed arguments.
pub struct AvatarArgs {
    pub source: UsernameSource,
    pub size: u32,
    pub lazy: bool,
}

/// Parser state: the username source so far (`(is_variable, text)`), the
/// size and the lazy flag.
pub struct ScanState {
    pub source: Option<(bool, Seq<char>)>,
    pub size: u32,
    pub lazy: bool,
}

/// The integer `str::parse::<u32>` reads: an optional `+`, then one or more
/// ASCII digits, at most `u32::MAX`.
pub open spec fn parsed_u32(s: Seq<char>) -> Option<nat> {
    let body = if s.len() > 0 && s[0] == '+' {
        s.drop_first()
    } else {
        s
    };
    if body.len() > 0 && all_digits(body) && digits_value(body) <= u32::MAX {
        Some(digits_value(body) as nat)
    } else {
        None
    }
}

/// The state after a `key=value` pair with a known key.
pub open spec fn apply_key(st: ScanState, key: Seq<char>, v: Seq<char>) -> ScanState {
    if key == "user"@ {
        ScanState { source: Some((true, v)), ..st }
    } else if key == "lazy"@ {
        ScanState { lazy: v == "true"@, ..st }
    } else {
        match parsed_u32(v) {
            Some(n) => ScanState { size: n as u32, ..st },
            None => st,
        }
    }
}

pub open spec fn is_known_key(id: Seq<char>) -> bool {
    id == "user"@ || id == "size"@ || id == "lazy"@
}

pub open spec fn next_pos(i: int, k: int, n: int) -> int {
    if i + k <= n {
        i + k
    } else {
        n
    }
}

/// The parser run over the tokens from index `i` on, in state `st`.
pub open spec fn avatar_scan(t: Seq<TokenView>, i: int, st: ScanState) -> ScanState
    decreases t.len() - i,
{
    if i < 0 || i >= t.len() {
        st
    } else {
        let n = t.len() as int;
        let tok = t[i];
        match tok.ident {
            Some(id) => if is_known_key(id) {
                // `=` (not checked), then the value.
                if i + 2 < n {
                    let v = t[i + 2];
                    let st2 = match v.ident {
                        Some(x) => apply_key(st, id, x),
                        None => match v.value {
                            Some(e) => apply_key(st, id, e),
                            None => st,
                        },
                    };
                    avatar_scan(t, i + 3, st2)
                } else {
                    st
                }
            } else if st.source is None {
                if i + 1 < n {
                    if t[i + 1].raw == "="@ {
                        avatar_scan(t, next_pos(i, 3, n), st)
                    } else {
                        avatar_scan(t, i + 2, ScanState { source: Some((false, id)), ..st })
                    }
                } else {
                    ScanState { source: Some((false, id)), ..st }
                }
            } else {
                if i + 1 < n {
                    if t[i + 1].raw == "="@ {
                        avatar_scan(t, next_pos(i, 3, n), st)
                    } else {
                        avatar_scan(t, i + 2, st)
                    }
                } else {
                    st
                }
            },
            None => match tok.value {
                Some(e) => if st.source is None {
                    avatar_scan(t, i + 1, ScanState { source: Some((false, e)), ..st })
                } else {
                    avatar_scan(t, i + 1, st)
                },
                None => avatar_scan(t, i + 1, st),
            },
        }
    }
}

/// The arguments the tag reads from its tokens: a username (literal or from
/// a variable; empty literal when none), a size (40 unless given) and the
/// lazy flag.
pub open spec fn avatar_args(t: Seq<TokenView>) -> ScanState {
    let st = avatar_scan(t, 0, ScanState { source: None, size: 40, lazy: false });
    match st.source {
        Some(_) => st,
        None => ScanState { source: Some((false, Seq::empty())), ..st },
    }
}

/// Parses a `u32` as `str::parse` does.
pub fn parse_u32(s: &Vec<char>) -> (r: Option<u32>)
    ensures
        match r {
            Some(x) => parsed_u32(s@) == Some(x as nat),
            None => parsed_u32(s@) is None,
        },
{
    let n = s.len();
    let start: usize = if n > 0 && s[0] == '+' {
        1
    } else {
        0
    };
    let ghost body = s@.skip(start as int);
    assert(body =~= if s@.len() > 0 && s@[0] == '+' {
        s@.drop_first()
    } else {
        s@
    });
    if start >= n {
        return None;
    }
    let mut acc: u64 = 0;
    let mut i = start;
    while i < n
        invariant
            start <= i <= n,
            n == s.len(),
            body == s@.skip(start as int),
            body == (if s@.len() > 0 && s@[0] == '+' {
                s@.drop_first()
            } else {
                s@
            }),
            acc as int == digits_value(s@.subrange(start as int, i as int)),
            acc <= u32::MAX,
            all_digits(s@.subrange(start as int, i as int)),
        decreases n - i,
    {
        let c = s[i];
        let ghost pre = s@.subrange(start as int, i as int);
        let ghost next = s@.subrange(start as int, i + 1);
        assert(next.drop_last() =~= pre);
        if !('0' <= c && c <= '9') {
            assert(body[i - start] == c);
            assert(!all_digits(body));
            return None;
        }
        let dv = (c as u64) - ('0' as u64);
        acc = acc * 10 + dv;
        assert(all_digits(next)) by {
            assert forall|k: int| 0 <= k < next.len() implies is_digit(#[trigger] next[k]) by {
                if k < pre.len() {
                    assert(next[k] == pre[k]);
                }
            }
        }
        if acc > 4294967295 {
            proof {
                lemma_digits_grow(body, i - start + 1);
                assert(next =~= body.take(i - start + 1));
            }
            return None;
        }
        i += 1;
    }
    assert(s@.subrange(start as int, n as int) =~= body);
    Some(acc as u32)
}

proof fn lemma_digits_nonneg(s: Seq<char>)
    requires
        all_digits(s),
    ensures
        digits_value(s) >= 0,
    decreases s.len(),
{
    if s.len() > 0 {
        assert(is_digit(s[s.len() - 1]));
        assert(all_digits(s.drop_last())) by {
            assert forall|j: int| 0 <= j < s.len() - 1 implies is_digit(#[trigger] s.drop_last()[j]) by {
                assert(s.drop_last()[j] == s[j]);
            }
        }
        lemma_digits_nonneg(s.drop_last());
    }
}

proof fn lemma_digits_grow(body: Seq<char>, k: int)
    requires
        0 <= k <= body.len(),
    ensures
        all_digits(body) ==> digits_value(body) >= digits_value(body.take(k)),
    decreases body.len() - k,
{
    if k < body.len() {
        lemma_digits_grow(body, k + 1);
        if all_digits(body) {
            assert(body.take(k + 1).drop_last() =~= body.take(k));
            assert(is_digit(body[k]));
            assert(all_digits(body.take(k))) by {
                assert forall|j: int| 0 <= j < k implies is_digit(#[trigger] body.take(k)[j]) by {
                    assert(body.take(k)[j] == body[j]);
                }
            }
            lemma_digits_nonneg(body.take(k));
        }
    } else {
        assert(body.take(k) =~= body);
    }
}

/// The mathematical form of a source.
pub open spec fn source_view(s: UsernameSource) -> (bool, Seq<char>) {
    match s {
        UsernameSource::Literal(x) => (false, x@),
        UsernameSource::Variable(x) => (true, x@),
    }
}

fn copy_string(s: &String) -> (r: String)
    ensures
        r@ == s@,
{
    s.clone()
}

fn apply_key_exec(
    source: &mut Option<UsernameSource>,
    size: &mut u32,
    lazy: &mut bool,
    key: &Vec<char>,
    v: &String,
)
    ensures
        ({
            let before = ScanState {
                source: match *old(source) {
                    Some(x) => Some(source_view(x)),
                    None => None,
                },
                size: *old(size),
                lazy: *old(lazy),
            };
            let after = apply_key(before, key@, v@);
            &&& after.size == *final(size)
            &&& after.lazy == *final(lazy)
            &&& after.source == match *final(source) {
                Some(x) => Some(source_view(x)),
                None => None,
            }
        }),
{
    if vec_eq(key, &str_to_chars("user")) {
        *source = Some(UsernameSource::Variable(copy_string(v)));
    } else if vec_eq(key, &str_to_chars("lazy")) {
        *lazy = vec_eq(&str_to_chars(v.as_str()), &str_to_chars("true"));
    } else {
        match parse_u32(&str_to_chars(v.as_str())) {
            Some(n) => {
                *size = n;
            },
            None => {},
        }
    }
}

/// The `{% avatar %}` tag.
pub struct AvatarTag;

impl AvatarTag {
    /// Reads the tag's arguments: `USERNAME` (a literal), `user=VAR`,
    /// `size=N` and `lazy=true`, in any order; unknown `key=value` pairs are
    /// skipped.
    pub fn parse(&self, tokens: &Vec<AvatarToken>) -> (r: AvatarArgs)
        ensures
            ({
                let want = avatar_args(token_views(tokens@));
                &&& want.source == Some(source_view(r.source))
                &&& want.size == r.size
                &&& want.lazy == r.lazy
            }),
    {
        let ghost t = token_views(tokens@);
        let n = tokens.len();
        let mut source: Option<UsernameSource> = None;
        let mut size: u32 = 40;
        let mut lazy = false;
        let mut i: usize = 0;
        let eq = str_to_chars("=");
        let user_k = str_to_chars("user");
        let size_k = str_to_chars("size");
        let lazy_k = str_to_chars("lazy");
        while i < n
            invariant
                n == tokens.len(),
                i <= n,
                t == token_views(tokens@),
                eq@ == "="@,
                user_k@ == "user"@,
                size_k@ == "size"@,
                lazy_k@ == "lazy"@,
                avatar_scan(t, 0, ScanState { source: None, size: 40, lazy: false })
                    == avatar_scan(
                    t,
                    i as int,
                    ScanState {
                        source: match source {
                            Some(x) => Some(source_view(x)),
                            None => None,
                        },
                        size,
                        lazy,
                    },
                ),
            decreases n - i,
        {
            let tok = &tokens[i];
            match &tok.ident {
                Some(id) => {
                    let idc = str_to_chars(id.as_str());
                    if vec_eq(&idc, &user_k) || vec_eq(&idc, &size_k) || vec_eq(&idc, &lazy_k) {
                        if n - i > 2 {
                            let v = &tokens[i + 2];
                            match &v.ident {
                                Some(x) => {
                                    apply_key_exec(&mut source, &mut size, &mut lazy, &idc, x);
                                },
                                None => match &v.value {
                                    Some(e) => {
                                        apply_key_exec(&mut source, &mut size, &mut lazy, &idc, e);
                                    },
                                    None => {},
                                },
                            }
                            i = i + 3;
                        } else {
                            i = n;
                        }
                    } else if source.is_none() {
                        if n - i > 1 {
                            if vec_eq(&str_to_chars(tokens[i + 1].raw.as_str()), &eq) {
                                i = if n - i >= 3 {
                                    i + 3
                                } else {
                                    n
                                };
                            } else {
                                source = Some(UsernameSource::Literal(copy_string(id)));
                                i = i + 2;
                            }
                        } else {
                            source = Some(UsernameSource::Literal(copy_string(id)));
                            i = n;
                        }
                    } else {
                        if n - i > 1 {
                            if vec_eq(&str_to_chars(tokens[i + 1].raw.as_str()), &eq) {
                                i = if n - i >= 3 {
                                    i + 3
                                } else {
                                    n
                                };
                            } else {
                                i = i + 2;
                            }
                        } else {
                            i = n;
                        }
                    }
                },
                None => {
                    match &tok.value {
                        Some(e) => {
                            if source.is_none() {
                                source = Some(UsernameSource::Literal(copy_string(e)));
                            }
                        },
                        None => {},
                    }
                    i = i + 1;
                },
            }
        }
        let src = match source {
            Some(s) => s,
            None => UsernameSource::Literal(String::new()),
        };
        AvatarArgs { source: src, size, lazy }
    }
}

// ---------------------------------------------------------------------------
// Output
// ---------------------------------------------------------------------------

/// The avatar image URL at `s` pixels.
pub open spec fn avatar_src(user: Seq<char>, s: nat) -> Seq<char> {
    "https://avatars.githubusercontent.com/"@ + user + "?v=4&amp;s="@ + decimal(s)
}

/// The `srcset` list for densities 1x to 4x.
pub open spec fn avatar_srcset(user: Seq<char>, size: nat) -> Seq<char> {
    avatar_src(user, size) + " 1x, "@ + avatar_src(user, size * 2) + " 2x, "@ + avatar_src(
        user,
        size * 3,
    ) + " 3x, "@ + avatar_src(user, size * 4) + " 4x"@
}

/// The `<img>` tag for `user` at `size` pixels; nothing for an empty username.
pub open spec fn avatar_html(user: Seq<char>, size: nat, lazy: bool) -> Seq<char> {
    let class = if size <= 48 {
        " avatar-small"@
    } else {
        Seq::empty()
    };
    let d = decimal(size);
    if user.len() == 0 {
        Seq::empty()
    } else if lazy {
        "<img class=\"avatar"@ + class + "\" src=\"\" alt=\""@ + user + "\" data-src=\""@
            + avatar_src(user, size) + "\" data-srcset=\""@ + avatar_srcset(user, size)
            + "\" data-proofer-ignore=\"true\" width=\""@ + d + "\" height=\""@ + d
            + "\" />"@
    } else {
        "<img class=\"avatar"@ + class + "\" src=\""@ + avatar_src(user, size) + "\" alt=\""@
            + user + "\" srcset=\""@ + avatar_srcset(user, size) + "\" width=\""@ + d
            + "\" height=\""@ + d + "\" />"@
    }
}

/// A lazy avatar loads the same picture an eager one shows: its `data-src`
/// is the GitHub URL for the user at the requested size (the eager tag's
/// `src`), and the 1x entry of its `data-srcset` is that URL too.
pub proof fn lemma_lazy_avatar_url(user: Seq<char>, size: nat)
    requires
        user.len() > 0,
    ensures
        exists|p: Seq<char>, q: Seq<char>| avatar_html(user, size, true) == p + "\" data-src=\""@
            + ("https://avatars.githubusercontent.com/"@ + user + "?v=4&amp;s="@ + decimal(size))
            + "\" data-srcset=\""@ + ("https://avatars.githubusercontent.com/"@ + user + "?v=4&amp;s="@
            + decimal(size)) + " 1x, "@ + q,
        exists|p: Seq<char>, q: Seq<char>| avatar_html(user, size, false) == p + "\" src=\""@
            + ("https://avatars.githubusercontent.com/"@ + user + "?v=4&amp;s="@ + decimal(size))
            + "\" alt=\""@ + q,
{
    let url = "https://avatars.githubusercontent.com/"@ + user + "?v=4&amp;s="@ + decimal(size);
    assert(avatar_src(user, size) == url);
    let class = if size <= 48 {
        " avatar-small"@
    } else {
        Seq::empty()
    };
    let d = decimal(size);
    let rest = avatar_src(user, size * 2) + " 2x, "@ + avatar_src(user, size * 3) + " 3x, "@ + avatar_src(
        user,
        size * 4,
    ) + " 4x"@;
    assert(avatar_srcset(user, size) =~= url + " 1x, "@ + rest);
    let p1 = "<img class=\"avatar"@ + class + "\" src=\"\" alt=\""@ + user;
    let q1 = rest + "\" data-proofer-ignore=\"true\" width=\""@ + d + "\" height=\""@ + d + "\" />"@;
    assert(avatar_html(user, size, true) =~= p1 + "\" data-src=\""@ + url + "\" data-srcset=\""@ + url + " 1x, "@
        + q1);
    let p2 = "<img class=\"avatar"@ + class;
    let q2 = user + "\" srcset=\""@ + avatar_srcset(user, size) + "\" width=\""@ + d + "\" height=\""@ + d
        + "\" />"@;
    assert(avatar_html(user, size, false) =~= p2 + "\" src=\""@ + url + "\" alt=\""@ + q2);
}

fn push_str(out: &mut Vec<char>, s: &str)
    ensures
        final(out)@ == old(out)@ + s@,
{
    push_all(out, &str_to_chars(s));
}

fn push_src(out: &mut Vec<char>, user: &Vec<char>, s: u64)
    ensures
        final(out)@ == old(out)@ + avatar_src(user@, s as nat),
{
    push_str(out, "https://avatars.githubusercontent.com/");
    push_all(out, user);
    push_str(out, "?v=4&amp;s=");
    push_all(out, &u64_to_decimal(s));
}

fn push_srcset(out: &mut Vec<char>, user: &Vec<char>, size: u64)
    requires
        size * 4 <= u64::MAX,
    ensures
        final(out)@ == old(out)@ + avatar_srcset(user@, size as nat),
{
    push_src(out, user, size);
    push_str(out, " 1x, ");
    push_src(out, user, size * 2);
    push_str(out, " 2x, ");
    push_src(out, user, size * 3);
    push_str(out, " 3x, ");
    push_src(out, user, size * 4);
    push_str(out, " 4x");
    assert(final(out)@ =~= old(out)@ + avatar_srcset(user@, size as nat));
}

impl AvatarTag {
    /// The `<img>` tag for the resolved username; an empty username writes
    /// nothing.
    pub fn render(&self, username: &str, size: u32, lazy: bool) -> (r: String)
        requires
            size * 4 <= u32::MAX,
        ensures
            r@ == avatar_html(username@, size as nat, lazy),
    {
        if username.is_empty() {
            return String::new();
        }
        let user = str_to_chars(username);
        let sz = size as u64;
        let d = u64_to_decimal(sz);
        let mut out: Vec<char> = Vec::new();
        push_str(&mut out, "<img class=\"avatar");
        if size <= 48 {
            push_str(&mut out, " avatar-small");
        }
        if lazy {
            push_str(&mut out, "\" src=\"\" alt=\"");
            push_all(&mut out, &user);
            push_str(&mut out, "\" data-src=\"");
            push_src(&mut out, &user, sz);
            push_str(&mut out, "\" data-srcset=\"");
            push_srcset(&mut out, &user, sz);
            push_str(&mut out, "\" data-proofer-ignore=\"true\" width=\"");
            push_all(&mut out, &d);
            push_str(&mut out, "\" height=\"");
            push_all(&mut out, &d);
            push_str(&mut out, "\" />");
        } else {
            push_str(&mut out, "\" src=\"");
            push_src(&mut out, &user, sz);
            push_str(&mut out, "\" alt=\"");
            push_all(&mut out, &user);
            push_str(&mut out, "\" srcset=\"");
            push_srcset(&mut out, &user, sz);
            push_str(&mut out, "\" width=\"");
            push_all(&mut out, &d);
            push_str(&mut out, "\" height=\"");
            push_all(&mut out, &d);
            push_str(&mut out, "\" />");
        }
        assert(out@ =~= avatar_html(username@, size as nat, lazy));
        chars_to_string(&out)
    }
}

} // verus!
