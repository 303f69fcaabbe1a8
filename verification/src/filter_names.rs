//! Finding filter names that the Liquid parser does not know: candidate
//! names in include sources, and the name in an "Unknown filter" error.
use vstd::prelude::*;
use crate::tagbody::strip_prefix;
use crate::text::{
    chars_to_string, contains, find, find_at, lemma_find_from, slice, str_to_chars, trim,
    trim_chars, vec_eq,
};
use crate::link::strip_prefix_chars;

verus! {

// ---------------------------------------------------------------------------
// The name in a parse error
// ---------------------------------------------------------------------------

/// The filter name a trimmed error line gives: after `requested filter=`,
/// trimmed, when not empty.
pub open spec fn line_filter_name(line: Seq<char>) -> Option<Seq<char>> {
    match strip_prefix(trim(line), "requested filter="@) {
        Some(rest) => if trim(rest).len() > 0 {
            Some(trim(rest))
        } else {
            None
        },
        None => None,
    }
}

/// The first line of `s` (split at `\\n`) that names a filter.
pub open spec fn first_filter_name(s: Seq<char>) -> Option<Seq<char>>
    decreases s.len(),
{
    match find(s, seq!['\n']) {
        Some(k) => if 0 <= k < s.len() {
            match line_filter_name(s.take(k)) {
                Some(n) => Some(n),
                None => first_filter_name(s.skip(k + 1)),
            }
        } else {
            None
        },
        None => line_filter_name(s),
    }
}

/// The unknown filter named by a Liquid parse error: only for an error that
/// says `Unknown filter`, taken from its `requested filter=NAME` line.
pub open spec fn unknown_filter_name(err: Seq<char>) -> Option<Seq<char>> {
    if !contains(err, "Unknown filter"@) {
        None
    } else {
        first_filter_name(err)
    }
}

fn line_filter_name_exec(line: &Vec<char>) -> (r: Option<Vec<char>>)
    ensures
        match r {
            Some(n) => line_filter_name(line@) == Some(n@),
            None => line_filter_name(line@) is None,
        },
{
    let t = trim_chars(line);
    match strip_prefix_chars(&t, &str_to_chars("requested filter=")) {
        Some(rest) => {
            let n = trim_chars(&rest);
            if n.len() > 0 {
                Some(n)
            } else {
                None
            }
        },
        None => None,
    }
}

/// A parse error from which a filter name is read is one that the scan of
/// includes also counts as an unknown-filter error.
pub proof fn lemma_named_filter_error_is_unknown(err: Seq<char>)
    ensures
        unknown_filter_name(err) is Some ==> (contains(err, "Unknown filter"@) || contains(
            err,
            "FilterChain"@,
        )),
{
}

/// Extracts the unknown filter name from a Liquid parse error message.
pub fn extract_unknown_filter_name(err_str: &str) -> (r: Option<String>)
    ensures
        match r {
            Some(n) => unknown_filter_name(err_str@) == Some(n@),
            None => unknown_filter_name(err_str@) is None,
        },
{
    let s0 = str_to_chars(err_str);
    let uf = str_to_chars("Unknown filter");
    proof {
        lemma_find_from(s0@, uf@, 0);
    }
    if find_at(&s0, &uf, 0).is_none() {
        return None;
    }
    let nl = vec!['\n'];
    assert(nl@ =~= seq!['\n']);
    let mut s = s0;
    loop
        invariant
            nl@ == seq!['\n'],
            unknown_filter_name(err_str@) == first_filter_name(s@),
        decreases s.len(),
    {
        proof {
            lemma_find_from(s@, nl@, 0);
        }
        match find_at(&s, &nl, 0) {
            Some(k) => {
                let line = slice(&s, 0, k);
                assert(line@ =~= s@.take(k as int));
                match line_filter_name_exec(&line) {
                    Some(n) => return Some(chars_to_string(&n)),
                    None => {
                        let rest = slice(&s, k + 1, s.len());
                        assert(rest@ =~= s@.skip(k + 1));
                        s = rest;
                    },
                }
            },
            None => {
                return match line_filter_name_exec(&s) {
                    Some(n) => Some(chars_to_string(&n)),
                    None => None,
                };
            },
        }
    }
}

/// A parse error that means a filter is unknown.
pub fn is_unknown_filter_error(err_str: &str) -> (r: bool)
    ensures
        r == (contains(err_str@, "Unknown filter"@) || contains(err_str@, "FilterChain"@)),
{
    let s = str_to_chars(err_str);
    let a = str_to_chars("Unknown filter");
    let b = str_to_chars("FilterChain");
    proof {
        lemma_find_from(s@, a@, 0);
        lemma_find_from(s@, b@, 0);
    }
    find_at(&s, &a, 0).is_some() || find_at(&s, &b, 0).is_some()
}

// ---------------------------------------------------------------------------
// Candidate names in include sources
// ---------------------------------------------------------------------------

pub open spec fn is_name_start(c: char) -> bool {
    ('a' <= c && c <= 'z') || c == '_'
}

pub open spec fn is_name_char(c: char) -> bool {
    ('a' <= c && c <= 'z') || ('0' <= c && c <= '9') || c == '_'
}

/// Number of spaces starting at index `j`.
pub open spec fn spaces_from(s: Seq<char>, j: int) -> int
    decreases s.len() - j,
{
    if 0 <= j < s.len() && s[j] == ' ' {
        1 + spaces_from(s, j + 1)
    } else {
        0
    }
}

/// Number of name characters starting at index `j`.
pub open spec fn name_run(s: Seq<char>, j: int) -> int
    decreases s.len() - j,
{
    if 0 <= j < s.len() && is_name_char(s[j]) {
        1 + name_run(s, j + 1)
    } else {
        0
    }
}

/// The name following a `|` at index `i` (spaces skipped): a lower-case
/// letter or `_`, then lower-case letters, digits and `_`.
pub open spec fn pipe_name(s: Seq<char>, i: int) -> Option<Seq<char>> {
    if 0 <= i < s.len() && s[i] == '|' {
        let j = i + 1 + spaces_from(s, i + 1);
        if j < s.len() && is_name_start(s[j]) {
            Some(s.subrange(j, j + name_run(s, j)))
        } else {
            None
        }
    } else {
        None
    }
}

/// `w` follows some `|` of one of the sources.
pub open spec fn is_candidate(sources: Seq<Seq<char>>, w: Seq<char>) -> bool {
    exists|k: int, i: int| 0 <= k < sources.len() && #[trigger] pipe_name(sources[k], i) == Some(w)
}

proof fn lemma_spaces_bound(s: Seq<char>, j: int)
    requires
        0 <= j,
    ensures
        0 <= spaces_from(s, j),
        j < s.len() ==> j + spaces_from(s, j) <= s.len(),
        j >= s.len() ==> spaces_from(s, j) == 0,
    decreases s.len() - j,
{
    if 0 <= j < s.len() && s[j] == ' ' {
        lemma_spaces_bound(s, j + 1);
    }
}

proof fn lemma_name_run_bound(s: Seq<char>, j: int)
    requires
        0 <= j,
    ensures
        0 <= name_run(s, j),
        j + name_run(s, j) <= s.len() || name_run(s, j) == 0,
    decreases s.len() - j,
{
    if 0 <= j < s.len() && is_name_char(s[j]) {
        lemma_name_run_bound(s, j + 1);
    }
}

/// The name following the `|` at `i`, if any.
fn pipe_name_exec(s: &Vec<char>, i: usize) -> (r: Option<Vec<char>>)
    requires
        i < s.len(),
    ensures
        match r {
            Some(w) => pipe_name(s@, i as int) == Some(w@),
            None => pipe_name(s@, i as int) is None,
        },
{
    if s[i] != '|' {
        return None;
    }
    let mut j = i + 1;
    proof { lemma_spaces_bound(s@, (i + 1) as int); }
    while j < s.len() && s[j] == ' '
        invariant
            i + 1 <= j <= s.len(),
            (i + 1) + spaces_from(s@, (i + 1) as int) == j + spaces_from(s@, j as int),
        decreases s.len() - j,
    {
        j += 1;
    }
    if j < s.len() && (('a' <= s[j] && s[j] <= 'z') || s[j] == '_') {
        let start = j;
        proof { lemma_name_run_bound(s@, start as int); }
        while j < s.len() && (('a' <= s[j] && s[j] <= 'z') || ('0' <= s[j] && s[j] <= '9') || s[j]
            == '_')
            invariant
                start <= j <= s.len(),
                start + name_run(s@, start as int) == j + name_run(s@, j as int),
            decreases s.len() - j,
        {
            j += 1;
        }
        Some(slice(s, start, j))
    } else {
        None
    }
}

/// `w` is one of the strings of `v`.
pub open spec fn listed(v: Seq<String>, w: Seq<char>) -> bool {
    exists|m: int| 0 <= m < v.len() && #[trigger] v[m]@ == w
}

/// `w` follows some `|` of one of the first `k` sources.
pub open spec fn found_before(srcs: Seq<Seq<char>>, k: int, w: Seq<char>) -> bool {
    exists|kk: int, ii: int| 0 <= kk < k && #[trigger] pipe_name(srcs[kk], ii) == Some(w)
}

/// `w` follows some `|` before index `i` of `s`.
pub open spec fn found_in(s: Seq<char>, i: int, w: Seq<char>) -> bool {
    exists|ii: int| 0 <= ii < i && #[trigger] pipe_name(s, ii) == Some(w)
}

/// The texts of the sources.
pub open spec fn source_texts(sources: Seq<String>) -> Seq<Seq<char>> {
    Seq::new(sources.len(), |k: int| sources[k]@)
}

proof fn lemma_pipe_name_range(s: Seq<char>, i: int)
    ensures
        pipe_name(s, i) is Some ==> 0 <= i < s.len(),
{
}

/// The names that follow a `|` in the include sources, each once: the
/// candidates to test against the parser.
pub fn filter_name_candidates(sources: &Vec<String>) -> (r: Vec<String>)
    ensures
        forall|w: Seq<char>| #[trigger] listed(r@, w) <==> is_candidate(source_texts(sources@), w),
        forall|a: int, b: int| 0 <= a < b < r@.len() ==> r@[a]@ != r@[b]@,
{
    let ghost srcs = source_texts(sources@);
    let mut out: Vec<String> = Vec::new();
    let mut k: usize = 0;
    while k < sources.len()
        invariant
            k <= sources.len(),
            srcs == source_texts(sources@),
            forall|w: Seq<char>| #[trigger] listed(out@, w) <==> found_before(srcs, k as int, w),
            forall|a: int, b: int| 0 <= a < b < out@.len() ==> out@[a]@ != out@[b]@,
        decreases sources.len() - k,
    {
        let s = str_to_chars(sources[k].as_str());
        assert(s@ == srcs[k as int]);
        let mut i: usize = 0;
        while i < s.len()
            invariant
                k < sources.len(),
                i <= s.len(),
                s@ == srcs[k as int],
                srcs == source_texts(sources@),
                forall|w: Seq<char>| #[trigger] listed(out@, w) <==> (found_before(srcs, k as int, w)
                    || found_in(s@, i as int, w)),
                forall|a: int, b: int| 0 <= a < b < out@.len() ==> out@[a]@ != out@[b]@,
            decreases s.len() - i,
        {
            let ghost old_out = out@;
            match pipe_name_exec(&s, i) {
                Some(w) => {
                    let mut seen = false;
                    let mut m: usize = 0;
                    while m < out.len()
                        invariant
                            m <= out.len(),
                            seen == (exists|x: int| 0 <= x < m && #[trigger] out@[x]@ == w@),
                        decreases out.len() - m,
                    {
                        if vec_eq(&str_to_chars(out[m].as_str()), &w) {
                            seen = true;
                        }
                        m += 1;
                    }
                    if !seen {
                        out.push(chars_to_string(&w));
                        assert forall|a: int, b: int| 0 <= a < b < out@.len() implies out@[a]@
                            != out@[b]@ by {
                            if b == old_out.len() {
                                assert(out@[a] == old_out[a]);
                            } else {
                                assert(out@[a] == old_out[a] && out@[b] == old_out[b]);
                            }
                        }
                    }
                    assert forall|x: Seq<char>| #[trigger] listed(out@, x) <==> (listed(old_out, x)
                        || x == w@) by {
                        if listed(out@, x) {
                            let mm = choose|mm: int| 0 <= mm < out@.len() && #[trigger] out@[mm]@ == x;
                            if mm < old_out.len() {
                                assert(out@[mm] == old_out[mm]);
                            }
                        }
                        if listed(old_out, x) {
                            let mm = choose|mm: int| 0 <= mm < old_out.len() && #[trigger] old_out[mm]@ == x;
                            assert(out@[mm] == old_out[mm]);
                        }
                        if x == w@ {
                            if seen {
                                let mm = choose|mm: int| 0 <= mm < out@.len() && #[trigger] out@[mm]@ == w@;
                                assert(listed(out@, x));
                            } else {
                                assert(out@[old_out.len() as int]@ == x);
                            }
                        }
                    }
                    assert forall|x: Seq<char>| #[trigger] found_in(s@, i + 1, x) <==> (found_in(
                        s@,
                        i as int,
                        x,
                    ) || x == w@) by {
                        if found_in(s@, i + 1, x) {
                            let ii = choose|ii: int| 0 <= ii < i + 1 && #[trigger] pipe_name(s@, ii) == Some(x);
                            if ii == i {
                                assert(x == w@);
                            }
                        }
                        if x == w@ {
                            assert(pipe_name(s@, i as int) == Some(x));
                        }
                    }
                },
                None => {
                    assert forall|x: Seq<char>| #[trigger] found_in(s@, i + 1, x) <==> found_in(
                        s@,
                        i as int,
                        x,
                    ) by {
                        if found_in(s@, i + 1, x) {
                            let ii = choose|ii: int| 0 <= ii < i + 1 && #[trigger] pipe_name(s@, ii) == Some(x);
                            assert(ii != i);
                        }
                    }
                },
            }
            i += 1;
        }
        assert forall|x: Seq<char>| #[trigger] found_before(srcs, k + 1, x) <==> (found_before(
            srcs,
            k as int,
            x,
        ) || found_in(s@, s@.len() as int, x)) by {
            if found_before(srcs, k + 1, x) {
                let (kk, ii) = choose|kk: int, ii: int| 0 <= kk < k + 1 && #[trigger] pipe_name(srcs[kk], ii) == Some(x);
                if kk == k {
                    lemma_pipe_name_range(s@, ii);
                    assert(pipe_name(s@, ii) == Some(x));
                }
            }
            if found_in(s@, s@.len() as int, x) {
                let ii = choose|ii: int| 0 <= ii < s@.len() && #[trigger] pipe_name(s@, ii) == Some(x);
                assert(pipe_name(srcs[k as int], ii) == Some(x));
            }
        }
        k += 1;
    }
    assert forall|w: Seq<char>| #[trigger] found_before(srcs, sources@.len() as int, w) <==> is_candidate(srcs, w) by {
    }
    out
}

/// The parser's verdict on `{{ x | name }}` rejects the name as an unknown
/// filter: it failed with an unknown-filter error.
pub open spec fn probe_rejects(probe: Option<String>) -> bool {
    match probe {
        Some(e) => contains(e@, "Unknown filter"@) || contains(e@, "FilterChain"@),
        None => false,
    }
}

/// The candidates that the parser rejected as unknown filters, given for
/// each candidate the parse error of `{{ x | name }}` (`None` when it
/// parsed).
pub fn unknown_filter_names(candidates: &Vec<String>, probe_errors: &Vec<Option<String>>) -> (r: Vec<String>)
    requires
        candidates.len() == probe_errors.len(),
    ensures
        forall|w: Seq<char>| #[trigger] listed(r@, w) <==> exists|i: int|
            0 <= i < candidates@.len() && candidates@[i]@ == w && probe_rejects(#[trigger] probe_errors@[i]),
{
    let mut out: Vec<String> = Vec::new();
    let mut i: usize = 0;
    while i < candidates.len()
        invariant
            i <= candidates.len(),
            candidates.len() == probe_errors.len(),
            forall|w: Seq<char>| #[trigger] listed(out@, w) <==> exists|k: int|
                0 <= k < i && candidates@[k]@ == w && probe_rejects(#[trigger] probe_errors@[k]),
        decreases candidates.len() - i,
    {
        let rejected = match &probe_errors[i] {
            Some(e) => is_unknown_filter_error(e.as_str()),
            None => false,
        };
        let ghost before = out@;
        if rejected {
            out.push(candidates[i].clone());
        }
        assert forall|w: Seq<char>| #[trigger] listed(out@, w) <==> exists|k: int|
            0 <= k < i + 1 && candidates@[k]@ == w && probe_rejects(#[trigger] probe_errors@[k]) by {
            if listed(out@, w) {
                let m = choose|m: int| 0 <= m < out@.len() && #[trigger] out@[m]@ == w;
                if m < before.len() {
                    assert(before[m] == out@[m]);
                    assert(listed(before, w));
                } else {
                    assert(probe_rejects(probe_errors@[i as int]));
                }
            }
            if exists|k: int| 0 <= k < i + 1 && candidates@[k]@ == w && probe_rejects(#[trigger] probe_errors@[k]) {
                let k = choose|k: int| 0 <= k < i + 1 && candidates@[k]@ == w && probe_rejects(#[trigger] probe_errors@[k]);
                if k < i {
                    assert(listed(before, w));
                    let m = choose|m: int| 0 <= m < before.len() && #[trigger] before[m]@ == w;
                    assert(out@[m] == before[m]);
                } else {
                    assert(out@[before.len() as int]@ == w);
                }
            }
        }
        i += 1;
    }
    out
}

} // verus!
