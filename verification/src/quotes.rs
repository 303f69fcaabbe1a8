//! Scanning expressions while tracking single- and double-quoted strings.
use vstd::prelude::*;
use crate::text::{byte_offset, cut_ok, cut_ok_after, matches_at, occurs_at, slice, str_to_chars};

verus! {

/// Quote state after reading `c`: a `'` toggles single quoting outside double
/// quotes, a `"` toggles double quoting outside single quotes.
pub open spec fn step_quotes(c: char, sq: bool, dq: bool) -> (bool, bool) {
    if c == '\'' && !dq {
        (!sq, dq)
    } else if c == '"' && !sq {
        (sq, !dq)
    } else {
        (sq, dq)
    }
}

/// First `|` at or after index `i` that is outside quotes, starting the scan
/// at `i` in quote state (`sq`, `dq`).
pub open spec fn top_level_pipe_from(s: Seq<char>, i: int, sq: bool, dq: bool) -> Option<int>
    decreases s.len() - i,
{
    if i < 0 || i >= s.len() {
        None
    } else if s[i] == '|' && !sq && !dq {
        Some(i)
    } else {
        let (a, b) = step_quotes(s[i], sq, dq);
        top_level_pipe_from(s, i + 1, a, b)
    }
}

/// First `|` of `s` outside quoted strings.
pub open spec fn top_level_pipe(s: Seq<char>) -> Option<int> {
    top_level_pipe_from(s, 0, false, false)
}

/// First `" and "` / `" or "` outside quotes at or after index `i`; the flag
/// tells whether it is `and`.
pub open spec fn logical_op_from(s: Seq<char>, i: int, sq: bool, dq: bool) -> Option<(int, bool)>
    decreases s.len() - i,
{
    if i < 0 || i >= s.len() {
        None
    } else if s[i] == ' ' && !sq && !dq && occurs_at(s, " and "@, i) {
        Some((i, true))
    } else if s[i] == ' ' && !sq && !dq && occurs_at(s, " or "@, i) {
        Some((i, false))
    } else {
        let (a, b) = step_quotes(s[i], sq, dq);
        logical_op_from(s, i + 1, a, b)
    }
}

/// `s` split at its first unquoted `" and "` / `" or "`: the operand before
/// it, the connector word, and the text after it; `(s, None, "")` when none.
pub open spec fn split_logical(s: Seq<char>) -> (Seq<char>, Option<Seq<char>>, Seq<char>) {
    match logical_op_from(s, 0, false, false) {
        Some((i, true)) => (s.take(i), Some("and"@), s.skip(i + 5)),
        Some((i, false)) => (s.take(i), Some("or"@), s.skip(i + 4)),
        None => (s, None, Seq::empty()),
    }
}

/// The scan for a logical operator compares byte slices of 5 (`" and "`) and
/// 4 (`" or "`) bytes after each unquoted space; it never slices inside a
/// multi-byte character from index `i` on.
pub open spec fn logical_scan_safe_from(s: Seq<char>, i: int, sq: bool, dq: bool) -> bool
    decreases s.len() - i,
{
    if i < 0 || i >= s.len() {
        true
    } else if s[i] == ' ' && !sq && !dq {
        cut_ok(s, byte_offset(s, i) + 5) && (occurs_at(s, " and "@, i) || (cut_ok(
            s,
            byte_offset(s, i) + 4,
        ) && (occurs_at(s, " or "@, i) || logical_scan_safe_from(s, i + 1, sq, dq))))
    } else {
        let (a, b) = step_quotes(s[i], sq, dq);
        logical_scan_safe_from(s, i + 1, a, b)
    }
}

/// The scan for a logical operator in `s` never slices inside a character.
pub open spec fn logical_scan_safe(s: Seq<char>) -> bool {
    logical_scan_safe_from(s, 0, false, false)
}

/// Position of the first `|` outside quoted strings.
pub fn find_top_level_pipe(s: &Vec<char>) -> (r: Option<usize>)
    ensures
        match r {
            Some(k) => top_level_pipe(s@) == Some(k as int),
            None => top_level_pipe(s@) is None,
        },
{
    let mut sq = false;
    let mut dq = false;
    let mut i: usize = 0;
    while i < s.len()
        invariant
            i <= s.len(),
            top_level_pipe(s@) == top_level_pipe_from(s@, i as int, sq, dq),
        decreases s.len() - i,
    {
        let c = s[i];
        if c == '|' && !sq && !dq {
            return Some(i);
        }
        if c == '\'' && !dq {
            sq = !sq;
        } else if c == '"' && !sq {
            dq = !dq;
        }
        i += 1;
    }
    None
}

/// Whether `s` has a `|` outside quoted strings.
pub fn has_pipe_outside_strings(s: &Vec<char>) -> (b: bool)
    ensures
        b == top_level_pipe(s@) is Some,
{
    find_top_level_pipe(s).is_some()
}

/// Splits a condition at its first unquoted `" and "` or `" or "`.
pub fn split_next_logical_op(s: &Vec<char>) -> (r: (Vec<char>, Option<Vec<char>>, Vec<char>))
    ensures
        r.0@ == split_logical(s@).0,
        match r.1 {
            Some(c) => split_logical(s@).1 == Some(c@),
            None => split_logical(s@).1 is None,
        },
        r.2@ == split_logical(s@).2,
{
    let and_kw = str_to_chars(" and ");
    let or_kw = str_to_chars(" or ");
    proof {
        reveal_strlit(" and ");
        reveal_strlit(" or ");
    }
    let mut sq = false;
    let mut dq = false;
    let mut i: usize = 0;
    while i < s.len()
        invariant
            i <= s.len(),
            and_kw@ == " and "@,
            or_kw@ == " or "@,
            and_kw@.len() == 5,
            or_kw@.len() == 4,
            logical_op_from(s@, 0, false, false) == logical_op_from(s@, i as int, sq, dq),
        decreases s.len() - i,
    {
        let c = s[i];
        if c == ' ' && !sq && !dq {
            if matches_at(s, &and_kw, i) {
                let a = slice(s, 0, i);
                let b = slice(s, i + 5, s.len());
                assert(a@ =~= s@.take(i as int));
                assert(b@ =~= s@.skip(i + 5));
                return (a, Some(str_to_chars("and")), b);
            }
            if matches_at(s, &or_kw, i) {
                let a = slice(s, 0, i);
                let b = slice(s, i + 4, s.len());
                assert(a@ =~= s@.take(i as int));
                assert(b@ =~= s@.skip(i + 4));
                return (a, Some(str_to_chars("or")), b);
            }
        }
        if c == '\'' && !dq {
            sq = !sq;
        } else if c == '"' && !sq {
            dq = !dq;
        }
        i += 1;
    }
    let whole = slice(s, 0, s.len());
    assert(whole@ =~= s@);
    (whole, None, Vec::new())
}

/// Whether the scan for a logical operator in `s` stays on character
/// boundaries.
pub fn logical_scan_safe_exec(s: &Vec<char>) -> (r: bool)
    ensures
        r == logical_scan_safe(s@),
{
    let and_kw = str_to_chars(" and ");
    let or_kw = str_to_chars(" or ");
    let mut sq = false;
    let mut dq = false;
    let mut i: usize = 0;
    while i < s.len()
        invariant
            i <= s.len(),
            and_kw@ == " and "@,
            or_kw@ == " or "@,
            logical_scan_safe(s@) == logical_scan_safe_from(s@, i as int, sq, dq),
        decreases s.len() - i,
    {
        let c = s[i];
        if c == ' ' && !sq && !dq {
            if !cut_ok_after(s, i, 5) {
                return false;
            }
            if matches_at(s, &and_kw, i) {
                return true;
            }
            if !cut_ok_after(s, i, 4) {
                return false;
            }
            if matches_at(s, &or_kw, i) {
                return true;
            }
        }
        if c == '\'' && !dq {
            sq = !sq;
        } else if c == '"' && !sq {
            dq = !dq;
        }
        i += 1;
    }
    true
}

} // verus!
