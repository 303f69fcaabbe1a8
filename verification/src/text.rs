//! Character-sequence utilities shared by the template rewriters.
//!
//! Strings are handled as sequences of `char`; every search, trim and
//! replace used by the rewriters is stated here over `Seq<char>`.
use vstd::prelude::*;

verus! {

// ---------------------------------------------------------------------------
// Specifications
// ---------------------------------------------------------------------------

/// Unicode `White_Space` characters, as `char::is_whitespace` classifies them.
pub open spec fn is_ws(c: char) -> bool {
    ||| ('\u{9}' <= c && c <= '\u{d}')
    ||| c == ' '
    ||| c == '\u{85}'
    ||| c == '\u{a0}'
    ||| c == '\u{1680}'
    ||| ('\u{2000}' <= c && c <= '\u{200a}')
    ||| c == '\u{2028}'
    ||| c == '\u{2029}'
    ||| c == '\u{202f}'
    ||| c == '\u{205f}'
    ||| c == '\u{3000}'
}

/// `p` occurs in `s` starting at index `i`.
pub open spec fn occurs_at(s: Seq<char>, p: Seq<char>, i: int) -> bool {
    0 <= i && i + p.len() <= s.len() && s.subrange(i, i + p.len()) == p
}

/// Leftmost occurrence of `p` in `s` at or after index `i` (`str::find` on `s[i..]`).
pub open spec fn find_from(s: Seq<char>, p: Seq<char>, i: int) -> Option<int>
    decreases s.len() + 1 - i,
{
    if i < 0 || i + p.len() > s.len() {
        None
    } else if s.subrange(i, i + p.len()) == p {
        Some(i)
    } else {
        find_from(s, p, i + 1)
    }
}

/// Leftmost occurrence of `p` in `s` (`str::find`).
pub open spec fn find(s: Seq<char>, p: Seq<char>) -> Option<int> {
    find_from(s, p, 0)
}

/// `s` contains `p` (`str::contains`).
pub open spec fn contains(s: Seq<char>, p: Seq<char>) -> bool {
    find(s, p) is Some
}

/// Rightmost occurrence of `p` in `s` that starts strictly before index `i`.
pub open spec fn rfind_before(s: Seq<char>, p: Seq<char>, i: int) -> Option<int>
    decreases i,
{
    if i <= 0 {
        None
    } else if occurs_at(s, p, i - 1) {
        Some(i - 1)
    } else {
        rfind_before(s, p, i - 1)
    }
}

/// Rightmost occurrence of `p` in `s` (`str::rfind`).
pub open spec fn rfind(s: Seq<char>, p: Seq<char>) -> Option<int> {
    rfind_before(s, p, s.len() as int + 1)
}

/// `s` begins with `p`.
pub open spec fn starts_with(s: Seq<char>, p: Seq<char>) -> bool {
    p.len() <= s.len() && s.take(p.len() as int) == p
}

/// `s` ends with `p`.
pub open spec fn ends_with(s: Seq<char>, p: Seq<char>) -> bool {
    p.len() <= s.len() && s.skip(s.len() - p.len()) == p
}

/// `s` without leading whitespace (`str::trim_start`).
pub open spec fn trim_start(s: Seq<char>) -> Seq<char>
    decreases s.len(),
{
    if s.len() > 0 && is_ws(s[0]) {
        trim_start(s.drop_first())
    } else {
        s
    }
}

/// `s` without trailing whitespace (`str::trim_end`).
pub open spec fn trim_end(s: Seq<char>) -> Seq<char>
    decreases s.len(),
{
    if s.len() > 0 && is_ws(s.last()) {
        trim_end(s.drop_last())
    } else {
        s
    }
}

/// `s` without leading and trailing whitespace (`str::trim`).
pub open spec fn trim(s: Seq<char>) -> Seq<char> {
    trim_end(trim_start(s))
}

/// Every non-overlapping occurrence of `from`, leftmost first, replaced by
/// `to` (`str::replace` with a non-empty pattern).
pub open spec fn replace_all(s: Seq<char>, from: Seq<char>, to: Seq<char>) -> Seq<char>
    decreases s.len(),
{
    if from.len() == 0 {
        s
    } else {
        match find(s, from) {
            None => s,
            Some(i) => if 0 <= i && i + from.len() <= s.len() {
                s.take(i) + to + replace_all(s.skip(i + from.len()), from, to)
            } else {
                s
            },
        }
    }
}

/// Number of bytes in the UTF-8 encoding of `c`.
pub open spec fn utf8_width(c: char) -> int {
    if (c as u32) < 0x80 {
        1
    } else if (c as u32) < 0x800 {
        2
    } else if (c as u32) < 0x10000 {
        3
    } else {
        4
    }
}

/// Number of bytes in the UTF-8 encoding of `s` (`str::len`).
pub open spec fn byte_len(s: Seq<char>) -> int
    decreases s.len(),
{
    if s.len() == 0 {
        0
    } else {
        byte_len(s.drop_last()) + utf8_width(s.last())
    }
}

/// Byte lengths add up over a concatenation.
pub proof fn lemma_byte_len_concat(a: Seq<char>, b: Seq<char>)
    ensures
        byte_len(a + b) == byte_len(a) + byte_len(b),
    decreases b.len(),
{
    if b.len() == 0 {
        assert(a + b =~= a);
    } else {
        lemma_byte_len_concat(a, b.drop_last());
        assert((a + b).drop_last() =~= a + b.drop_last());
        assert((a + b).last() == b.last());
    }
}

/// Every character takes at least one byte.
pub proof fn lemma_byte_len_at_least(s: Seq<char>)
    ensures
        byte_len(s) >= s.len(),
    decreases s.len(),
{
    if s.len() > 0 {
        lemma_byte_len_at_least(s.drop_last());
    }
}

/// ASCII text takes one byte per character.
pub proof fn lemma_byte_len_ascii(s: Seq<char>)
    requires
        forall|j: int| 0 <= j < s.len() ==> (#[trigger] s[j] as u32) < 0x80,
    ensures
        byte_len(s) == s.len(),
    decreases s.len(),
{
    if s.len() > 0 {
        assert((s.last() as u32) < 0x80) by {
            assert(s.last() == s[s.len() - 1]);
        }
        lemma_byte_len_ascii(s.drop_last());
    }
}

/// A piece of a text takes no more bytes than the text, less one byte for
/// each character left out.
pub proof fn lemma_byte_len_piece(x: Seq<char>, a: int, b: int)
    requires
        0 <= a <= b <= x.len(),
    ensures
        byte_len(x) >= byte_len(x.subrange(a, b)) + x.len() - (b - a),
{
    let p = x.subrange(0, a);
    let m = x.subrange(a, b);
    let q = x.subrange(b, x.len() as int);
    assert(x =~= p + m + q);
    lemma_byte_len_concat(p + m, q);
    lemma_byte_len_concat(p, m);
    lemma_byte_len_at_least(p);
    lemma_byte_len_at_least(q);
}

/// Byte offset at which the character of index `k` starts.
pub open spec fn byte_offset(s: Seq<char>, k: int) -> int {
    byte_len(s.take(k))
}

/// The character index (searched from `k` on) whose byte offset is `b`.
pub open spec fn char_index_at_from(s: Seq<char>, b: int, k: int) -> Option<int>
    decreases s.len() + 1 - k,
{
    if k < 0 || k > s.len() {
        None
    } else if byte_offset(s, k) == b {
        Some(k)
    } else {
        char_index_at_from(s, b, k + 1)
    }
}

/// The character index whose byte offset is `b`, if `b` is a character
/// boundary of `s` (`str::is_char_boundary`).
pub open spec fn char_index_at(s: Seq<char>, b: int) -> Option<int> {
    char_index_at_from(s, b, 0)
}

/// Slicing `s` at byte offset `b` does not panic: `b` is past the end or a
/// character boundary.
pub open spec fn cut_ok(s: Seq<char>, b: int) -> bool {
    b > byte_len(s) || char_index_at(s, b) is Some
}

// ---------------------------------------------------------------------------
// Lemmas
// ---------------------------------------------------------------------------

/// What a search result means: the match is there, and no earlier one is.
pub proof fn lemma_find_from(s: Seq<char>, p: Seq<char>, i: int)
    requires
        0 <= i,
    ensures
        match find_from(s, p, i) {
            Some(k) => i <= k && occurs_at(s, p, k) && forall|j: int|
                i <= j < k ==> !#[trigger] occurs_at(s, p, j),
            None => forall|j: int| i <= j ==> !#[trigger] occurs_at(s, p, j),
        },
    decreases s.len() + 1 - i,
{
    if i + p.len() > s.len() {
    } else if s.subrange(i, i + p.len()) == p {
    } else {
        lemma_find_from(s, p, i + 1);
    }
}

/// A search result is the unique leftmost occurrence.
pub proof fn lemma_find_from_unique(s: Seq<char>, p: Seq<char>, i: int, k: int)
    requires
        0 <= i <= k,
        occurs_at(s, p, k),
        forall|j: int| i <= j < k ==> !#[trigger] occurs_at(s, p, j),
    ensures
        find_from(s, p, i) == Some(k),
    decreases k - i,
{
    if i < k {
        assert(!occurs_at(s, p, i));
        lemma_find_from_unique(s, p, i + 1, k);
    }
}


/// `trim_start` drops exactly the leading run of white space.
pub proof fn lemma_trim_start_at(s: Seq<char>, k: int)
    requires
        0 <= k <= s.len(),
        forall|j: int| 0 <= j < k ==> is_ws(#[trigger] s[j]),
        k == s.len() || !is_ws(s[k]),
    ensures
        trim_start(s) == s.skip(k),
    decreases k,
{
    if k == 0 {
        assert(s.skip(0) =~= s);
    } else {
        assert(is_ws(s[0]));
        let t = s.drop_first();
        assert forall|j: int| 0 <= j < k - 1 implies is_ws(#[trigger] t[j]) by {
            assert(t[j] == s[j + 1]);
        }
        lemma_trim_start_at(t, k - 1);
        assert(t.skip(k - 1) =~= s.skip(k));
    }
}

/// `trim_end` drops exactly the trailing run of white space.
pub proof fn lemma_trim_end_at(s: Seq<char>, k: int)
    requires
        0 <= k <= s.len(),
        forall|j: int| k <= j < s.len() ==> is_ws(#[trigger] s[j]),
        k == 0 || !is_ws(s[k - 1]),
    ensures
        trim_end(s) == s.take(k),
    decreases s.len() - k,
{
    if k == s.len() {
        assert(s.take(k) =~= s);
    } else {
        assert(is_ws(s.last()));
        let t = s.drop_last();
        assert forall|j: int| k <= j < t.len() implies is_ws(#[trigger] t[j]) by {
            assert(t[j] == s[j]);
        }
        lemma_trim_end_at(t, k);
        assert(t.take(k) =~= s.take(k));
    }
}

/// Searching a suffix is searching the whole from the suffix's start.
pub proof fn lemma_find_skip(s: Seq<char>, p: Seq<char>, pos: int)
    requires
        0 <= pos <= s.len(),
    ensures
        match find_from(s, p, pos) {
            Some(k) => find(s.skip(pos), p) == Some(k - pos),
            None => find(s.skip(pos), p) is None,
        },
{
    let t = s.skip(pos);
    assert forall|j: int| 0 <= j implies #[trigger] occurs_at(t, p, j) == occurs_at(s, p, j + pos) by {
        if j + p.len() <= t.len() {
            assert(t.subrange(j, j + p.len()) =~= s.subrange(j + pos, j + pos + p.len()));
        }
    }
    lemma_find_from(s, p, pos);
    lemma_find_from(t, p, 0);
    match find_from(s, p, pos) {
        Some(k) => {
            assert(occurs_at(t, p, k - pos));
            assert forall|j: int| 0 <= j < k - pos implies !#[trigger] occurs_at(t, p, j) by {
                assert(!occurs_at(s, p, j + pos));
            }
            lemma_find_from_unique(t, p, 0, k - pos);
        },
        None => {
            match find_from(t, p, 0) {
                Some(k) => {
                    assert(occurs_at(s, p, k + pos));
                },
                None => {},
            }
        },
    }
}

/// What a backward search result means.
pub proof fn lemma_rfind_before(s: Seq<char>, p: Seq<char>, i: int)
    ensures
        match rfind_before(s, p, i) {
            Some(k) => 0 <= k < i && occurs_at(s, p, k) && forall|j: int|
                k < j < i ==> !#[trigger] occurs_at(s, p, j),
            None => forall|j: int| 0 <= j < i ==> !#[trigger] occurs_at(s, p, j),
        },
    decreases i,
{
    if i > 0 && !occurs_at(s, p, i - 1) {
        lemma_rfind_before(s, p, i - 1);
    }
}

/// Trimming never lengthens a sequence.
pub proof fn lemma_trim_len(s: Seq<char>)
    ensures
        trim_start(s).len() <= s.len(),
        trim_end(s).len() <= s.len(),
        trim(s).len() <= s.len(),
    decreases s.len(),
{
    if s.len() > 0 {
        lemma_trim_len(s.drop_first());
        lemma_trim_len(s.drop_last());
    }
    lemma_trim_end_len(trim_start(s));
}

proof fn lemma_trim_end_len(s: Seq<char>)
    ensures
        trim_end(s).len() <= s.len(),
    decreases s.len(),
{
    if s.len() > 0 {
        lemma_trim_end_len(s.drop_last());
    }
}

/// Byte offsets grow by each character's width.
pub proof fn lemma_byte_offset_step(s: Seq<char>, k: int)
    requires
        0 <= k < s.len(),
    ensures
        byte_offset(s, k + 1) == byte_offset(s, k) + utf8_width(s[k]),
{
    assert(s.take(k + 1).drop_last() =~= s.take(k));
}

/// Byte offsets never decrease.
pub proof fn lemma_byte_offset_mono(s: Seq<char>, k1: int, k2: int)
    requires
        0 <= k1 <= k2 <= s.len(),
    ensures
        byte_offset(s, k1) <= byte_offset(s, k2),
        k1 < k2 ==> byte_offset(s, k1) < byte_offset(s, k2),
    decreases k2 - k1,
{
    if k1 < k2 {
        lemma_byte_offset_step(s, k2 - 1);
        lemma_byte_offset_mono(s, k1, k2 - 1);
    }
}

/// No character at or after `k` starts at byte `b` once offsets passed `b`.
pub proof fn lemma_char_index_past(s: Seq<char>, b: int, k: int)
    requires
        0 <= k <= s.len(),
        byte_offset(s, k) > b,
    ensures
        char_index_at_from(s, b, k) is None,
    decreases s.len() + 1 - k,
{
    if k < s.len() {
        lemma_byte_offset_step(s, k);
        lemma_char_index_past(s, b, k + 1);
    } else {
        assert(char_index_at_from(s, b, k + 1) is None);
    }
}

/// The whole sequence's byte length is the offset past its last character.
pub proof fn lemma_byte_len_offset(s: Seq<char>)
    ensures
        byte_len(s) == byte_offset(s, s.len() as int),
{
    assert(s.take(s.len() as int) =~= s);
}

/// Replacing a pattern by a shorter one never lengthens the text, and
/// shortens it when the pattern occurs.
pub proof fn lemma_replace_all_len(s: Seq<char>, from: Seq<char>, to: Seq<char>)
    requires
        from.len() > 0,
        to.len() <= from.len(),
    ensures
        replace_all(s, from, to).len() <= s.len(),
        find(s, from) is Some && to.len() < from.len() ==> replace_all(s, from, to).len() < s.len(),
    decreases s.len(),
{
    lemma_find_from(s, from, 0);
    match find(s, from) {
        None => {},
        Some(i) => {
            lemma_replace_all_len(s.skip(i + from.len()), from, to);
        },
    }
}

/// Replacing every `a` by text without `c` leaves a `c` only where the
/// text had one, and none at all when `c` is `a`.
pub proof fn lemma_replace_char_absent(s: Seq<char>, a: char, to: Seq<char>, c: char)
    requires
        !to.contains(c),
    ensures
        replace_all(s, seq![a], to).contains(c) ==> s.contains(c) && c != a,
    decreases s.len(),
{
    let p = seq![a];
    lemma_find_from(s, p, 0);
    assert forall|j: int| 0 <= j < s.len() && s[j] == a implies #[trigger] occurs_at(s, p, j) by {
        assert(s.subrange(j, j + 1) =~= p);
    }
    let r = replace_all(s, p, to);
    match find(s, p) {
        None => {
            assert(r == s);
            if r.contains(c) {
                let m = choose|m: int| 0 <= m < r.len() && r[m] == c;
                assert(!occurs_at(s, p, m));
                assert(s.contains(c));
            }
        },
        Some(i) => {
            let rest = s.skip(i + 1);
            lemma_replace_char_absent(rest, a, to, c);
            let tail = replace_all(rest, p, to);
            assert(r == s.take(i) + to + tail);
            if r.contains(c) {
                let m = choose|m: int| 0 <= m < r.len() && r[m] == c;
                if m < i {
                    assert(s[m] == c);
                    assert(!occurs_at(s, p, m));
                    assert(s.contains(c));
                } else if m < i + to.len() {
                    assert(to[m - i] == c);
                } else {
                    assert(tail[m - i - to.len()] == c);
                    assert(tail.contains(c));
                    let k = choose|k: int| 0 <= k < rest.len() && rest[k] == c;
                    assert(s[k + i + 1] == c);
                    assert(s.contains(c));
                }
            }
        },
    }
}

// ---------------------------------------------------------------------------
// Executable helpers
// ---------------------------------------------------------------------------

/// Appends one character to a `String` (`String::push`).
#[verifier::external_body]
pub(crate) fn string_push(s: &mut String, c: char)
    ensures
        final(s)@ == old(s)@.push(c),
{
    s.push(c)
}

/// The characters of a string slice, in order.
pub fn str_to_chars(s: &str) -> (v: Vec<char>)
    ensures
        v@ == s@,
{
    let mut v: Vec<char> = Vec::new();
    for c in it: s.chars()
        invariant
            v@ == it.seq().take(it.index() as int),
    {
        v.push(c);
    }
    proof {
        broadcast use vstd::string::group_string_axioms;
    }
    assert(v@ =~= s@);
    v
}

/// Builds a `String` holding exactly the given characters.
pub fn chars_to_string(v: &Vec<char>) -> (s: String)
    ensures
        s@ == v@,
{
    let mut s = String::new();
    let mut i: usize = 0;
    while i < v.len()
        invariant
            i <= v.len(),
            s@ == v@.take(i as int),
        decreases v.len() - i,
    {
        string_push(&mut s, v[i]);
        assert(v@.take(i as int).push(v@[i as int]) =~= v@.take(i + 1));
        i += 1;
    }
    assert(v@.take(v.len() as int) =~= v@);
    s
}

/// Whether `c` is Unicode white space (`char::is_whitespace`).
pub fn is_whitespace(c: char) -> (b: bool)
    ensures
        b == is_ws(c),
{
    ('\u{9}' <= c && c <= '\u{d}') || c == ' ' || c == '\u{85}' || c == '\u{a0}' || c
        == '\u{1680}' || ('\u{2000}' <= c && c <= '\u{200a}') || c == '\u{2028}' || c
        == '\u{2029}' || c == '\u{202f}' || c == '\u{205f}' || c == '\u{3000}'
}

/// Whether `p` occurs in `s` at index `i`.
pub fn matches_at(s: &Vec<char>, p: &Vec<char>, i: usize) -> (b: bool)
    ensures
        b == occurs_at(s@, p@, i as int),
{
    if i > s.len() || p.len() > s.len() - i {
        return false;
    }
    let mut k: usize = 0;
    while k < p.len()
        invariant
            k <= p.len(),
            i + p.len() <= s.len(),
            forall|j: int| 0 <= j < k ==> s@[i + j] == p@[j],
        decreases p.len() - k,
    {
        if s[i + k] != p[k] {
            assert(s@.subrange(i as int, i + p.len())[k as int] != p@[k as int]);
            return false;
        }
        k += 1;
    }
    assert(s@.subrange(i as int, i + p.len()) =~= p@);
    true
}

/// Leftmost occurrence of `p` in `s` at or after `from`.
pub fn find_at(s: &Vec<char>, p: &Vec<char>, from: usize) -> (r: Option<usize>)
    ensures
        match r {
            Some(k) => find_from(s@, p@, from as int) == Some(k as int),
            None => find_from(s@, p@, from as int) is None,
        },
{
    let mut i = from;
    proof { lemma_find_from(s@, p@, from as int); }
    while i < s.len()
        invariant
            from <= i,
            find_from(s@, p@, from as int) == find_from(s@, p@, i as int),
        decreases s.len() - i,
    {
        if matches_at(s, p, i) {
            assert(find_from(s@, p@, i as int) == Some(i as int));
            return Some(i);
        }
        if p.len() > s.len() - i {
            return None;
        }
        i += 1;
    }
    if matches_at(s, p, i) {
        assert(find_from(s@, p@, i as int) == Some(i as int));
        Some(i)
    } else {
        proof { lemma_find_from(s@, p@, i as int); }
        None
    }
}

/// The characters `s[lo..hi]`.
pub fn slice(s: &Vec<char>, lo: usize, hi: usize) -> (r: Vec<char>)
    requires
        lo <= hi <= s.len(),
    ensures
        r@ == s@.subrange(lo as int, hi as int),
{
    let mut r: Vec<char> = Vec::new();
    let mut i = lo;
    while i < hi
        invariant
            lo <= i <= hi <= s.len(),
            r@ == s@.subrange(lo as int, i as int),
        decreases hi - i,
    {
        r.push(s[i]);
        assert(s@.subrange(lo as int, i as int).push(s@[i as int]) =~= s@.subrange(lo as int, i + 1));
        i += 1;
    }
    r
}

/// Appends `s[lo..hi]` to `out`.
pub fn push_range(out: &mut Vec<char>, s: &Vec<char>, lo: usize, hi: usize)
    requires
        lo <= hi <= s.len(),
    ensures
        final(out)@ == old(out)@ + s@.subrange(lo as int, hi as int),
{
    let mut i = lo;
    while i < hi
        invariant
            lo <= i <= hi <= s.len(),
            out@ == old(out)@ + s@.subrange(lo as int, i as int),
        decreases hi - i,
    {
        out.push(s[i]);
        assert(s@.subrange(lo as int, i as int).push(s@[i as int]) =~= s@.subrange(lo as int, i + 1));
        i += 1;
    }
}

/// Appends all of `s` to `out`.
pub fn push_all(out: &mut Vec<char>, s: &Vec<char>)
    ensures
        final(out)@ == old(out)@ + s@,
{
    push_range(out, s, 0, s.len());
    assert(s@.subrange(0, s@.len() as int) =~= s@);
}


/// Rightmost occurrence of `p` in `s`.
pub fn rfind_chars(s: &Vec<char>, p: &Vec<char>) -> (r: Option<usize>)
    ensures
        match r {
            Some(k) => rfind(s@, p@) == Some(k as int),
            None => rfind(s@, p@) is None,
        },
{
    if matches_at(s, p, s.len()) {
        return Some(s.len());
    }
    let mut i = s.len();
    assert(rfind(s@, p@) == rfind_before(s@, p@, i as int));
    while i > 0
        invariant
            i <= s.len(),
            rfind(s@, p@) == rfind_before(s@, p@, i as int),
        decreases i,
    {
        if matches_at(s, p, i - 1) {
            return Some(i - 1);
        }
        i -= 1;
    }
    None
}

/// `s` with every occurrence of `from` replaced by `to` (`str::replace`).
pub fn replace_chars(s: &Vec<char>, from: &Vec<char>, to: &Vec<char>) -> (r: Vec<char>)
    requires
        from@.len() > 0,
    ensures
        r@ == replace_all(s@, from@, to@),
{
    let mut out: Vec<char> = Vec::new();
    let mut pos: usize = 0;
    assert(s@.skip(0) =~= s@);
    loop
        invariant
            pos <= s.len(),
            from@.len() > 0,
            replace_all(s@, from@, to@) == out@ + replace_all(s@.skip(pos as int), from@, to@),
        decreases s.len() - pos,
    {
        let ghost rem = s@.skip(pos as int);
        proof {
            lemma_find_skip(s@, from@, pos as int);
            lemma_find_from(s@, from@, pos as int);
        }
        match find_at(s, from, pos) {
            None => {
                push_range(&mut out, s, pos, s.len());
                assert(rem =~= s@.subrange(pos as int, s@.len() as int));
                return out;
            },
            Some(k) => {
                push_range(&mut out, s, pos, k);
                push_all(&mut out, to);
                assert(rem.take(k - pos) =~= s@.subrange(pos as int, k as int));
                assert(rem.skip(k - pos + from@.len()) =~= s@.skip(k + from@.len()));
                pos = k + from.len();
            },
        }
    }
}

/// `s` without leading white space.
pub fn trim_start_chars(s: &Vec<char>) -> (r: Vec<char>)
    ensures
        r@ == trim_start(s@),
{
    let mut k: usize = 0;
    while k < s.len() && is_whitespace(s[k])
        invariant
            k <= s.len(),
            forall|j: int| 0 <= j < k ==> is_ws(#[trigger] s@[j]),
        decreases s.len() - k,
    {
        k += 1;
    }
    proof { lemma_trim_start_at(s@, k as int); }
    slice(s, k, s.len())
}

/// `s` without trailing white space.
pub fn trim_end_chars(s: &Vec<char>) -> (r: Vec<char>)
    ensures
        r@ == trim_end(s@),
{
    let mut k: usize = s.len();
    while k > 0 && is_whitespace(s[k - 1])
        invariant
            k <= s.len(),
            forall|j: int| k <= j < s.len() ==> is_ws(#[trigger] s@[j]),
        decreases k,
    {
        k -= 1;
    }
    proof { lemma_trim_end_at(s@, k as int); }
    slice(s, 0, k)
}

/// `s` without leading and trailing white space.
pub fn trim_chars(s: &Vec<char>) -> (r: Vec<char>)
    ensures
        r@ == trim(s@),
{
    let t = trim_start_chars(s);
    trim_end_chars(&t)
}

/// Number of UTF-8 bytes of `c` (`char::len_utf8`).
pub fn utf8_width_of(c: char) -> (w: usize)
    ensures
        w as int == utf8_width(c),
        1 <= w <= 4,
{
    if (c as u32) < 0x80 {
        1
    } else if (c as u32) < 0x800 {
        2
    } else if (c as u32) < 0x10000 {
        3
    } else {
        4
    }
}

/// The character index starting at byte offset `b`, if `b` is a boundary.
pub fn char_index_at_byte(s: &Vec<char>, b: usize) -> (r: Option<usize>)
    requires
        b <= usize::MAX - 4,
    ensures
        match r {
            Some(k) => char_index_at(s@, b as int) == Some(k as int) && k <= s.len(),
            None => char_index_at(s@, b as int) is None,
        },
{
    let mut k: usize = 0;
    let mut off: usize = 0;
    assert(s@.take(0) =~= Seq::<char>::empty());
    while k < s.len() && off < b
        invariant
            k <= s.len(),
            off as int == byte_offset(s@, k as int),
            off <= b + 4,
            b <= usize::MAX - 4,
            char_index_at(s@, b as int) == char_index_at_from(s@, b as int, k as int),
        decreases s.len() - k,
    {
        proof { lemma_byte_offset_step(s@, k as int); }
        off = off + utf8_width_of(s[k]);
        k += 1;
    }
    if off == b {
        Some(k)
    } else if off > b {
        proof { lemma_char_index_past(s@, b as int, k as int); }
        None
    } else {
        assert(char_index_at_from(s@, b as int, k as int + 1) is None);
        None
    }
}

/// Whether the UTF-8 encoding of `s` is longer than `n` bytes.
pub fn byte_len_exceeds(s: &Vec<char>, n: usize) -> (r: bool)
    requires
        n <= usize::MAX - 4,
    ensures
        r == (byte_len(s@) > n),
{
    let mut k: usize = 0;
    let mut off: usize = 0;
    assert(s@.take(0) =~= Seq::<char>::empty());
    while k < s.len() && off <= n
        invariant
            k <= s.len(),
            off as int == byte_offset(s@, k as int),
            off <= n + 4,
            n <= usize::MAX - 4,
        decreases s.len() - k,
    {
        proof { lemma_byte_offset_step(s@, k as int); }
        off = off + utf8_width_of(s[k]);
        k += 1;
    }
    proof {
        lemma_byte_len_offset(s@);
        lemma_byte_offset_mono(s@, k as int, s@.len() as int);
    }
    off > n
}

/// Whether two character vectors are equal.
pub fn vec_eq(a: &Vec<char>, b: &Vec<char>) -> (r: bool)
    ensures
        r == (a@ == b@),
{
    if a.len() != b.len() {
        return false;
    }
    let r = matches_at(a, b, 0);
    proof {
        assert(a@.subrange(0, b@.len() as int) =~= a@);
    }
    r
}

/// Whether `s` begins with `p`.
pub fn has_prefix(s: &Vec<char>, p: &Vec<char>) -> (b: bool)
    ensures
        b == starts_with(s@, p@),
{
    let b = matches_at(s, p, 0);
    proof {
        if b {
            assert(s@.take(p@.len() as int) =~= s@.subrange(0, p@.len() as int));
        } else if starts_with(s@, p@) {
            assert(s@.take(p@.len() as int) =~= s@.subrange(0, p@.len() as int));
        }
    }
    b
}

/// Whether `s` ends with `p`.
pub fn has_suffix(s: &Vec<char>, p: &Vec<char>) -> (b: bool)
    ensures
        b == ends_with(s@, p@),
{
    if p.len() > s.len() {
        return false;
    }
    let b = matches_at(s, p, s.len() - p.len());
    proof {
        assert(s@.skip(s@.len() - p@.len()) =~= s@.subrange(s@.len() - p@.len(), s@.len() as int));
    }
    b
}

/// Whether slicing `s` at `n` bytes past the start of character `i` stays
/// on a character boundary (or past the end).
pub fn cut_ok_after(s: &Vec<char>, i: usize, n: usize) -> (r: bool)
    requires
        i <= s.len(),
        n <= 8,
    ensures
        r == cut_ok(s@, byte_offset(s@, i as int) + n),
{
    let ghost off = byte_offset(s@, i as int);
    let mut j = i;
    let mut w: usize = 0;
    while j < s.len() && w < n
        invariant
            i <= j <= s.len(),
            n <= 8,
            w <= n + 4,
            off == byte_offset(s@, i as int),
            byte_offset(s@, j as int) == off + w,
            j == i ==> w == 0,
            j > i ==> byte_offset(s@, j - 1) < off + n,
        decreases s.len() - j,
    {
        proof { lemma_byte_offset_step(s@, j as int); }
        w = w + utf8_width_of(s[j]);
        j += 1;
    }
    proof {
        lemma_byte_len_offset(s@);
        lemma_byte_offset_mono(s@, j as int, s@.len() as int);
    }
    if w == n {
        proof { lemma_char_index_at_offset(s@, j as int); }
        true
    } else if w < n {
        // Ran out of characters: the cut lies past the end.
        true
    } else {
        proof {
            // The character before `j` starts before the cut, `j` after it.
            lemma_no_char_between(s@, j as int, off + n);
        }
        false
    }
}

/// A character index is found at its own byte offset.
pub proof fn lemma_char_index_at_offset(s: Seq<char>, k: int)
    requires
        0 <= k <= s.len(),
    ensures
        char_index_at(s, byte_offset(s, k)) == Some(k),
{
    lemma_char_index_at_offset_from(s, k, 0);
}

proof fn lemma_char_index_at_offset_from(s: Seq<char>, k: int, k0: int)
    requires
        0 <= k0 <= k <= s.len(),
    ensures
        char_index_at_from(s, byte_offset(s, k), k0) == Some(k),
    decreases k - k0,
{
    if k0 < k {
        lemma_byte_offset_mono(s, k0, k);
        lemma_char_index_at_offset_from(s, k, k0 + 1);
    }
}

/// No character starts strictly between the starts of characters `j - 1`
/// and `j`.
proof fn lemma_no_char_between(s: Seq<char>, j: int, b: int)
    requires
        0 < j <= s.len(),
        byte_offset(s, j - 1) < b < byte_offset(s, j),
    ensures
        char_index_at(s, b) is None,
{
    lemma_no_char_between_from(s, j, b, 0);
}

proof fn lemma_no_char_between_from(s: Seq<char>, j: int, b: int, k0: int)
    requires
        0 < j <= s.len(),
        0 <= k0,
        byte_offset(s, j - 1) < b < byte_offset(s, j),
    ensures
        char_index_at_from(s, b, k0) is None,
    decreases s.len() + 1 - k0,
{
    if k0 <= s.len() {
        if k0 < j {
            lemma_byte_offset_mono(s, k0, j - 1);
        } else {
            lemma_byte_offset_mono(s, j, k0);
        }
        lemma_no_char_between_from(s, j, b, k0 + 1);
    }
}

} // verus!
