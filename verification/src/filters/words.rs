//! `newline_to_br`, `normalize_whitespace` and `number_of_words`.
use vstd::prelude::*;
use crate::text::{
    chars_to_string, is_whitespace, is_ws, replace_all, replace_chars, str_to_chars, vec_eq,
};

verus! {

// ---------------------------------------------------------------------------
// newline_to_br
// ---------------------------------------------------------------------------

/// `\r\n` folded to `\n`, then every `\n` written as `<br />\n`.
pub open spec fn newlines_to_br(s: Seq<char>) -> Seq<char> {
    replace_all(
        replace_all(s, seq!['\r', '\n'], seq!['\n']),
        seq!['\n'],
        seq!['<', 'b', 'r', ' ', '/', '>', '\n'],
    )
}

/// The `newline_to_br` filter.
pub struct NewlineToBr;

impl NewlineToBr {
    /// Converts each line break of the rendered input to `<br />` followed by
    /// the line break; a `\r\n` pair counts as one line break.
    pub fn evaluate(&self, input: &str) -> (r: String)
        ensures
            r@ == newlines_to_br(input@),
    {
        let s = str_to_chars(input);
        let crlf = vec!['\r', '\n'];
        let lf = vec!['\n'];
        let br = vec!['<', 'b', 'r', ' ', '/', '>', '\n'];
        let folded = replace_chars(&s, &crlf, &lf);
        let out = replace_chars(&folded, &lf, &br);
        assert(crlf@ =~= seq!['\r', '\n']);
        assert(lf@ =~= seq!['\n']);
        assert(br@ =~= seq!['<', 'b', 'r', ' ', '/', '>', '\n']);
        chars_to_string(&out)
    }
}

// ---------------------------------------------------------------------------
// normalize_whitespace
// ---------------------------------------------------------------------------

/// Index `i` of `s` begins a word: it is not white space and either opens the
/// string or follows white space.
pub open spec fn starts_word(s: Seq<char>, i: int) -> bool {
    &&& 0 <= i < s.len()
    &&& !is_ws(s[i])
    &&& (i == 0 || is_ws(s[i - 1]))
}

/// The white-space separated words of `s`, joined by single spaces
/// (`split_whitespace` then `join(" ")`).
pub open spec fn normalized(s: Seq<char>) -> Seq<char>
    decreases s.len(),
{
    if s.len() == 0 {
        Seq::empty()
    } else {
        let r = normalized(s.drop_last());
        let i = s.len() - 1;
        if is_ws(s[i]) {
            r
        } else if starts_word(s, i) && r.len() > 0 {
            r + seq![' ', s[i]]
        } else {
            r.push(s[i])
        }
    }
}

/// Whether a character is kept by `visible`: it is not white space.
pub open spec fn non_blank() -> spec_fn(char) -> bool {
    |c: char| !is_ws(c)
}

/// The characters of a text other than white space, in order.
pub open spec fn visible(s: Seq<char>) -> Seq<char> {
    s.filter(non_blank())
}

/// The only white space is single spaces, each between two other characters.
pub open spec fn single_spaced(r: Seq<char>) -> bool {
    forall|i: int|
        0 <= i < r.len() && is_ws(#[trigger] r[i]) ==> r[i] == ' ' && 0 < i < r.len() - 1 && !is_ws(
            r[i - 1],
        ) && !is_ws(r[i + 1])
}

/// `normalize_whitespace` keeps every other character in order, and leaves
/// no white space but single spaces between words: none at either end,
/// never two in a row.
pub proof fn lemma_normalized_whitespace(s: Seq<char>)
    ensures
        single_spaced(normalized(s)),
        visible(normalized(s)) == visible(s),
    decreases s.len(),
{
    reveal_with_fuel(Seq::<char>::filter, 2);
    let pred = non_blank();
    if s.len() == 0 {
        assert(visible(normalized(s)) =~= visible(s));
    } else {
        let init = s.drop_last();
        let c = s.last();
        lemma_normalized_whitespace(init);
        let rp = normalized(init);
        let r = normalized(s);
        assert(visible(s) == if pred(c) { visible(init).push(c) } else { visible(init) });
        if rp.len() > 0 {
            assert(!is_ws(rp[rp.len() - 1]));
        }
        if is_ws(c) {
        } else if starts_word(s, s.len() - 1) && rp.len() > 0 {
            let tail = seq![' ', c];
            assert(r == rp + tail);
            assert(is_ws(' '));
            assert(tail.drop_last() =~= seq![' ']);
            assert(seq![' '].drop_last() =~= Seq::<char>::empty());
            assert(Seq::<char>::empty().filter(pred) =~= Seq::<char>::empty());
            assert(seq![' '].filter(pred) =~= Seq::<char>::empty());
            assert(tail.filter(pred) =~= seq![c]);
            Seq::filter_distributes_over_add(rp, tail, pred);
            assert(visible(r) =~= visible(rp).push(c));
            assert forall|i: int| 0 <= i < r.len() && is_ws(#[trigger] r[i]) implies r[i] == ' ' && 0 < i
                < r.len() - 1 && !is_ws(r[i - 1]) && !is_ws(r[i + 1]) by {
                if i < rp.len() {
                    assert(r[i] == rp[i]);
                    assert(r[i - 1] == rp[i - 1]);
                    assert(r[i + 1] == rp[i + 1]);
                } else if i == rp.len() {
                    assert(r[i - 1] == rp[rp.len() - 1]);
                    assert(r[i + 1] == c);
                } else {
                    assert(r[i] == c);
                }
            }
        } else {
            assert(r == rp.push(c));
            assert(r.drop_last() =~= rp);
            assert(visible(r) =~= visible(rp).push(c));
            assert forall|i: int| 0 <= i < r.len() && is_ws(#[trigger] r[i]) implies r[i] == ' ' && 0 < i
                < r.len() - 1 && !is_ws(r[i - 1]) && !is_ws(r[i + 1]) by {
                if i < rp.len() {
                    assert(r[i] == rp[i]);
                    assert(r[i - 1] == rp[i - 1]);
                    assert(r[i + 1] == rp[i + 1]);
                }
            }
        }
    }
}

/// The `normalize_whitespace` filter.
pub struct NormalizeWhitespace;

impl NormalizeWhitespace {
    /// Collapses every run of white space to one space and drops it at both ends.
    pub fn evaluate(&self, input: &str) -> (r: String)
        ensures
            r@ == normalized(input@),
    {
        let s = str_to_chars(input);
        let mut out: Vec<char> = Vec::new();
        let mut i: usize = 0;
        while i < s.len()
            invariant
                i <= s.len(),
                out@ == normalized(s@.take(i as int)),
            decreases s.len() - i,
        {
            let ghost t = s@.take(i + 1);
            assert(t.drop_last() =~= s@.take(i as int));
            let c = s[i];
            if is_whitespace(c) {
            } else if (i == 0 || is_whitespace(s[i - 1])) && out.len() > 0 {
                out.push(' ');
                out.push(c);
            } else {
                out.push(c);
            }
            assert(out@ =~= normalized(t));
            i += 1;
        }
        assert(s@.take(s.len() as int) =~= s@);
        chars_to_string(&out)
    }
}

// ---------------------------------------------------------------------------
// number_of_words
// ---------------------------------------------------------------------------

/// CJK ideographs, kana and Hangul syllables: each counts as a word of its own.
pub open spec fn is_cjk(c: char) -> bool {
    ||| ('\u{4E00}' <= c && c <= '\u{9FFF}')
    ||| ('\u{3400}' <= c && c <= '\u{4DBF}')
    ||| ('\u{F900}' <= c && c <= '\u{FAFF}')
    ||| ('\u{3040}' <= c && c <= '\u{309F}')
    ||| ('\u{30A0}' <= c && c <= '\u{30FF}')
    ||| ('\u{AC00}' <= c && c <= '\u{D7AF}')
    ||| ('\u{20000}' <= c && c <= '\u{2A6DF}')
}

/// Number of white-space separated words (`split_whitespace().count()`).
pub open spec fn word_count(s: Seq<char>) -> nat
    decreases s.len(),
{
    if s.len() == 0 {
        0
    } else {
        word_count(s.drop_last()) + if starts_word(s, s.len() - 1) { 1nat } else { 0nat }
    }
}

proof fn lemma_nothing_visible(s: Seq<char>)
    requires
        visible(s).len() == 0,
    ensures
        forall|i: int| 0 <= i < s.len() ==> is_ws(#[trigger] s[i]),
{
    assert forall|i: int| 0 <= i < s.len() implies is_ws(#[trigger] s[i]) by {
        if !is_ws(s[i]) {
            s.lemma_filter_contains(non_blank(), i);
        }
    }
}

/// Normalizing white space keeps the number of words.
pub proof fn lemma_normalized_word_count(s: Seq<char>)
    ensures
        word_count(normalized(s)) == word_count(s),
    decreases s.len(),
{
    if s.len() > 0 {
        let init = s.drop_last();
        let c = s.last();
        let n = s.len() - 1;
        lemma_normalized_word_count(init);
        lemma_normalized_whitespace(init);
        let rp = normalized(init);
        let r = normalized(s);
        if is_ws(c) {
            assert(r == rp);
            assert(!starts_word(s, n));
            assert(word_count(s) == word_count(init));
        } else if starts_word(s, n) && rp.len() > 0 {
            let mid = rp.push(' ');
            assert(r == rp + seq![' ', c]);
            assert(r.drop_last() =~= mid);
            assert(mid.drop_last() =~= rp);
            assert(!starts_word(mid, mid.len() - 1));
            assert(starts_word(r, r.len() - 1));
            assert(word_count(mid) == word_count(rp));
            assert(word_count(r) == word_count(mid) + 1);
            assert(word_count(s) == word_count(init) + 1);
        } else {
            assert(r == rp.push(c));
            assert(r.drop_last() =~= rp);
            if rp.len() == 0 {
                assert(visible(rp) =~= Seq::<char>::empty()) by {
                    reveal_with_fuel(Seq::<char>::filter, 1);
                }
                lemma_nothing_visible(init);
                if n > 0 {
                    assert(is_ws(init[n - 1]));
                }
                assert(starts_word(s, n));
                assert(starts_word(r, r.len() - 1));
                assert(word_count(r) == word_count(rp) + 1);
                assert(word_count(s) == word_count(init) + 1);
            } else {
                assert(!is_ws(rp[rp.len() - 1]));
                assert(!starts_word(r, r.len() - 1));
                assert(!starts_word(s, n));
                assert(word_count(r) == word_count(rp));
                assert(word_count(s) == word_count(init));
            }
        }
    }
}

/// Index `i` begins a run of characters that are neither white space nor CJK.
pub open spec fn starts_plain_run(s: Seq<char>, i: int) -> bool {
    &&& 0 <= i < s.len()
    &&& !is_ws(s[i])
    &&& !is_cjk(s[i])
    &&& (i == 0 || is_ws(s[i - 1]) || is_cjk(s[i - 1]))
}

/// CJK-aware word count: every CJK character, plus every maximal run of other
/// non-white-space characters.
pub open spec fn cjk_word_count(s: Seq<char>) -> nat
    decreases s.len(),
{
    if s.len() == 0 {
        0
    } else {
        let i = s.len() - 1;
        cjk_word_count(s.drop_last()) + if is_cjk(s[i]) || starts_plain_run(s, i) {
            1nat
        } else {
            0nat
        }
    }
}

/// CJK-aware counting adds up across a break: when `a` ends with white
/// space or a CJK character (or is empty), the words of `a + b` are those of
/// `a` and those of `b`. So a run of other characters right after a CJK
/// character counts as a word of its own (`我用Rust` is three words).
pub proof fn lemma_cjk_word_count_splits(a: Seq<char>, b: Seq<char>)
    requires
        a.len() == 0 || is_ws(a.last()) || is_cjk(a.last()),
    ensures
        cjk_word_count(a + b) == cjk_word_count(a) + cjk_word_count(b),
    decreases b.len(),
{
    if b.len() == 0 {
        assert(a + b =~= a);
    } else {
        let b0 = b.drop_last();
        lemma_cjk_word_count_splits(a, b0);
        let s = a + b;
        let i = s.len() - 1;
        let j = b.len() - 1;
        assert(s.drop_last() =~= a + b0);
        assert(s[i] == b[j]);
        if j > 0 {
            assert(s[i - 1] == b[j - 1]);
        } else if a.len() > 0 {
            assert(s[i - 1] == a.last());
        }
        assert(starts_plain_run(s, i) == starts_plain_run(b, j));
    }
}

/// The counting mode names that select CJK-aware counting.
pub open spec fn is_cjk_mode(m: Seq<char>) -> bool {
    m == seq!['a', 'u', 't', 'o'] || m == seq!['c', 'j', 'k']
}

pub fn is_cjk_char(c: char) -> (b: bool)
    ensures
        b == is_cjk(c),
{
    ('\u{4E00}' <= c && c <= '\u{9FFF}') || ('\u{3400}' <= c && c <= '\u{4DBF}') || ('\u{F900}'
        <= c && c <= '\u{FAFF}') || ('\u{3040}' <= c && c <= '\u{309F}') || ('\u{30A0}' <= c
        && c <= '\u{30FF}') || ('\u{AC00}' <= c && c <= '\u{D7AF}') || ('\u{20000}' <= c && c
        <= '\u{2A6DF}')
}

/// Word count by white space.
pub fn count_words(s: &Vec<char>) -> (n: usize)
    ensures
        n == word_count(s@),
{
    let mut n: usize = 0;
    let mut i: usize = 0;
    while i < s.len()
        invariant
            i <= s.len(),
            n == word_count(s@.take(i as int)),
            n <= i,
        decreases s.len() - i,
    {
        let ghost t = s@.take(i + 1);
        assert(t.drop_last() =~= s@.take(i as int));
        if !is_whitespace(s[i]) && (i == 0 || is_whitespace(s[i - 1])) {
            n += 1;
        }
        i += 1;
    }
    assert(s@.take(s.len() as int) =~= s@);
    n
}

/// Word count in which each CJK character is a word.
pub fn count_words_cjk(s: &Vec<char>) -> (n: usize)
    ensures
        n == cjk_word_count(s@),
{
    let mut n: usize = 0;
    let mut i: usize = 0;
    while i < s.len()
        invariant
            i <= s.len(),
            n == cjk_word_count(s@.take(i as int)),
            n <= i,
        decreases s.len() - i,
    {
        let ghost t = s@.take(i + 1);
        assert(t.drop_last() =~= s@.take(i as int));
        let c = s[i];
        if is_cjk_char(c) {
            n += 1;
        } else if !is_whitespace(c) && (i == 0 || is_whitespace(s[i - 1]) || is_cjk_char(
            s[i - 1],
        )) {
            n += 1;
        }
        i += 1;
    }
    assert(s@.take(s.len() as int) =~= s@);
    n
}

/// The `number_of_words` filter.
pub struct NumberOfWords;

impl NumberOfWords {
    /// Counts the words of the rendered input; the mode `auto` or `cjk` counts
    /// each CJK character as a word, any other mode or none counts by white space.
    pub fn evaluate(&self, input: &str, mode: Option<&str>) -> (n: usize)
        ensures
            n == (match mode {
                Some(m) => if is_cjk_mode(m@) {
                    cjk_word_count(input@)
                } else {
                    word_count(input@)
                },
                None => word_count(input@),
            }),
    {
        let s = str_to_chars(input);
        let use_cjk = match mode {
            Some(m) => {
                let mv = str_to_chars(m);
                let auto = vec!['a', 'u', 't', 'o'];
                let cjk = vec!['c', 'j', 'k'];
                assert(auto@ =~= seq!['a', 'u', 't', 'o']);
                assert(cjk@ =~= seq!['c', 'j', 'k']);
                vec_eq(&mv, &auto) || vec_eq(&mv, &cjk)
            },
            None => false,
        };
        if use_cjk {
            count_words_cjk(&s)
        } else {
            count_words(&s)
        }
    }
}

} // verus!
