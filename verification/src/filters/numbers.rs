//! `number_with_delimiter` and the integer arithmetic of `times`, `plus`
//! and `minus`.
use vstd::prelude::*;
use crate::text::{
    chars_to_string, contains, find, find_at, find_from, lemma_find_from, lemma_find_from_unique, occurs_at, push_all,
    replace_all, slice, str_to_chars,
};
use crate::value::{SValue, Value};

verus! {

// ---------------------------------------------------------------------------
// number_with_delimiter
// ---------------------------------------------------------------------------

pub open spec fn is_digit(c: char) -> bool {
    '0' <= c && c <= '9'
}

/// Number of consecutive ASCII digits of `s` starting at index `j`.
pub open spec fn digit_run(s: Seq<char>, j: int) -> nat
    decreases s.len() - j,
{
    if 0 <= j < s.len() && is_digit(s[j]) {
        1 + digit_run(s, j + 1)
    } else {
        0
    }
}

/// 1 when `s` opens with a sign, else 0.
pub open spec fn sign_len(s: Seq<char>) -> int {
    if s.len() > 0 && (s[0] == '+' || s[0] == '-') {
        1
    } else {
        0
    }
}

/// A delimiter follows index `i`: it holds a digit past the sign, and the run
/// of digits right after it has a length that is a positive multiple of three.
pub open spec fn delimiter_after(s: Seq<char>, i: int) -> bool {
    &&& sign_len(s) <= i < s.len()
    &&& is_digit(s[i])
    &&& digit_run(s, i + 1) > 0
    &&& digit_run(s, i + 1) % 3 == 0
}

/// The first `k` characters of `s`, each followed by `d` where a delimiter goes.
pub open spec fn grouped_prefix(s: Seq<char>, d: Seq<char>, k: int) -> Seq<char>
    decreases k,
{
    if k <= 0 {
        Seq::empty()
    } else {
        grouped_prefix(s, d, k - 1) + seq![s[k - 1]] + if delimiter_after(s, k - 1) {
            d
        } else {
            Seq::empty()
        }
    }
}

/// `s` with `d` between groups of three digits.
pub open spec fn grouped(s: Seq<char>, d: Seq<char>) -> Seq<char> {
    grouped_prefix(s, d, s.len() as int)
}

/// The number split at the first `sep`; the integer part grouped, the rest kept.
pub open spec fn with_delimiter(n: Seq<char>, d: Seq<char>, sep: Seq<char>) -> Seq<char> {
    match find(n, sep) {
        Some(i) => grouped(n.take(i), d) + sep + n.skip(i + sep.len()),
        None => grouped(n, d),
    }
}

fn is_ascii_digit(c: char) -> (b: bool)
    ensures
        b == is_digit(c),
{
    '0' <= c && c <= '9'
}

/// How many of the first `k` characters of `s` a delimiter follows.
pub open spec fn delimiter_count(s: Seq<char>, k: int) -> nat
    decreases k,
{
    if k <= 0 {
        0
    } else {
        delimiter_count(s, k - 1) + if delimiter_after(s, k - 1) {
            1nat
        } else {
            0nat
        }
    }
}

/// Each delimiter adds its length to the grouped text.
proof fn lemma_grouped_prefix_len(s: Seq<char>, d: Seq<char>, k: int)
    requires
        0 <= k <= s.len(),
    ensures
        grouped_prefix(s, d, k).len() == k + delimiter_count(s, k) * d.len(),
    decreases k,
{
    let dl = d.len() as int;
    if k > 0 {
        lemma_grouped_prefix_len(s, d, k - 1);
        let c = delimiter_count(s, k - 1) as int;
        let add: int = if delimiter_after(s, k - 1) { dl } else { 0 };
        assert(grouped_prefix(s, d, k).len() == grouped_prefix(s, d, k - 1).len() + 1 + add);
        if delimiter_after(s, k - 1) {
            assert(delimiter_count(s, k) == c + 1);
            assert((c + 1) * dl == c * dl + dl) by (nonlinear_arith);
        } else {
            assert(delimiter_count(s, k) == c);
        }
    } else {
        assert(delimiter_count(s, k) == 0);
        assert(0 * dl == 0);
    }
}

/// A number: an optional sign, then only digits, at least one.
pub open spec fn plain_number(s: Seq<char>) -> bool {
    &&& s.len() > sign_len(s)
    &&& forall|i: int| sign_len(s) <= i < s.len() ==> is_digit(#[trigger] s[i])
}

proof fn lemma_digit_run_to_end(s: Seq<char>, j: int)
    requires
        plain_number(s),
        sign_len(s) <= j <= s.len(),
    ensures
        digit_run(s, j) == s.len() - j,
    decreases s.len() - j,
{
    if j < s.len() {
        lemma_digit_run_to_end(s, j + 1);
    }
}

proof fn lemma_delimiter_count_number(s: Seq<char>, k: int)
    requires
        plain_number(s),
        0 <= k < s.len(),
    ensures
        k <= sign_len(s) ==> delimiter_count(s, k) == 0,
        k >= sign_len(s) ==> delimiter_count(s, k) == (s.len() - 1 - sign_len(s)) / 3 - (s.len() - 1 - k) / 3,
    decreases k,
{
    let sl = sign_len(s);
    let l = s.len() as int;
    if k > 0 {
        lemma_delimiter_count_number(s, k - 1);
        let i = k - 1;
        if i >= sl {
            lemma_digit_run_to_end(s, i + 1);
            assert(delimiter_after(s, i) == ((l - 1 - i) % 3 == 0));
            let b = l - 1 - i;
            assert(b >= 1);
            assert(b / 3 - (b - 1) / 3 == if b % 3 == 0 { 1int } else { 0int });
        } else {
            assert(!delimiter_after(s, i));
        }
    }
}

/// Grouping a number of `n` digits (optionally signed) inserts exactly
/// `(n - 1) / 3` delimiters: `-1234567` becomes `-1,234,567`, `999` stays.
pub proof fn lemma_grouped_number_len(s: Seq<char>, d: Seq<char>)
    requires
        plain_number(s),
    ensures
        grouped(s, d).len() == s.len() + ((s.len() - sign_len(s) - 1) / 3) * d.len(),
{
    let l = s.len() as int;
    lemma_grouped_prefix_len(s, d, l);
    lemma_delimiter_count_number(s, l - 1);
    lemma_digit_run_to_end(s, l);
    assert(!delimiter_after(s, l - 1));
    if l - 1 < sign_len(s) {
    } else {
        assert(delimiter_count(s, l) == (l - 1 - sign_len(s)) / 3);
    }
}

/// The characters of `s` from index `k` on, each followed by `d` where a
/// delimiter goes (the grouping read from the left).
pub open spec fn grouped_from(s: Seq<char>, d: Seq<char>, k: int) -> Seq<char>
    decreases s.len() - k,
{
    if k < 0 || k >= s.len() {
        Seq::empty()
    } else {
        seq![s[k]] + (if delimiter_after(s, k) {
            d
        } else {
            Seq::<char>::empty()
        }) + grouped_from(s, d, k + 1)
    }
}

proof fn lemma_grouped_split(s: Seq<char>, d: Seq<char>, k: int)
    requires
        0 <= k <= s.len(),
    ensures
        grouped_prefix(s, d, k) + grouped_from(s, d, k) == grouped(s, d),
    decreases s.len() - k,
{
    if k < s.len() {
        lemma_grouped_split(s, d, k + 1);
        let dk: Seq<char> = if delimiter_after(s, k) { d } else { Seq::empty() };
        assert(grouped_prefix(s, d, k + 1) == grouped_prefix(s, d, k) + seq![s[k]] + dk);
        assert(grouped_prefix(s, d, k) + grouped_from(s, d, k) =~= grouped_prefix(s, d, k + 1) + grouped_from(
            s,
            d,
            k + 1,
        ));
    } else {
        assert(grouped_prefix(s, d, k) + Seq::<char>::empty() =~= grouped_prefix(s, d, k));
    }
}

/// The first index from `k` on that a delimiter follows.
pub open spec fn next_delimiter(s: Seq<char>, k: int) -> Option<int>
    decreases s.len() - k,
{
    if k < 0 || k >= s.len() {
        None
    } else if delimiter_after(s, k) {
        Some(k)
    } else {
        next_delimiter(s, k + 1)
    }
}

proof fn lemma_grouped_from_next(s: Seq<char>, d: Seq<char>, k: int)
    requires
        0 <= k <= s.len(),
    ensures
        match next_delimiter(s, k) {
            Some(j) => k <= j < s.len() && delimiter_after(s, j) && grouped_from(s, d, k) == s.subrange(k, j + 1)
                + d + grouped_from(s, d, j + 1),
            None => grouped_from(s, d, k) == s.skip(k),
        },
    decreases s.len() - k,
{
    if k < s.len() {
        lemma_grouped_from_next(s, d, k + 1);
        if delimiter_after(s, k) {
            assert(s.subrange(k, k + 1) =~= seq![s[k]]);
        } else {
            match next_delimiter(s, k + 1) {
                Some(j) => {
                    assert(seq![s[k]] + Seq::<char>::empty() + (s.subrange(k + 1, j + 1) + d + grouped_from(s, d, j + 1))
                        =~= s.subrange(k, j + 1) + d + grouped_from(s, d, j + 1));
                },
                None => {
                    assert(seq![s[k]] + Seq::<char>::empty() + s.skip(k + 1) =~= s.skip(k));
                },
            }
        }
    } else {
        assert(s.skip(k) =~= Seq::<char>::empty());
    }
}

proof fn lemma_grouped_from_roundtrip(s: Seq<char>, d: Seq<char>, k: int)
    requires
        d.len() > 0,
        forall|i: int| 0 <= i < d.len() ==> !is_digit(#[trigger] d[i]),
        forall|q: int| !#[trigger] occurs_at(s, d, q),
        0 <= k <= s.len(),
    ensures
        replace_all(grouped_from(s, d, k), d, Seq::empty()) == s.skip(k),
    decreases s.len() - k,
{
    let e = Seq::<char>::empty();
    lemma_grouped_from_next(s, d, k);
    match next_delimiter(s, k) {
        None => {
            let t = s.skip(k);
            lemma_find_from(t, d, 0);
            if find(t, d) is Some {
                let p = find(t, d)->0;
                assert(t.subrange(p, p + d.len()) =~= s.subrange(k + p, k + p + d.len()));
                assert(occurs_at(s, d, k + p));
            }
        },
        Some(j) => {
            let x = s.subrange(k, j + 1);
            let y = grouped_from(s, d, j + 1);
            let t = x + d + y;
            let xl = x.len() as int;
            assert(t.subrange(xl, xl + d.len()) =~= d);
            assert forall|p: int| 0 <= p < xl implies !#[trigger] occurs_at(t, d, p) by {
                if occurs_at(t, d, p) {
                    if p + d.len() <= xl {
                        assert(t.subrange(p, p + d.len()) =~= s.subrange(k + p, k + p + d.len()));
                        assert(occurs_at(s, d, k + p));
                    } else {
                        let q = xl - 1 - p;
                        assert(t.subrange(p, p + d.len())[q] == t[xl - 1]);
                        assert(t[xl - 1] == s[j]);
                        assert(is_digit(s[j]));
                        assert(!is_digit(d[q]));
                    }
                }
            }
            lemma_find_from_unique(t, d, 0, xl);
            lemma_grouped_from_roundtrip(s, d, j + 1);
            assert(t.take(xl) =~= x);
            assert(t.skip(xl + d.len()) =~= y);
            assert(x + e + s.skip(j + 1) =~= s.skip(k));
        },
    }
}

/// Removing the delimiters from a grouped text gives the text back, when the
/// delimiter holds no digit and the text does not contain it:
/// `-1,234,567` without `,` is `-1234567`.
pub proof fn lemma_grouped_roundtrip(s: Seq<char>, d: Seq<char>)
    requires
        d.len() > 0,
        forall|i: int| 0 <= i < d.len() ==> !is_digit(#[trigger] d[i]),
        !contains(s, d),
    ensures
        replace_all(grouped(s, d), d, Seq::empty()) == s,
{
    lemma_find_from(s, d, 0);
    assert forall|q: int| !#[trigger] occurs_at(s, d, q) by {
        if q < 0 {
        }
    }
    lemma_grouped_split(s, d, 0);
    assert(grouped_prefix(s, d, 0) + grouped_from(s, d, 0) =~= grouped_from(s, d, 0));
    lemma_grouped_from_roundtrip(s, d, 0);
    assert(s.skip(0) =~= s);
}

/// `s` with `d` inserted between groups of three digits.
pub fn group_thousands(s: &Vec<char>, d: &Vec<char>) -> (r: Vec<char>)
    ensures
        r@ == grouped(s@, d@),
{
    let n = s.len();
    let start: usize = if n > 0 && (s[0] == '+' || s[0] == '-') {
        1
    } else {
        0
    };
    let mut out: Vec<char> = Vec::new();
    let mut i: usize = 0;
    while i < n
        invariant
            n == s.len(),
            i <= n,
            start == sign_len(s@),
            out@ == grouped_prefix(s@, d@, i as int),
        decreases n - i,
    {
        out.push(s[i]);
        if i >= start && is_ascii_digit(s[i]) {
            let mut j = i + 1;
            while j < n && is_ascii_digit(s[j])
                invariant
                    i + 1 <= j <= n,
                    n == s.len(),
                    digit_run(s@, i + 1) == (j - (i + 1)) + digit_run(s@, j as int),
                decreases n - j,
            {
                j += 1;
            }
            let following = j - (i + 1);
            if following > 0 && following % 3 == 0 {
                push_all(&mut out, d);
            }
        }
        i += 1;
    }
    out
}

/// The `number_with_delimiter` filter.
pub struct NumberWithDelimiter;

impl NumberWithDelimiter {
    /// Groups the digits of the integer part of the rendered number with the
    /// delimiter (default `,`); the integer part ends at the first separator
    /// (default `.`), and what follows it is kept as it is.
    pub fn evaluate(&self, input: &str, delimiter: Option<&str>, separator: Option<&str>) -> (r:
        String)
        ensures
            r@ == with_delimiter(
                input@,
                match delimiter {
                    Some(x) => x@,
                    None => seq![','],
                },
                match separator {
                    Some(x) => x@,
                    None => seq!['.'],
                },
            ),
    {
        let n = str_to_chars(input);
        let d = match delimiter {
            Some(x) => str_to_chars(x),
            None => vec![','],
        };
        let sep = match separator {
            Some(x) => str_to_chars(x),
            None => vec!['.'],
        };
        proof {
            lemma_find_from(n@, sep@, 0);
        }
        let out = match find_at(&n, &sep, 0) {
            Some(i) => {
                assert(occurs_at(n@, sep@, i as int));
                assert(i + sep.len() <= n.len());
                let int_part = slice(&n, 0, i);
                let mut o = group_thousands(&int_part, &d);
                push_all(&mut o, &sep);
                let rest = slice(&n, i + sep.len(), n.len());
                push_all(&mut o, &rest);
                assert(int_part@ =~= n@.take(i as int));
                assert(rest@ =~= n@.skip(i + sep@.len()));
                o
            },
            None => group_thousands(&n, &d),
        };
        assert(d@ =~= match delimiter {
            Some(x) => x@,
            None => seq![','],
        });
        assert(sep@ =~= match separator {
            Some(x) => x@,
            None => seq!['.'],
        });
        chars_to_string(&out)
    }
}

// ---------------------------------------------------------------------------
// Integer arithmetic of the math filters
// ---------------------------------------------------------------------------

/// Value of a run of ASCII digits.
pub open spec fn digits_value(s: Seq<char>) -> int
    decreases s.len(),
{
    if s.len() == 0 {
        0
    } else {
        10 * digits_value(s.drop_last()) + (s.last() as int - '0' as int)
    }
}

pub open spec fn all_digits(s: Seq<char>) -> bool {
    forall|i: int| 0 <= i < s.len() ==> is_digit(#[trigger] s[i])
}

/// The integer `str::parse::<i64>` reads from `s`: an optional sign, then
/// one or more ASCII digits, within the range of `i64`.
pub open spec fn parsed_i64(s: Seq<char>) -> Option<int> {
    let neg = s.len() > 0 && s[0] == '-';
    let body = if s.len() > 0 && (s[0] == '+' || s[0] == '-') {
        s.drop_first()
    } else {
        s
    };
    let v = if neg {
        -digits_value(body)
    } else {
        digits_value(body)
    };
    if body.len() > 0 && all_digits(body) && i64::MIN <= v <= i64::MAX {
        Some(v)
    } else {
        None
    }
}

proof fn lemma_digit_char_value(k: nat)
    requires
        k < 10,
    ensures
        is_digit(crate::numfmt::digit_char(k)),
        crate::numfmt::digit_char(k) as int - '0' as int == k,
{
    if k == 0 {} else if k == 1 {} else if k == 2 {} else if k == 3 {} else if k == 4 {} else if k == 5 {}
    else if k == 6 {} else if k == 7 {} else if k == 8 {} else {}
}

/// The decimal text of a natural number is non-empty, all digits, and has
/// that number as its value.
pub proof fn lemma_decimal_value(n: nat)
    ensures
        crate::numfmt::decimal(n).len() > 0,
        all_digits(crate::numfmt::decimal(n)),
        digits_value(crate::numfmt::decimal(n)) == n,
    decreases n,
{
    let d = crate::numfmt::decimal(n);
    lemma_digit_char_value(n % 10);
    if n < 10 {
        assert(d.drop_last() =~= Seq::<char>::empty());
        assert(n % 10 == n);
        assert(digits_value(d.drop_last()) == 0);
        assert(d.last() == crate::numfmt::digit_char(n));
        assert(digits_value(d) == 10 * digits_value(d.drop_last()) + (d.last() as int - '0' as int));
    } else {
        lemma_decimal_value(n / 10);
        let h = crate::numfmt::decimal(n / 10);
        assert(d == h.push(crate::numfmt::digit_char(n % 10)));
        assert(d.drop_last() =~= h);
        assert(d.last() == crate::numfmt::digit_char(n % 10));
        assert(digits_value(d) == 10 * digits_value(h) + (d.last() as int - '0' as int));
        assert(10 * (n / 10) + n % 10 == n);
        assert forall|i: int| 0 <= i < d.len() implies is_digit(#[trigger] d[i]) by {
            if i < h.len() {
                assert(d[i] == h[i]);
            }
        }
    }
}

/// The text written for an integer reads back as that integer: negative
/// numbers keep their `-`, and `str::parse::<i64>` of the text gives the
/// number again.
pub proof fn lemma_int_text_reads_back(i: int)
    requires
        i64::MIN <= i <= i64::MAX,
    ensures
        parsed_i64(crate::value::int_text(i)) == Some(i),
        i < 0 <==> (crate::value::int_text(i).len() > 0 && crate::value::int_text(i)[0] == '-'),
{
    if i < 0 {
        let m = (-i) as nat;
        lemma_decimal_value(m);
        let t = crate::value::int_text(i);
        assert(t == seq!['-'] + crate::numfmt::decimal(m));
        assert(t.drop_first() =~= crate::numfmt::decimal(m));
    } else {
        lemma_decimal_value(i as nat);
        let t = crate::numfmt::decimal(i as nat);
        assert(is_digit(t[0]));
    }
}

/// The integer a scalar reads as: an integer itself, or a string that
/// parses as one.
pub open spec fn integer_of(v: SValue) -> Option<int> {
    match v {
        SValue::Int(i) => Some(i),
        SValue::Str(s) => parsed_i64(s),
        _ => None,
    }
}

/// The integer the lenient math filters use: 0 where the value reads as none.
pub open spec fn coerced_integer(v: SValue) -> int {
    match integer_of(v) {
        Some(i) => i,
        None => 0,
    }
}

proof fn lemma_digits_value_nonneg(s: Seq<char>)
    requires
        all_digits(s),
    ensures
        digits_value(s) >= 0,
    decreases s.len(),
{
    if s.len() > 0 {
        assert(is_digit(s[s.len() - 1]));
        lemma_digits_value_nonneg(s.drop_last());
    }
}

/// Parses a decimal `i64` as `str::parse` does.
pub fn parse_i64(s: &Vec<char>) -> (r: Option<i64>)
    ensures
        match r {
            Some(x) => parsed_i64(s@) == Some(x as int),
            None => parsed_i64(s@) is None,
        },
{
    let n = s.len();
    let neg = n > 0 && s[0] == '-';
    let start: usize = if n > 0 && (s[0] == '+' || s[0] == '-') {
        1
    } else {
        0
    };
    let ghost body = s@.skip(start as int);
    assert(body =~= if s@.len() > 0 && (s@[0] == '+' || s@[0] == '-') {
        s@.drop_first()
    } else {
        s@
    });
    if start >= n {
        return None;
    }
    // Accumulate the magnitude, stopping once it leaves the range of i64.
    let limit: u64 = if neg {
        9223372036854775808
    } else {
        9223372036854775807
    };
    let mut acc: u64 = 0;
    let mut i = start;
    while i < n
        invariant
            start <= i <= n,
            n == s.len(),
            body == s@.skip(start as int),
            body == (if s@.len() > 0 && (s@[0] == '+' || s@[0] == '-') {
                s@.drop_first()
            } else {
                s@
            }),
            neg == (s@.len() > 0 && s@[0] == '-'),
            limit == (if neg { 9223372036854775808u64 } else { 9223372036854775807u64 }),
            acc as int == digits_value(s@.subrange(start as int, i as int)),
            acc <= limit,
            all_digits(s@.subrange(start as int, i as int)),
        decreases n - i,
    {
        let c = s[i];
        let ghost pre = s@.subrange(start as int, i as int);
        let ghost next = s@.subrange(start as int, i + 1);
        assert(next.drop_last() =~= pre);
        if !is_ascii_digit(c) {
            assert(body[i - start] == c);
            assert(!all_digits(body));
            return None;
        }
        let dv = (c as u64) - ('0' as u64);
        if acc > (limit - dv) / 10 {
            proof {
                // Any further digits only make the magnitude larger.
                lemma_digits_prefix_grows(body, i - start + 1);
                assert(next =~= body.take(i - start + 1));
            }
            assert(digits_value(next) > limit) by (nonlinear_arith)
                requires
                    digits_value(next) == 10 * acc + dv,
                    acc > (limit - dv) / 10,
                    dv <= 9,
                    limit >= 9,
            ;
            return None;
        }
        acc = acc * 10 + dv;
        assert(all_digits(next)) by {
            assert forall|k: int| 0 <= k < next.len() implies is_digit(#[trigger] next[k]) by {
                if k < pre.len() {
                    assert(next[k] == pre[k]);
                }
            }
        }
        i += 1;
    }
    assert(s@.subrange(start as int, n as int) =~= body);
    if neg {
        if acc == 9223372036854775808 {
            Some(i64::MIN)
        } else {
            Some(-(acc as i64))
        }
    } else {
        Some(acc as i64)
    }
}

proof fn lemma_digits_prefix_grows(body: Seq<char>, k: int)
    requires
        0 <= k <= body.len(),
    ensures
        all_digits(body) ==> digits_value(body) >= digits_value(body.take(k)),
    decreases body.len() - k,
{
    if k < body.len() {
        lemma_digits_prefix_grows(body, k + 1);
        if all_digits(body) {
            assert(body.take(k + 1).drop_last() =~= body.take(k));
            assert(is_digit(body[k]));
            lemma_digits_value_nonneg(body.take(k));
            assert(all_digits(body.take(k))) by {
                assert forall|j: int| 0 <= j < k implies is_digit(#[trigger] body.take(k)[j]) by {
                    assert(body.take(k)[j] == body[j]);
                }
            }
        }
    } else {
        assert(body.take(k) =~= body);
    }
}

/// The integer the lenient math filters read from a value (0 when none).
pub fn coerce_to_i64(v: &Value) -> (r: i64)
    ensures
        r as int == coerced_integer(v.sv()),
{
    match v {
        Value::Int(i) => *i,
        Value::Str(s) => {
            let c = str_to_chars(s.as_str());
            match parse_i64(&c) {
                Some(x) => x,
                None => 0,
            }
        },
        _ => 0,
    }
}

/// The `times` filter on integers.
pub struct Times;

impl Times {
    /// The product of the two integers read from the operands.
    pub fn evaluate_integers(&self, input: &Value, operand: &Value) -> (r: i64)
        requires
            i64::MIN <= coerced_integer(input.sv()) * coerced_integer(operand.sv()) <= i64::MAX,
        ensures
            r as int == coerced_integer(input.sv()) * coerced_integer(operand.sv()),
    {
        let a = coerce_to_i64(input);
        let b = coerce_to_i64(operand);
        a * b
    }
}

/// The `plus` filter on integers.
pub struct Plus;

impl Plus {
    /// The sum of the two integers read from the operands.
    pub fn evaluate_integers(&self, input: &Value, operand: &Value) -> (r: i64)
        requires
            i64::MIN <= coerced_integer(input.sv()) + coerced_integer(operand.sv()) <= i64::MAX,
        ensures
            r as int == coerced_integer(input.sv()) + coerced_integer(operand.sv()),
    {
        let a = coerce_to_i64(input);
        let b = coerce_to_i64(operand);
        a + b
    }
}

/// The `minus` filter on integers.
pub struct Minus;

impl Minus {
    /// The difference of the two integers read from the operands.
    pub fn evaluate_integers(&self, input: &Value, operand: &Value) -> (r: i64)
        requires
            i64::MIN <= coerced_integer(input.sv()) - coerced_integer(operand.sv()) <= i64::MAX,
        ensures
            r as int == coerced_integer(input.sv()) - coerced_integer(operand.sv()),
    {
        let a = coerce_to_i64(input);
        let b = coerce_to_i64(operand);
        a - b
    }
}

} // verus!
