//! Date handling of the date filters: reading date strings, moving them to
//! the site's time zone, and formatting them the way Jekyll does.
use vstd::prelude::*;
use crate::numfmt::{decimal, u64_to_decimal};
use crate::tags::avatar::{parse_u32, parsed_u32};
use crate::outside::{
    civil_fields, format_naive, format_offset, local_offset_in_zone, naive_date_parse,
    naive_datetime_parse, naive_format, offset_datetime_parse, offset_format, parse_naive_date,
    parse_naive_datetime, parse_offset_datetime, parse_rfc3339, rfc3339_parse, time_zone_known,
    tz_from_utc, tz_known, tz_local_offset, utc_to_zone, Civil,
};
use crate::value::{rendered, SValue, Value};
use crate::text::{
    byte_len, byte_len_exceeds, chars_to_string, contains, find_at, lemma_find_from, push_all,
    str_to_chars, trim, trim_chars, utf8_width, utf8_width_of, vec_eq,
};

verus! {

// ---------------------------------------------------------------------------
// Ordinal suffixes
// ---------------------------------------------------------------------------

/// The English ordinal suffix of a day of the month: `st`, `nd`, `rd`, or
/// `th` (always `th` for 11, 12 and 13).
pub open spec fn ordinal_suffix_of(day: u32) -> Seq<char> {
    if 11 <= day && day <= 13 {
        "th"@
    } else if day % 10 == 1 {
        "st"@
    } else if day % 10 == 2 {
        "nd"@
    } else if day % 10 == 3 {
        "rd"@
    } else {
        "th"@
    }
}

/// The ordinal suffix for `day`.
pub fn ordinal_suffix(day: u32) -> (r: &'static str)
    ensures
        r@ == ordinal_suffix_of(day),
{
    if 11 <= day && day <= 13 {
        "th"
    } else if day % 10 == 1 {
        "st"
    } else if day % 10 == 2 {
        "nd"
    } else if day % 10 == 3 {
        "rd"
    } else {
        "th"
    }
}

// ---------------------------------------------------------------------------
// Naive YAML timestamps
// ---------------------------------------------------------------------------

/// The index `k` from which the characters of `t` take exactly the last `n`
/// bytes, if the last `n` bytes are whole characters.
pub open spec fn suffix_index(t: Seq<char>, n: int) -> Option<int>
    decreases t.len(),
{
    if n == 0 {
        Some(t.len() as int)
    } else if n < 0 || t.len() == 0 || utf8_width(t.last()) > n {
        None
    } else {
        suffix_index(t.drop_last(), n - utf8_width(t.last()))
    }
}

/// The last `n` bytes of `t` are whole characters and begin with a sign.
pub open spec fn tail_signed(t: Seq<char>, n: int) -> bool {
    match suffix_index(t, n) {
        Some(k) => 0 <= k < t.len() && (t[k] == '+' || t[k] == '-'),
        None => false,
    }
}

/// Number of occurrences of `c` in `t`.
pub open spec fn count_char(t: Seq<char>, c: char) -> nat
    decreases t.len(),
{
    if t.len() == 0 {
        0
    } else {
        count_char(t.drop_last(), c) + if t.last() == c {
            1nat
        } else {
            0nat
        }
    }
}

/// The text has no time component: at most 10 bytes, or neither a `T` nor
/// two `:`.
pub open spec fn lacks_time(t: Seq<char>) -> bool {
    byte_len(t) <= 10 || (!contains(t, seq!['T']) && count_char(t, ':') < 2)
}

/// A date string with a time but no zone (`YYYY-MM-DD HH:MM:SS` or
/// `YYYY-MM-DDTHH:MM:SS`): Ruby's YAML reads such a value as UTC.
pub open spec fn naive_timestamp(s: Seq<char>) -> bool {
    let t = trim(s);
    if lacks_time(t) {
        false
    } else if t.last() == 'Z' {
        false
    } else if tail_signed(t, 6) {
        false
    } else if tail_signed(t, 5) {
        false
    } else {
        true
    }
}

/// The timestamp test slices the trimmed text 6 and 5 bytes from its end;
/// those offsets fall on character boundaries (else the slicing panics).
pub open spec fn naive_timestamp_safe(s: Seq<char>) -> bool {
    let t = trim(s);
    lacks_time(t) || t.last() == 'Z' || (suffix_index(t, 6) is Some && (tail_signed(t, 6)
        || suffix_index(t, 5) is Some))
}

/// Where the last `n` bytes of `t` begin, if they are whole characters.
fn suffix_index_exec(t: &Vec<char>, n: usize) -> (r: Option<usize>)
    requires
        n <= 8,
    ensures
        match r {
            Some(k) => suffix_index(t@, n as int) == Some(k as int),
            None => suffix_index(t@, n as int) is None,
        },
{
    let mut k = t.len();
    let mut rem = n;
    assert(t@.take(k as int) =~= t@);
    while rem > 0
        invariant
            k <= t.len(),
            rem <= n,
            suffix_index(t@, n as int) == suffix_index(t@.take(k as int), rem as int),
        decreases rem,
    {
        if k == 0 {
            return None;
        }
        let w = utf8_width_of(t[k - 1]);
        assert(t@.take(k as int).last() == t@[k - 1]);
        if w > rem {
            return None;
        }
        assert(t@.take(k as int).drop_last() =~= t@.take(k - 1));
        rem = rem - w;
        k = k - 1;
    }
    Some(k)
}

fn count_colons(t: &Vec<char>) -> (r: usize)
    ensures
        r == count_char(t@, ':'),
{
    let mut n: usize = 0;
    let mut i: usize = 0;
    while i < t.len()
        invariant
            i <= t.len(),
            n == count_char(t@.take(i as int), ':'),
            n <= i,
        decreases t.len() - i,
    {
        assert(t@.take(i + 1).drop_last() =~= t@.take(i as int));
        if t[i] == ':' {
            n += 1;
        }
        i += 1;
    }
    assert(t@.take(t.len() as int) =~= t@);
    n
}

fn tail_signed_exec(t: &Vec<char>, n: usize) -> (r: Option<bool>)
    requires
        n <= 8,
    ensures
        match r {
            Some(b) => suffix_index(t@, n as int) is Some && b == tail_signed(t@, n as int),
            None => suffix_index(t@, n as int) is None,
        },
{
    match suffix_index_exec(t, n) {
        Some(k) => Some(k < t.len() && (t[k] == '+' || t[k] == '-')),
        None => None,
    }
}

fn lacks_time_exec(t: &Vec<char>) -> (r: bool)
    ensures
        r == lacks_time(t@),
{
    if !byte_len_exceeds(t, 10) {
        return true;
    }
    proof {
        lemma_find_from(t@, seq!['T'], 0);
    }
    let tv = vec!['T'];
    assert(tv@ =~= seq!['T']);
    let has_t = find_at(t, &tv, 0).is_some();
    !has_t && count_colons(t) < 2
}

/// Whether a date string is a naive YAML timestamp; `None` where the test
/// would slice inside a character (a byte slice there would panic).
pub fn naive_timestamp_check(s: &str) -> (r: Option<bool>)
    ensures
        match r {
            Some(b) => naive_timestamp_safe(s@) && b == naive_timestamp(s@),
            None => !naive_timestamp_safe(s@),
        },
{
    let t = trim_chars(&str_to_chars(s));
    if lacks_time_exec(&t) {
        return Some(false);
    }
    assert(byte_len(t@) > 10);
    assert(t@.len() > 0) by {
        if t@.len() == 0 {
            assert(byte_len(t@) == 0);
        }
    }
    if t[t.len() - 1] == 'Z' {
        return Some(false);
    }
    match tail_signed_exec(&t, 6) {
        None => None,
        Some(true) => Some(false),
        Some(false) => match tail_signed_exec(&t, 5) {
            None => None,
            Some(b) => Some(!b),
        },
    }
}

/// Whether a date string has a time but no zone offset, so that Ruby's YAML
/// reads it as UTC.
pub fn is_naive_yaml_timestamp(s: &str) -> (r: bool)
    requires
        naive_timestamp_safe(s@),
    ensures
        r == naive_timestamp(s@),
{
    match naive_timestamp_check(s) {
        Some(b) => b,
        None => false,
    }
}

// ---------------------------------------------------------------------------
// Reading date strings
// ---------------------------------------------------------------------------

/// Midnight of a date.
pub open spec fn midnight(d: (int, int, int)) -> (int, int, int, int, int, int, int) {
    (d.0, d.1, d.2, 0, 0, 0, 0)
}

/// The date and time a front-matter date string stands for, trying in turn:
/// RFC 3339, `YYYY-MM-DD HH:MM:SS +HHMM` (both read as their local time),
/// `YYYY-MM-DDTHH:MM:SS`, `YYYY-MM-DD HH:MM:SS`, `YYYY-MM-DD` (midnight),
/// `YYYY/MM/DD HH:MM:SS`, `YYYY/MM/DD HH:MM` and `YYYY/MM/DD` (midnight).
pub open spec fn parsed_date(s: Seq<char>) -> Option<(int, int, int, int, int, int, int)> {
    if let Some((c, o)) = rfc3339_parse(s) {
        Some(c)
    } else if let Some((c, o)) = offset_datetime_parse(s, "%Y-%m-%d %H:%M:%S %z"@) {
        Some(c)
    } else if let Some(c) = naive_datetime_parse(s, "%Y-%m-%dT%H:%M:%S"@) {
        Some(c)
    } else if let Some(c) = naive_datetime_parse(s, "%Y-%m-%d %H:%M:%S"@) {
        Some(c)
    } else if let Some(d) = naive_date_parse(s, "%Y-%m-%d"@) {
        Some(midnight(d))
    } else if let Some(c) = naive_datetime_parse(s, "%Y/%m/%d %H:%M:%S"@) {
        Some(c)
    } else if let Some(c) = naive_datetime_parse(s, "%Y/%m/%d %H:%M"@) {
        Some(c)
    } else if let Some(d) = naive_date_parse(s, "%Y/%m/%d"@) {
        Some(midnight(d))
    } else {
        None
    }
}

fn midnight_of(d: (i32, u32, u32)) -> (r: Civil)
    ensures
        civil_fields(r) == midnight((d.0 as int, d.1 as int, d.2 as int)),
{
    Civil { year: d.0, month: d.1, day: d.2, hour: 0, minute: 0, second: 0, nano: 0 }
}

/// Reads a front-matter date string (see `parsed_date`). The site time zone
/// plays no part: dates with an offset keep their local time, and dates
/// without one are kept as written.
pub fn parse_date_string_with_tz(s: &str, site_tz: Option<&str>) -> (r: Option<Civil>)
    ensures
        match r {
            Some(c) => parsed_date(s@) == Some(civil_fields(c)),
            None => parsed_date(s@) is None,
        },
{
    if let Some((c, _o)) = parse_rfc3339(s) {
        return Some(c);
    }
    if let Some((c, _o)) = parse_offset_datetime(s, "%Y-%m-%d %H:%M:%S %z") {
        return Some(c);
    }
    if let Some(c) = parse_naive_datetime(s, "%Y-%m-%dT%H:%M:%S") {
        return Some(c);
    }
    if let Some(c) = parse_naive_datetime(s, "%Y-%m-%d %H:%M:%S") {
        return Some(c);
    }
    if let Some(d) = parse_naive_date(s, "%Y-%m-%d") {
        return Some(midnight_of(d));
    }
    if let Some(c) = parse_naive_datetime(s, "%Y/%m/%d %H:%M:%S") {
        return Some(c);
    }
    if let Some(c) = parse_naive_datetime(s, "%Y/%m/%d %H:%M") {
        return Some(c);
    }
    if let Some(d) = parse_naive_date(s, "%Y/%m/%d") {
        return Some(midnight_of(d));
    }
    None
}

/// The site's time zone by its IANA name, if chrono-tz knows it.
pub fn resolve_site_tz(name: &str) -> (r: Option<String>)
    ensures
        match r {
            Some(n) => tz_known(name@) && n@ == name@,
            None => !tz_known(name@),
        },
{
    if time_zone_known(name) {
        Some(name.to_string())
    } else {
        None
    }
}

/// A naive UTC date and time moved to the site's time zone; kept as it is
/// without a zone, or where the zone gives no local time (unknown zone, or a
/// local time past the ends of chrono's range).
pub open spec fn in_site_tz(c: (int, int, int, int, int, int, int), tz: Option<&str>) -> (
    int,
    int,
    int,
    int,
    int,
    int,
    int,
) {
    match tz {
        Some(n) => match tz_from_utc(n@, c) {
            Some(l) => l,
            None => c,
        },
        None => c,
    }
}

/// Moves a naive UTC date and time to the site's time zone (Jekyll's
/// `Time#localtime` on a UTC timestamp).
pub fn convert_utc_naive_to_site_tz(dt: Civil, site_tz: Option<&str>) -> (r: Civil)
    ensures
        civil_fields(r) == in_site_tz(civil_fields(dt), site_tz),
{
    match site_tz {
        Some(n) => match utc_to_zone(n, &dt) {
            Some(l) => l,
            None => dt,
        },
        None => dt,
    }
}

// ---------------------------------------------------------------------------
// Offsets and expansion of partial dates
// ---------------------------------------------------------------------------

/// Two-digit (at least) zero-padded decimal.
pub open spec fn pad2(n: nat) -> Seq<char> {
    if n < 10 {
        seq!['0'] + decimal(n)
    } else {
        decimal(n)
    }
}

pub open spec fn abs_int(x: int) -> nat {
    if x < 0 {
        (-x) as nat
    } else {
        x as nat
    }
}

/// An offset in seconds as `+HHMM` / `-HHMM`.
pub open spec fn offset_text(secs: int) -> Seq<char> {
    let a = abs_int(secs);
    seq![if secs >= 0 { '+' } else { '-' }] + pad2(a / 3600) + pad2((a % 3600) / 60)
}

fn push_pad2(out: &mut Vec<char>, n: u64)
    ensures
        final(out)@ == old(out)@ + pad2(n as nat),
{
    if n < 10 {
        out.push('0');
    }
    push_all(out, &u64_to_decimal(n));
    assert(final(out)@ =~= old(out)@ + pad2(n as nat));
}

fn push_offset(out: &mut Vec<char>, secs: i32)
    ensures
        final(out)@ == old(out)@ + offset_text(secs as int),
{
    let a: u64 = if secs < 0 {
        (-(secs as i64)) as u64
    } else {
        secs as u64
    };
    out.push(if secs >= 0 {
        '+'
    } else {
        '-'
    });
    push_pad2(out, a / 3600);
    push_pad2(out, (a % 3600) / 60);
    assert(final(out)@ =~= old(out)@ + offset_text(secs as int));
}

/// A partial date (`YYYY-MM-DD`, `YYYY/MM/DD`, `YYYY/MM/DD HH:MM`,
/// `YYYY-MM-DD HH:MM`) read as a date and time.
pub open spec fn partial_date(s: Seq<char>) -> Option<(int, int, int, int, int, int, int)> {
    if byte_len(s) == 10 && naive_date_parse(s, "%Y-%m-%d"@) is Some {
        Some(midnight(naive_date_parse(s, "%Y-%m-%d"@).unwrap()))
    } else if byte_len(s) == 10 && naive_date_parse(s, "%Y/%m/%d"@) is Some {
        Some(midnight(naive_date_parse(s, "%Y/%m/%d"@).unwrap()))
    } else if naive_datetime_parse(s, "%Y/%m/%d %H:%M"@) is Some {
        naive_datetime_parse(s, "%Y/%m/%d %H:%M"@)
    } else if byte_len(s) == 16 {
        naive_datetime_parse(s, "%Y-%m-%d %H:%M"@)
    } else {
        None
    }
}

/// An RFC 3339 date written as Jekyll renders times:
/// `YYYY-MM-DD HH:MM:SS +HHMM`.
pub open spec fn normalized_iso8601(s: Seq<char>) -> Option<Seq<char>> {
    match rfc3339_parse(s) {
        Some((c, o)) => match offset_format(c, o, "%Y-%m-%d %H:%M:%S"@) {
            Some(t) => Some(t + seq![' '] + offset_text(o)),
            None => None,
        },
        None => None,
    }
}

/// A front-matter `date` value as Jekyll renders the time it stands for: a
/// partial date becomes `YYYY-MM-DD HH:MM:SS` with the site zone's offset
/// for that local time (`+0000` without a zone, or where the zone has no
/// such local time); an RFC 3339 date is rewritten in that form; anything
/// else is kept.
pub open spec fn expanded_date(s: Seq<char>, tz: Option<&str>) -> Seq<char> {
    match partial_date(s) {
        Some(c) => match naive_format(c, "%Y-%m-%d %H:%M:%S"@) {
            Some(t) => t + seq![' '] + match tz {
                Some(n) => match tz_local_offset(n@, c) {
                    Some(o) => offset_text(o),
                    None => "+0000"@,
                },
                None => "+0000"@,
            },
            None => s,
        },
        None => match normalized_iso8601(s) {
            Some(t) => t,
            None => s,
        },
    }
}

/// Whether the UTF-8 length of `s` is exactly `n` bytes.
fn byte_len_is(s: &Vec<char>, n: usize) -> (r: bool)
    requires
        1 <= n <= 64,
    ensures
        r == (byte_len(s@) == n),
{
    byte_len_exceeds(s, n - 1) && !byte_len_exceeds(s, n)
}

fn partial_date_exec(s: &str) -> (r: Option<Civil>)
    ensures
        match r {
            Some(c) => partial_date(s@) == Some(civil_fields(c)),
            None => partial_date(s@) is None,
        },
{
    let chars = str_to_chars(s);
    let len10 = byte_len_is(&chars, 10);
    if len10 {
        if let Some(d) = parse_naive_date(s, "%Y-%m-%d") {
            return Some(midnight_of(d));
        }
        if let Some(d) = parse_naive_date(s, "%Y/%m/%d") {
            return Some(midnight_of(d));
        }
    }
    if let Some(c) = parse_naive_datetime(s, "%Y/%m/%d %H:%M") {
        return Some(c);
    }
    if byte_len_is(&chars, 16) {
        parse_naive_datetime(s, "%Y-%m-%d %H:%M")
    } else {
        None
    }
}

/// Rewrites an RFC 3339 date as `YYYY-MM-DD HH:MM:SS +HHMM`.
pub fn normalize_iso8601_date_with_tz(s: &str) -> (r: Option<String>)
    ensures
        match r {
            Some(t) => normalized_iso8601(s@) == Some(t@),
            None => normalized_iso8601(s@) is None,
        },
{
    match parse_rfc3339(s) {
        Some((c, o)) => match format_offset(&c, o, "%Y-%m-%d %H:%M:%S") {
            Some(t) => {
                let mut out = str_to_chars(t.as_str());
                out.push(' ');
                push_offset(&mut out, o);
                Some(chars_to_string(&out))
            },
            None => None,
        },
        None => None,
    }
}

/// Expands a front-matter `date` value to a full time as Jekyll renders it
/// (see `expanded_date`).
pub fn expand_date_only_string_with_tz(s: &str, site_tz: Option<&str>) -> (r: String)
    ensures
        r@ == expanded_date(s@, site_tz),
{
    match partial_date_exec(s) {
        Some(c) => match format_naive(&c, "%Y-%m-%d %H:%M:%S") {
            Some(t) => {
                let mut out = str_to_chars(t.as_str());
                out.push(' ');
                let local = match site_tz {
                    Some(n) => local_offset_in_zone(n, &c),
                    None => None,
                };
                match local {
                    Some(o) => push_offset(&mut out, o),
                    None => push_all(&mut out, &str_to_chars("+0000")),
                }
                chars_to_string(&out)
            },
            None => s.to_string(),
        },
        None => match normalize_iso8601_date_with_tz(s) {
            Some(t) => t,
            None => s.to_string(),
        },
    }
}

/// `expand_date_only_string_with_tz` without a site time zone.
pub fn expand_date_only_string(s: &str) -> (r: String)
    ensures
        r@ == expanded_date(s@, None),
{
    expand_date_only_string_with_tz(s, None)
}

// ---------------------------------------------------------------------------
// The date filters
// ---------------------------------------------------------------------------

/// An optional argument equal to `word`.
pub open spec fn arg_is(arg: Option<&str>, word: Seq<char>) -> bool {
    match arg {
        Some(a) => a@ == word,
        None => false,
    }
}

/// A chrono format result, or a fallback text.
pub open spec fn formatted_or(
    c: (int, int, int, int, int, int, int),
    fmt: Seq<char>,
    fallback: Seq<char>,
) -> Seq<char> {
    match naive_format(c, fmt) {
        Some(t) => t,
        None => fallback,
    }
}

/// The day of the month as `%e` writes it, read back as a number (0 when
/// that fails).
pub open spec fn day_number(c: (int, int, int, int, int, int, int)) -> nat {
    match parsed_u32(trim(formatted_or(c, "%e"@, Seq::empty()))) {
        Some(n) => n,
        None => 0,
    }
}

/// The date and time a date filter shows: a naive timestamp is taken as UTC
/// and moved to the site zone, anything else is shown as written.
pub open spec fn shown_time(s: Seq<char>, c: (int, int, int, int, int, int, int), tz: Option<&str>) -> (
    int,
    int,
    int,
    int,
    int,
    int,
    int,
) {
    if naive_timestamp(s) {
        in_site_tz(c, tz)
    } else {
        c
    }
}

/// The `date_to_string` text from what chrono wrote for a date: its day of
/// the month `day`, month abbreviation `mon`, year `year`, and the whole
/// `DD Mon YYYY` form `plain`. With `ordinal`, `15th Jan 2024`; with
/// `ordinal` and `US`, `Jan 15th, 2024`; otherwise `plain`.
pub open spec fn date_string_of(
    day: nat,
    mon: Seq<char>,
    year: Seq<char>,
    plain: Seq<char>,
    format_type: Option<&str>,
    style: Option<&str>,
) -> Seq<char> {
    if arg_is(format_type, "ordinal"@) && arg_is(style, "US"@) {
        mon + seq![' '] + decimal(day) + ordinal_suffix_of(day as u32) + ", "@ + year
    } else if arg_is(format_type, "ordinal"@) {
        decimal(day) + ordinal_suffix_of(day as u32) + seq![' '] + mon + seq![' '] + year
    } else {
        plain
    }
}

/// The `date_to_long_string` text from what chrono wrote for a date: its
/// day of the month `day`, month name `mon` and year `year`. With `ordinal`,
/// `21st January 2024`; otherwise `21 January 2024` (day padded to two
/// digits).
pub open spec fn long_date_string_of(
    day: nat,
    mon: Seq<char>,
    year: Seq<char>,
    format_type: Option<&str>,
) -> Seq<char> {
    if arg_is(format_type, "ordinal"@) {
        decimal(day) + ordinal_suffix_of(day as u32) + seq![' '] + mon + seq![' '] + year
    } else {
        pad2(day) + seq![' '] + mon + seq![' '] + year
    }
}

/// Assembles the `date_to_string` text from the parts chrono wrote (see
/// `date_string_of`).
pub fn date_string_from_parts(
    day: u32,
    mon: &str,
    year: &str,
    plain: &str,
    format_type: Option<&str>,
    style: Option<&str>,
) -> (r: String)
    ensures
        r@ == date_string_of(day as nat, mon@, year@, plain@, format_type, style),
{
    let ordinal = arg_is_exec(format_type, "ordinal");
    let us = arg_is_exec(style, "US");
    let out = if ordinal && us {
        let mut o = str_to_chars(mon);
        o.push(' ');
        push_all(&mut o, &u64_to_decimal(day as u64));
        push_all(&mut o, &str_to_chars(ordinal_suffix(day)));
        push_all(&mut o, &str_to_chars(", "));
        push_all(&mut o, &str_to_chars(year));
        o
    } else if ordinal {
        let mut o = u64_to_decimal(day as u64);
        push_all(&mut o, &str_to_chars(ordinal_suffix(day)));
        o.push(' ');
        push_all(&mut o, &str_to_chars(mon));
        o.push(' ');
        push_all(&mut o, &str_to_chars(year));
        o
    } else {
        str_to_chars(plain)
    };
    chars_to_string(&out)
}

/// Assembles the `date_to_long_string` text from the parts chrono wrote
/// (see `long_date_string_of`).
pub fn long_date_string_from_parts(day: u32, mon: &str, year: &str, format_type: Option<&str>) -> (r:
    String)
    ensures
        r@ == long_date_string_of(day as nat, mon@, year@, format_type),
{
    let mut o: Vec<char> = Vec::new();
    if arg_is_exec(format_type, "ordinal") {
        push_all(&mut o, &u64_to_decimal(day as u64));
        push_all(&mut o, &str_to_chars(ordinal_suffix(day)));
    } else {
        push_pad2(&mut o, day as u64);
    }
    o.push(' ');
    push_all(&mut o, &str_to_chars(mon));
    o.push(' ');
    push_all(&mut o, &str_to_chars(year));
    chars_to_string(&o)
}

/// What `date_to_string` gives; `None` where its timestamp test would slice
/// inside a character.
pub open spec fn date_to_string_spec(
    input: Seq<char>,
    format_type: Option<&str>,
    style: Option<&str>,
    tz: Option<&str>,
) -> Option<Seq<char>> {
    let s = trim(input);
    if s.len() == 0 {
        Some(Seq::empty())
    } else {
        match parsed_date(s) {
            None => Some(s),
            Some(c0) => if !naive_timestamp_safe(s) {
                None
            } else {
                let c = shown_time(s, c0, tz);
                Some(
                    date_string_of(
                        day_number(c),
                        formatted_or(c, "%b"@, "???"@),
                        formatted_or(c, "%Y"@, "????"@),
                        formatted_or(c, "%d %b %Y"@, s),
                        format_type,
                        style,
                    ),
                )
            },
        }
    }
}

/// What `date_to_long_string` gives; `None` where its timestamp test would
/// slice inside a character.
pub open spec fn date_to_long_string_spec(
    input: Seq<char>,
    format_type: Option<&str>,
    tz: Option<&str>,
) -> Option<Seq<char>> {
    let s = trim(input);
    if s.len() == 0 {
        Some(Seq::empty())
    } else {
        match parsed_date(s) {
            None => Some(s),
            Some(c0) => if !naive_timestamp_safe(s) {
                None
            } else {
                let c = shown_time(s, c0, tz);
                Some(
                    long_date_string_of(
                        day_number(c),
                        formatted_or(c, "%B"@, "???"@),
                        formatted_or(c, "%Y"@, "????"@),
                        format_type,
                    ),
                )
            },
        }
    }
}

/// A naive timestamp is UTC: under a site zone, `date_to_long_string` shows
/// the day, month and year of the time moved into that zone (what
/// `convert_utc_naive_to_site_tz` gives), not of the time as written.
pub proof fn lemma_long_date_in_site_zone(
    input: Seq<char>,
    c0: (int, int, int, int, int, int, int),
    format_type: Option<&str>,
    tz: Option<&str>,
)
    requires
        trim(input).len() > 0,
        parsed_date(trim(input)) == Some(c0),
        naive_timestamp(trim(input)),
        naive_timestamp_safe(trim(input)),
    ensures
        date_to_long_string_spec(input, format_type, tz) == Some(
            long_date_string_of(
                day_number(in_site_tz(c0, tz)),
                formatted_or(in_site_tz(c0, tz), "%B"@, "???"@),
                formatted_or(in_site_tz(c0, tz), "%Y"@, "????"@),
                format_type,
            ),
        ),
{
}

/// `date_to_string` and `date_to_long_string` show the same day and year of
/// a date (both in the site zone): in their `ordinal` forms they differ only
/// in the month's name.
pub proof fn lemma_short_and_long_dates_agree(
    input: Seq<char>,
    format_type: Option<&str>,
    style: Option<&str>,
    tz: Option<&str>,
)
    requires
        arg_is(format_type, "ordinal"@),
        !arg_is(style, "US"@),
        trim(input).len() > 0,
        parsed_date(trim(input)) is Some,
        naive_timestamp_safe(trim(input)),
    ensures
        exists|day: Seq<char>, short_mon: Seq<char>, long_mon: Seq<char>, year: Seq<char>|
            date_to_string_spec(input, format_type, style, tz) == Some(day + seq![' '] + short_mon + seq![' '] + year)
            && date_to_long_string_spec(input, format_type, tz) == Some(day + seq![' '] + long_mon + seq![' ']
            + year),
{
    let s = trim(input);
    let c = shown_time(s, parsed_date(s)->0, tz);
    let day = decimal(day_number(c)) + ordinal_suffix_of(day_number(c) as u32);
    let year = formatted_or(c, "%Y"@, "????"@);
    assert(date_to_string_spec(input, format_type, style, tz) == Some(
        day + seq![' '] + formatted_or(c, "%b"@, "???"@) + seq![' '] + year,
    ));
    assert(date_to_long_string_spec(input, format_type, tz) == Some(
        day + seq![' '] + formatted_or(c, "%B"@, "???"@) + seq![' '] + year,
    ));
}

fn arg_is_exec(arg: Option<&str>, word: &str) -> (r: bool)
    ensures
        r == arg_is(arg, word@),
{
    match arg {
        Some(a) => vec_eq(&str_to_chars(a), &str_to_chars(word)),
        None => false,
    }
}

fn formatted_or_exec(c: &Civil, fmt: &str, fallback: &str) -> (r: Vec<char>)
    ensures
        r@ == formatted_or(civil_fields(*c), fmt@, fallback@),
{
    match format_naive(c, fmt) {
        Some(t) => str_to_chars(t.as_str()),
        None => str_to_chars(fallback),
    }
}

fn day_number_exec(c: &Civil) -> (r: u32)
    ensures
        r == day_number(civil_fields(*c)),
{
    proof {
        reveal_strlit("");
    }
    let e = formatted_or_exec(c, "%e", "");
    match parse_u32(&trim_chars(&e)) {
        Some(n) => n,
        None => 0,
    }
}

/// The time the filter shows, and whether the test for a naive timestamp
/// stayed on character boundaries.
fn shown_time_exec(s: &str, c: Civil, tz: Option<&str>) -> (r: Option<Civil>)
    ensures
        match r {
            Some(x) => naive_timestamp_safe(s@) && civil_fields(x) == shown_time(
                s@,
                civil_fields(c),
                tz,
            ),
            None => !naive_timestamp_safe(s@),
        },
{
    match naive_timestamp_check(s) {
        None => None,
        Some(true) => Some(convert_utc_naive_to_site_tz(c, tz)),
        Some(false) => Some(c),
    }
}

/// The `date_to_string` filter.
pub struct DateToString;

impl DateToString {
    /// Formats a date as `DD Mon YYYY`; with `ordinal`, `15th Jan 2024`; with
    /// `ordinal` and `US`, `Jan 15th, 2024`. Unreadable dates are returned
    /// trimmed. `None` where the timestamp test would slice inside a
    /// character.
    pub fn evaluate(
        &self,
        input: &str,
        format_type: Option<&str>,
        style: Option<&str>,
        site_tz: Option<&str>,
    ) -> (r: Option<String>)
        ensures
            match r {
                Some(t) => date_to_string_spec(input@, format_type, style, site_tz) == Some(t@),
                None => date_to_string_spec(input@, format_type, style, site_tz) is None,
            },
    {
        let sv = trim_chars(&str_to_chars(input));
        let s = chars_to_string(&sv);
        if sv.len() == 0 {
            return Some(String::new());
        }
        let c0 = match parse_date_string_with_tz(s.as_str(), site_tz) {
            Some(c) => c,
            None => return Some(s),
        };
        let c = match shown_time_exec(s.as_str(), c0, site_tz) {
            Some(c) => c,
            None => return None,
        };
        let day = day_number_exec(&c);
        let mon = chars_to_string(&formatted_or_exec(&c, "%b", "???"));
        let year = chars_to_string(&formatted_or_exec(&c, "%Y", "????"));
        let plain = chars_to_string(&formatted_or_exec(&c, "%d %b %Y", s.as_str()));
        Some(date_string_from_parts(day, mon.as_str(), year.as_str(), plain.as_str(), format_type, style))
    }
}

/// The `date_to_long_string` filter.
pub struct DateToLongString;

impl DateToLongString {
    /// Formats a date as `DD Month YYYY`; with `ordinal`, `21st January 2024`.
    /// Unreadable dates are returned trimmed. `None` where the timestamp test
    /// would slice inside a character.
    pub fn evaluate(&self, input: &str, format_type: Option<&str>, site_tz: Option<&str>) -> (r:
        Option<String>)
        ensures
            match r {
                Some(t) => date_to_long_string_spec(input@, format_type, site_tz) == Some(t@),
                None => date_to_long_string_spec(input@, format_type, site_tz) is None,
            },
    {
        let sv = trim_chars(&str_to_chars(input));
        let s = chars_to_string(&sv);
        if sv.len() == 0 {
            return Some(String::new());
        }
        let c0 = match parse_date_string_with_tz(s.as_str(), site_tz) {
            Some(c) => c,
            None => return Some(s),
        };
        let c = match shown_time_exec(s.as_str(), c0, site_tz) {
            Some(c) => c,
            None => return None,
        };
        let day = day_number_exec(&c);
        let mon = chars_to_string(&formatted_or_exec(&c, "%B", "???"));
        let year = chars_to_string(&formatted_or_exec(&c, "%Y", "????"));
        Some(long_date_string_from_parts(day, mon.as_str(), year.as_str(), format_type))
    }
}

/// The `date_to_rfc822` filter.
pub struct DateToRfc822;

/// What `date_to_rfc822` gives: `Mon, 01 Jan 2024 00:00:00 +0000` for a
/// readable date (taken as UTC), the trimmed input otherwise.
pub open spec fn date_to_rfc822_spec(input: Seq<char>) -> Seq<char> {
    let s = trim(input);
    if s.len() == 0 {
        Seq::empty()
    } else {
        match parsed_date(s) {
            Some(c) => formatted_or(c, "%a, %d %b %Y %H:%M:%S +0000"@, s),
            None => s,
        }
    }
}

impl DateToRfc822 {
    /// Formats a date as RFC 822.
    pub fn evaluate(&self, input: &str) -> (r: String)
        ensures
            r@ == date_to_rfc822_spec(input@),
    {
        let sv = trim_chars(&str_to_chars(input));
        let s = chars_to_string(&sv);
        if sv.len() == 0 {
            return String::new();
        }
        match parse_date_string_with_tz(s.as_str(), None) {
            Some(c) => chars_to_string(&formatted_or_exec(&c, "%a, %d %b %Y %H:%M:%S +0000", s.as_str())),
            None => s,
        }
    }
}

/// A naive date and time as `YYYY-MM-DDTHH:MM:SS+HH:MM` with the offset the
/// site zone gives it (the earliest where ambiguous), `+00:00` without a zone
/// or where the zone has no such local time.
pub open spec fn with_tz_offset(c: (int, int, int, int, int, int, int), tz: Option<&str>) -> Seq<
    char,
> {
    let plain = formatted_or(c, "%Y-%m-%dT%H:%M:%S"@, Seq::empty()) + "+00:00"@;
    match tz {
        Some(n) => match tz_local_offset(n@, c) {
            Some(o) => match offset_format(c, o, "%Y-%m-%dT%H:%M:%S%:z"@) {
                Some(t) => t,
                None => plain,
            },
            None => plain,
        },
        None => plain,
    }
}

/// A date string in ISO 8601 (`xmlschema`) form: dates with an offset keep
/// it, others get the site zone's offset; unreadable dates are kept trimmed.
pub open spec fn xmlschema_text(input: Seq<char>, tz: Option<&str>) -> Seq<char> {
    let t = trim(input);
    if t.len() == 0 {
        Seq::empty()
    } else if let Some((c, o)) = rfc3339_parse(t) {
        match offset_format(c, o, "%Y-%m-%dT%H:%M:%S%:z"@) {
            Some(x) => x,
            None => t,
        }
    } else if let Some((c, o)) = offset_datetime_parse(t, "%Y-%m-%d %H:%M:%S %z"@) {
        match offset_format(c, o, "%Y-%m-%dT%H:%M:%S%:z"@) {
            Some(x) => x,
            None => t,
        }
    } else {
        match parsed_date(t) {
            Some(c) => with_tz_offset(c, tz),
            None => t,
        }
    }
}

/// Formats a naive date and time with the site zone's offset.
pub fn format_datetime_with_tz_offset(dt: &Civil, site_tz: Option<&str>) -> (r: String)
    ensures
        r@ == with_tz_offset(civil_fields(*dt), site_tz),
{
    proof {
        reveal_strlit("");
    }
    let mut plain = formatted_or_exec(dt, "%Y-%m-%dT%H:%M:%S", "");
    push_all(&mut plain, &str_to_chars("+00:00"));
    let off = match site_tz {
        Some(n) => local_offset_in_zone(n, dt),
        None => None,
    };
    match off {
        Some(o) => match format_offset(dt, o, "%Y-%m-%dT%H:%M:%S%:z") {
            Some(t) => t,
            None => chars_to_string(&plain),
        },
        None => chars_to_string(&plain),
    }
}

/// Formats a date string in ISO 8601 form (see `xmlschema_text`).
pub fn format_date_to_xmlschema(s: &str, site_tz: Option<&str>) -> (r: String)
    ensures
        r@ == xmlschema_text(s@, site_tz),
{
    let tv = trim_chars(&str_to_chars(s));
    let t = chars_to_string(&tv);
    if tv.len() == 0 {
        return String::new();
    }
    if let Some((c, o)) = parse_rfc3339(t.as_str()) {
        return match format_offset(&c, o, "%Y-%m-%dT%H:%M:%S%:z") {
            Some(x) => x,
            None => t,
        };
    }
    if let Some((c, o)) = parse_offset_datetime(t.as_str(), "%Y-%m-%d %H:%M:%S %z") {
        return match format_offset(&c, o, "%Y-%m-%dT%H:%M:%S%:z") {
            Some(x) => x,
            None => t,
        };
    }
    match parse_date_string_with_tz(t.as_str(), site_tz) {
        Some(c) => format_datetime_with_tz_offset(&c, site_tz),
        None => t,
    }
}

/// The `date_to_xmlschema` filter.
pub struct DateToXmlschema;

impl DateToXmlschema {
    /// Nil stays nil; anything else is rendered and formatted in ISO 8601
    /// form with the site zone's offset.
    pub fn evaluate(&self, input: &Value, site_tz: Option<&str>) -> (r: Value)
        ensures
            r.sv() == match input.sv() {
                SValue::Nil => SValue::Nil,
                v => SValue::Str(xmlschema_text(rendered(v), site_tz)),
            },
    {
        match input {
            Value::Nil => Value::Nil,
            _ => {
                let text = chars_to_string(&input.render_chars());
                Value::Str(format_date_to_xmlschema(text.as_str(), site_tz))
            },
        }
    }
}

/// ASCII lower case of a character.
pub open spec fn ascii_lower(c: char) -> char {
    if 'A' <= c && c <= 'Z' {
        ((c as u8) + 32) as char
    } else {
        c
    }
}

/// Equality ignoring ASCII case (`str::eq_ignore_ascii_case`).
pub open spec fn eq_ignore_ascii_case(a: Seq<char>, b: Seq<char>) -> bool {
    a.len() == b.len() && forall|i: int| 0 <= i < a.len() ==> ascii_lower(#[trigger] a[i])
        == ascii_lower(b[i])
}

fn eq_ignore_ascii_case_exec(a: &Vec<char>, b: &str) -> (r: bool)
    ensures
        r == eq_ignore_ascii_case(a@, b@),
{
    let bv = str_to_chars(b);
    if a.len() != bv.len() {
        return false;
    }
    let mut i: usize = 0;
    while i < a.len()
        invariant
            i <= a.len(),
            a.len() == bv.len(),
            bv@ == b@,
            forall|j: int| 0 <= j < i ==> ascii_lower(#[trigger] a@[j]) == ascii_lower(bv@[j]),
        decreases a.len() - i,
    {
        let x = a[i];
        let y = bv[i];
        let lx = if 'A' <= x && x <= 'Z' {
            ((x as u8) + 32) as char
        } else {
            x
        };
        let ly = if 'A' <= y && y <= 'Z' {
            ((y as u8) + 32) as char
        } else {
            y
        };
        assert(lx == ascii_lower(a@[i as int]));
        assert(ly == ascii_lower(bv@[i as int]));
        if lx != ly {
            assert(ascii_lower(a@[i as int]) != ascii_lower(bv@[i as int]));
            return false;
        }
        i += 1;
    }
    true
}

/// What the `date` filter gives for a format: `now`/`today` format the
/// current time; a format with `%s` formats dates with an offset at that
/// offset (so the epoch is right); others are read and formatted; anything
/// unreadable, or a format that fails, gives the trimmed input.
pub open spec fn date_spec(
    input: Seq<char>,
    fmt: Seq<char>,
    now: (int, int, int, int, int, int, int),
) -> Seq<char> {
    let s = trim(input);
    if s.len() == 0 {
        Seq::empty()
    } else if eq_ignore_ascii_case(s, "now"@) || eq_ignore_ascii_case(s, "today"@) {
        formatted_or(now, fmt, s)
    } else if contains(fmt, "%s"@) {
        let epoch_aware = if let Some((c, o)) = rfc3339_parse(s) {
            offset_format(c, o, fmt)
        } else if let Some((c, o)) = offset_datetime_parse(s, "%Y-%m-%d %H:%M:%S %z"@) {
            offset_format(c, o, fmt)
        } else {
            match parsed_date(s) {
                Some(c) => naive_format(c, fmt),
                None => None,
            }
        };
        match epoch_aware {
            Some(t) => t,
            None => s,
        }
    } else {
        match parsed_date(s) {
            Some(c) => formatted_or(c, fmt, s),
            None => s,
        }
    }
}

/// The `date` filter.
pub struct Date;

impl Date {
    /// Formats the date with the strftime format; `now` is the current local
    /// time, used for the inputs `now` and `today`.
    pub fn evaluate(&self, input: &str, format: &str, now: &Civil) -> (r: String)
        ensures
            r@ == date_spec(input@, format@, civil_fields(*now)),
    {
        let sv = trim_chars(&str_to_chars(input));
        let s = chars_to_string(&sv);
        if sv.len() == 0 {
            return String::new();
        }
        if eq_ignore_ascii_case_exec(&sv, "now") || eq_ignore_ascii_case_exec(&sv, "today") {
            return chars_to_string(&formatted_or_exec(now, format, s.as_str()));
        }
        let fv = str_to_chars(format);
        let pct_s = str_to_chars("%s");
        proof {
            lemma_find_from(fv@, pct_s@, 0);
        }
        if find_at(&fv, &pct_s, 0).is_some() {
            let aware = if let Some((c, o)) = parse_rfc3339(s.as_str()) {
                format_offset(&c, o, format)
            } else if let Some((c, o)) = parse_offset_datetime(s.as_str(), "%Y-%m-%d %H:%M:%S %z") {
                format_offset(&c, o, format)
            } else {
                match parse_date_string_with_tz(s.as_str(), None) {
                    Some(c) => format_naive(&c, format),
                    None => None,
                }
            };
            return match aware {
                Some(t) => t,
                None => s,
            };
        }
        match parse_date_string_with_tz(s.as_str(), None) {
            Some(c) => chars_to_string(&formatted_or_exec(&c, format, s.as_str())),
            None => s,
        }
    }
}

} // verus!
