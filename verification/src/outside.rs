//! Calls into outside crates: `regex` for pattern rewriting, `chrono` and
//! `chrono-tz` for reading, converting and formatting dates.
use vstd::prelude::*;
use chrono::{Datelike, Offset, TimeZone, Timelike};
use std::fmt::Write;

verus! {

// ---------------------------------------------------------------------------
// regex
// ---------------------------------------------------------------------------

/// Whether `regex::Regex::new` accepts the pattern.
pub uninterp spec fn regex_pattern_valid(pattern: Seq<char>) -> bool;

/// What `regex::Regex::replace_all` returns for a pattern, a haystack and a
/// replacement template (with `$1`-style group references expanded).
pub uninterp spec fn regex_replace_all(pattern: Seq<char>, text: Seq<char>, replacement: Seq<char>) -> Seq<char>;

/// Compiles `pattern` with `regex::Regex::new` and, when it compiles, returns
/// `Regex::replace_all(text, replacement)`. The contract claims that the
/// result is `None` exactly when the pattern is refused, and that otherwise it
/// is the named function of the three arguments (the `regex` crate's matching
/// is deterministic in them).
#[verifier::external_body]
pub(crate) fn regex_replace_all_exec(pattern: &str, text: &str, replacement: &str) -> (r: Option<String>)
    ensures
        r is Some == regex_pattern_valid(pattern@),
        r matches Some(s) ==> s@ == regex_replace_all(pattern@, text@, replacement@),
{
    match regex::Regex::new(pattern) {
        Ok(re) => Some(re.replace_all(text, replacement).into_owned()),
        Err(_) => None,
    }
}

// ---------------------------------------------------------------------------
// serde_json
// ---------------------------------------------------------------------------

/// A lowercase hexadecimal digit.
pub open spec fn hex_lower(n: int) -> char {
    if n < 10 {
        (48 + n) as char
    } else {
        (87 + n) as char
    }
}

/// How serde_json writes one character inside a string literal: `"` and
/// `\` behind a backslash; backspace, tab, line feed, form feed and carriage
/// return as `\b`, `\t`, `\n`, `\f`, `\r`; any other character below
/// U+0020 as `\u00` and two lowercase hex digits; everything else as it is.
pub open spec fn json_char_escaped(c: char) -> Seq<char> {
    let n = c as int;
    if c == '"' {
        seq!['\\', '"']
    } else if c == '\\' {
        seq!['\\', '\\']
    } else if n == 8 {
        seq!['\\', 'b']
    } else if n == 9 {
        seq!['\\', 't']
    } else if n == 10 {
        seq!['\\', 'n']
    } else if n == 12 {
        seq!['\\', 'f']
    } else if n == 13 {
        seq!['\\', 'r']
    } else if n < 32 {
        seq!['\\', 'u', '0', '0', hex_lower(n / 16), hex_lower(n % 16)]
    } else {
        seq![c]
    }
}

/// The characters of a string, each escaped as serde_json writes it.
pub open spec fn json_escaped(s: Seq<char>) -> Seq<char>
    decreases s.len(),
{
    if s.len() == 0 {
        Seq::empty()
    } else {
        json_escaped(s.drop_last()) + json_char_escaped(s.last())
    }
}

/// The JSON string literal `serde_json::to_string` writes for a string: the
/// escaped characters between double quotes.
pub open spec fn json_quoted(s: Seq<char>) -> Seq<char> {
    seq!['"'] + json_escaped(s) + seq!['"']
}

/// `serde_json::to_string` of a string: the string as a JSON literal, its
/// characters escaped as `ESCAPE` and `write_char_escape` in serde_json's
/// `ser.rs` do (see `json_char_escaped`). Serializing a `&str` into a
/// `Vec<u8>` does not fail; the other arm only satisfies the type.
#[verifier::external_body]
pub(crate) fn json_quote(s: &str) -> (r: String)
    ensures
        r@ == json_quoted(s@),
{
    match serde_json::to_string(s) {
        Ok(t) => t,
        Err(_) => format!("\"{}\"", s),
    }
}

// ---------------------------------------------------------------------------
// chrono
// ---------------------------------------------------------------------------

/// A calendar date and wall-clock time, as chrono's `NaiveDateTime` holds
/// it: year, month, day, hour, minute, second and nanosecond.
pub struct Civil {
    pub year: i32,
    pub month: u32,
    pub day: u32,
    pub hour: u32,
    pub minute: u32,
    pub second: u32,
    pub nano: u32,
}

/// The fields of a `Civil` as integers.
pub open spec fn civil_fields(c: Civil) -> (int, int, int, int, int, int, int) {
    (
        c.year as int,
        c.month as int,
        c.day as int,
        c.hour as int,
        c.minute as int,
        c.second as int,
        c.nano as int,
    )
}

/// What `NaiveDateTime::parse_from_str(s, fmt)` yields, by its fields.
pub uninterp spec fn naive_datetime_parse(s: Seq<char>, fmt: Seq<char>) -> Option<(int, int, int, int, int, int, int)>;

/// What `NaiveDate::parse_from_str(s, fmt)` yields, as year, month and day.
pub uninterp spec fn naive_date_parse(s: Seq<char>, fmt: Seq<char>) -> Option<(int, int, int)>;

/// What `DateTime::parse_from_rfc3339(s)` yields: the local date and time by
/// its fields, and the offset from UTC in seconds.
pub uninterp spec fn rfc3339_parse(s: Seq<char>) -> Option<((int, int, int, int, int, int, int), int)>;

/// What `DateTime::parse_from_str(s, fmt)` (with an offset in the format)
/// yields: the local date and time by its fields, and the offset in seconds.
pub uninterp spec fn offset_datetime_parse(s: Seq<char>, fmt: Seq<char>) -> Option<((int, int, int, int, int, int, int), int)>;

/// The text chrono writes for a naive date and time under `fmt`, if the
/// fields form a valid date and time and the format writes without error.
pub uninterp spec fn naive_format(c: (int, int, int, int, int, int, int), fmt: Seq<char>) -> Option<Seq<char>>;

/// The text chrono writes for a date and time at a fixed offset (seconds
/// east of UTC) under `fmt`, if valid and the format writes without error.
pub uninterp spec fn offset_format(c: (int, int, int, int, int, int, int), offset: int, fmt: Seq<char>) -> Option<Seq<char>>;

/// Whether chrono-tz knows the IANA time zone name.
pub uninterp spec fn tz_known(name: Seq<char>) -> bool;

/// The offset (seconds east of UTC) that the zone gives the local date and
/// time: the only one, or the earliest when the time is ambiguous; none when
/// the local time does not exist there.
pub uninterp spec fn tz_local_offset(name: Seq<char>, c: (int, int, int, int, int, int, int)) -> Option<int>;

/// The local date and time in the zone of an instant given in UTC; none
/// when the zone is unknown, the fields are not a valid date and time, or the
/// local time falls outside chrono's range of dates.
pub uninterp spec fn tz_from_utc(name: Seq<char>, c: (int, int, int, int, int, int, int)) -> Option<(int, int, int, int, int, int, int)>;

/// `NaiveDateTime::parse_from_str`. The result is named by its arguments.
#[verifier::external_body]
pub(crate) fn parse_naive_datetime(s: &str, fmt: &str) -> (r: Option<Civil>)
    ensures
        match r {
            Some(c) => naive_datetime_parse(s@, fmt@) == Some(civil_fields(c)),
            None => naive_datetime_parse(s@, fmt@) is None,
        },
{
    match chrono::NaiveDateTime::parse_from_str(s, fmt) {
        Ok(d) => Some(Civil { year: d.year(), month: d.month(), day: d.day(), hour: d.hour(),
            minute: d.minute(), second: d.second(), nano: d.nanosecond() }),
        Err(_) => None,
    }
}

/// `NaiveDate::parse_from_str`. The result is named by its arguments.
#[verifier::external_body]
pub(crate) fn parse_naive_date(s: &str, fmt: &str) -> (r: Option<(i32, u32, u32)>)
    ensures
        match r {
            Some(d) => naive_date_parse(s@, fmt@) == Some((d.0 as int, d.1 as int, d.2 as int)),
            None => naive_date_parse(s@, fmt@) is None,
        },
{
    match chrono::NaiveDate::parse_from_str(s, fmt) {
        Ok(d) => Some((d.year(), d.month(), d.day())),
        Err(_) => None,
    }
}

/// `DateTime::parse_from_rfc3339`, read as its local date and time and its
/// offset. The result is named by its argument.
#[verifier::external_body]
pub(crate) fn parse_rfc3339(s: &str) -> (r: Option<(Civil, i32)>)
    ensures
        match r {
            Some(p) => rfc3339_parse(s@) == Some((civil_fields(p.0), p.1 as int)),
            None => rfc3339_parse(s@) is None,
        },
{
    match chrono::DateTime::parse_from_rfc3339(s) {
        Ok(t) => {
            let d = t.naive_local();
            Some((Civil { year: d.year(), month: d.month(), day: d.day(), hour: d.hour(),
                minute: d.minute(), second: d.second(), nano: d.nanosecond() },
                t.offset().local_minus_utc()))
        },
        Err(_) => None,
    }
}

/// `DateTime::parse_from_str`, read as its local date and time and its
/// offset. The result is named by its arguments.
#[verifier::external_body]
pub(crate) fn parse_offset_datetime(s: &str, fmt: &str) -> (r: Option<(Civil, i32)>)
    ensures
        match r {
            Some(p) => offset_datetime_parse(s@, fmt@) == Some((civil_fields(p.0), p.1 as int)),
            None => offset_datetime_parse(s@, fmt@) is None,
        },
{
    match chrono::DateTime::parse_from_str(s, fmt) {
        Ok(t) => {
            let d = t.naive_local();
            Some((Civil { year: d.year(), month: d.month(), day: d.day(), hour: d.hour(),
                minute: d.minute(), second: d.second(), nano: d.nanosecond() },
                t.offset().local_minus_utc()))
        },
        Err(_) => None,
    }
}

/// `NaiveDateTime::format` written to a string; `None` when the fields are
/// not a valid date and time or the format fails to write. The result is
/// named by its arguments.
#[verifier::external_body]
pub(crate) fn format_naive(c: &Civil, fmt: &str) -> (r: Option<String>)
    ensures
        match r {
            Some(t) => naive_format(civil_fields(*c), fmt@) == Some(t@),
            None => naive_format(civil_fields(*c), fmt@) is None,
        },
{
    let d = match chrono::NaiveDate::from_ymd_opt(c.year, c.month, c.day) {
        Some(d) => d,
        None => return None,
    };
    let t = match d.and_hms_nano_opt(c.hour, c.minute, c.second, c.nano) {
        Some(t) => t,
        None => return None,
    };
    let mut buf = String::new();
    match write!(buf, "{}", t.format(fmt)) {
        Ok(()) => Some(buf),
        Err(_) => None,
    }
}

/// `DateTime<FixedOffset>::format` for the local date and time at the
/// offset, written to a string; `None` when not valid or the format fails to
/// write. The result is named by its arguments.
#[verifier::external_body]
pub(crate) fn format_offset(c: &Civil, offset: i32, fmt: &str) -> (r: Option<String>)
    ensures
        match r {
            Some(t) => offset_format(civil_fields(*c), offset as int, fmt@) == Some(t@),
            None => offset_format(civil_fields(*c), offset as int, fmt@) is None,
        },
{
    let naive = chrono::NaiveDate::from_ymd_opt(c.year, c.month, c.day)
        .and_then(|d| d.and_hms_nano_opt(c.hour, c.minute, c.second, c.nano));
    let (Some(naive), Some(off)) = (naive, chrono::FixedOffset::east_opt(offset)) else {
        return None;
    };
    let Some(t) = off.from_local_datetime(&naive).single() else { return None };
    let mut buf = String::new();
    match write!(buf, "{}", t.format(fmt)) {
        Ok(()) => Some(buf),
        Err(_) => None,
    }
}

/// Whether `name` parses as a `chrono_tz::Tz`.
#[verifier::external_body]
pub(crate) fn time_zone_known(name: &str) -> (r: bool)
    ensures
        r == tz_known(name@),
{
    name.parse::<chrono_tz::Tz>().is_ok()
}

/// `Tz::from_local_datetime` for the zone named `name`, read as the offset
/// of its single or earliest result. The result is named by its arguments.
#[verifier::external_body]
pub(crate) fn local_offset_in_zone(name: &str, c: &Civil) -> (r: Option<i32>)
    ensures
        match r {
            Some(o) => tz_local_offset(name@, civil_fields(*c)) == Some(o as int),
            None => tz_local_offset(name@, civil_fields(*c)) is None,
        },
{
    let (Ok(tz), Some(d)) = (name.parse::<chrono_tz::Tz>(),
        chrono::NaiveDate::from_ymd_opt(c.year, c.month, c.day)) else { return None };
    let Some(t) = d.and_hms_nano_opt(c.hour, c.minute, c.second, c.nano) else { return None };
    match tz.from_local_datetime(&t) {
        chrono::LocalResult::Single(l) => Some(l.offset().fix().local_minus_utc()),
        chrono::LocalResult::Ambiguous(l, _) => Some(l.offset().fix().local_minus_utc()),
        chrono::LocalResult::None => None,
    }
}

/// The local date and time in the zone named `name` of the UTC instant `c`:
/// `Utc.from_utc_datetime(c).with_timezone(tz)`, its UTC time shifted by its
/// offset with `NaiveDateTime::checked_add_offset`. `None` where the zone is
/// unknown, the fields are not a valid date and time, or the shift leaves
/// chrono's range (where `naive_local` would panic). The result is named by
/// its arguments.
#[verifier::external_body]
pub(crate) fn utc_to_zone(name: &str, c: &Civil) -> (r: Option<Civil>)
    ensures
        match r {
            Some(l) => tz_from_utc(name@, civil_fields(*c)) == Some(civil_fields(l)),
            None => tz_from_utc(name@, civil_fields(*c)) is None,
        },
{
    let (Ok(tz), Some(d)) = (name.parse::<chrono_tz::Tz>(),
        chrono::NaiveDate::from_ymd_opt(c.year, c.month, c.day)) else { return None };
    let Some(t) = d.and_hms_nano_opt(c.hour, c.minute, c.second, c.nano) else { return None };
    let z = chrono::Utc.from_utc_datetime(&t).with_timezone(&tz);
    let Some(l) = z.naive_utc().checked_add_offset(z.offset().fix()) else { return None };
    Some(Civil { year: l.year(), month: l.month(), day: l.day(), hour: l.hour(),
        minute: l.minute(), second: l.second(), nano: l.nanosecond() })
}

} // verus!
