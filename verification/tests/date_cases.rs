//! Cases of the date filters and date helpers. Filters called without a
//! site get no site time zone.

use rustkyll::filters::dates::{
    convert_utc_naive_to_site_tz, format_date_to_xmlschema, format_datetime_with_tz_offset,
    parse_date_string_with_tz, resolve_site_tz, Date, DateToLongString, DateToRfc822, DateToString,
    DateToXmlschema,
};
use rustkyll::filters::jsonify::Jsonify;
use rustkyll::outside::Civil;
use rustkyll::value::Value;

fn at(year: i32, month: u32, day: u32, hour: u32, minute: u32, second: u32) -> Civil {
    Civil { year, month, day, hour, minute, second, nano: 0 }
}

fn date(input: &str, fmt: &str) -> String {
    Date.evaluate(input, fmt, &at(2000, 1, 1, 0, 0, 0))
}

fn to_string(input: &str, format_type: Option<&str>, style: Option<&str>) -> String {
    DateToString.evaluate(input, format_type, style, None).unwrap()
}

fn long(input: &str, format_type: Option<&str>) -> String {
    DateToLongString.evaluate(input, format_type, None).unwrap()
}

fn xmlschema(input: &str) -> String {
    match DateToXmlschema.evaluate(&Value::Str(input.to_string()), None) {
        Value::Str(s) => s,
        _ => panic!("not a string"),
    }
}

// --- date ---

#[test]
fn test_date_format_day_month_year() {
    assert_eq!(date("2024-07-24", "%d.%m.%Y"), "24.07.2024");
}

#[test]
fn test_date_format_year_only() {
    assert_eq!(date("2024-07-24", "%Y"), "2024");
}

#[test]
fn test_date_format_full_datetime() {
    assert_eq!(date("2024-01-15 10:30:00", "%d.%m.%Y %H:%M"), "15.01.2024 10:30");
}

#[test]
fn test_date_format_iso_datetime() {
    assert_eq!(date("2024-12-01T14:30:00+00:00", "%d %b %Y"), "01 Dec 2024");
}

#[test]
fn test_date_format_empty_string() {
    assert_eq!(date("", "%d.%m.%Y"), "");
}

#[test]
fn test_date_format_invalid_passthrough() {
    assert_eq!(date("not-a-date", "%d.%m.%Y"), "not-a-date");
}

#[test]
fn test_date_format_month_leading_zero() {
    assert_eq!(date("2023/7/11 15:27", "%m"), "07");
}

#[test]
fn test_date_format_day_leading_zero() {
    assert_eq!(date("2023/7/5 15:27", "%d"), "05");
}

#[test]
fn test_date_format_hour_leading_zero() {
    assert_eq!(date("2025/8/9 2:10", "%H"), "02");
}

#[test]
fn test_date_format_combined_slash_date() {
    assert_eq!(date("2023/7/11 15:27", "%Y/%m/%d %H:%M"), "2023/07/11 15:27");
}

#[test]
fn test_date_format_double_digit_no_change() {
    assert_eq!(date("2023/12/25 10:30", "%m/%d"), "12/25");
}

#[test]
fn test_date_format_year_unchanged() {
    assert_eq!(date("2023/7/11 15:27", "%Y"), "2023");
}

#[test]
fn test_date_format_textual_month() {
    assert_eq!(date("2023/7/11 15:27", "%B"), "July");
}

#[test]
fn test_epoch_seconds_utc_positive_offset() {
    assert_eq!(date("2019-08-11 00:34:00 +0800", "%s"), "1565454840");
}

#[test]
fn test_epoch_seconds_utc_zero_offset() {
    assert_eq!(date("2019-08-10 16:34:00 +0000", "%s"), "1565454840");
}

#[test]
fn test_epoch_seconds_naive_datetime() {
    assert_eq!(date("2019-08-10 16:34:00", "%s"), "1565454840");
}

// --- date_to_long_string ---

#[test]
fn test_date_to_long_string_basic() {
    assert_eq!(long("2013-03-27", None), "27 March 2013");
}

#[test]
fn test_date_to_long_string_september() {
    assert_eq!(long("2001-09-11", None), "11 September 2001");
}

#[test]
fn test_date_to_long_string_january() {
    assert_eq!(long("2024-01-01", None), "01 January 2024");
}

#[test]
fn test_date_to_long_string_december() {
    assert_eq!(long("2024-12-25", None), "25 December 2024");
}

#[test]
fn test_date_to_long_string_iso_datetime() {
    assert_eq!(long("2024-06-15T10:30:00+00:00", None), "15 June 2024");
}

#[test]
fn test_date_to_long_string_empty() {
    assert_eq!(long("", None), "");
}

#[test]
fn test_date_to_long_string_invalid_passthrough() {
    assert_eq!(long("not-a-date", None), "not-a-date");
}

#[test]
fn test_date_to_long_string_ordinal() {
    assert_eq!(long("2013-03-27", Some("ordinal")), "27th March 2013");
}

#[test]
fn test_date_to_long_string_ordinal_1st() {
    assert_eq!(long("2024-01-01", Some("ordinal")), "1st January 2024");
}

#[test]
fn test_date_to_long_string_ordinal_2nd() {
    assert_eq!(long("2024-01-02", Some("ordinal")), "2nd January 2024");
}

#[test]
fn test_date_to_long_string_ordinal_3rd() {
    assert_eq!(long("2024-01-03", Some("ordinal")), "3rd January 2024");
}

#[test]
fn test_date_to_long_string_ordinal_11th() {
    assert_eq!(long("2024-01-11", Some("ordinal")), "11th January 2024");
}

#[test]
fn test_date_to_long_string_ordinal_12th() {
    assert_eq!(long("2024-01-12", Some("ordinal")), "12th January 2024");
}

#[test]
fn test_date_to_long_string_ordinal_13th() {
    assert_eq!(long("2024-01-13", Some("ordinal")), "13th January 2024");
}

#[test]
fn test_date_to_long_string_ordinal_21st() {
    assert_eq!(long("2024-01-21", Some("ordinal")), "21st January 2024");
}

// --- date_to_rfc822 ---

#[test]
fn date_to_rfc822_test_date_only() {
    assert_eq!(DateToRfc822.evaluate("2024-01-15"), "Mon, 15 Jan 2024 00:00:00 +0000");
}

#[test]
fn date_to_rfc822_test_datetime_with_space() {
    assert_eq!(DateToRfc822.evaluate("2024-03-22 10:00:00"), "Fri, 22 Mar 2024 10:00:00 +0000");
}

#[test]
fn date_to_rfc822_test_iso_datetime() {
    assert_eq!(DateToRfc822.evaluate("2024-12-01T14:30:00+00:00"), "Sun, 01 Dec 2024 14:30:00 +0000");
}

#[test]
fn date_to_rfc822_test_invalid_date_passthrough() {
    assert_eq!(DateToRfc822.evaluate("not-a-date"), "not-a-date");
}

#[test]
fn date_to_rfc822_test_empty_string() {
    assert_eq!(DateToRfc822.evaluate(""), "");
}

// --- date_to_string ---

#[test]
fn date_to_string_test_date_only() {
    assert_eq!(to_string("2024-01-15", None, None), "15 Jan 2024");
}

#[test]
fn date_to_string_test_datetime_with_space() {
    assert_eq!(to_string("2024-03-22 10:00:00", None, None), "22 Mar 2024");
}

#[test]
fn date_to_string_test_iso_datetime() {
    assert_eq!(to_string("2024-12-01T14:30:00+00:00", None, None), "01 Dec 2024");
}

#[test]
fn test_months() {
    assert_eq!(to_string("2024-01-01", None, None), "01 Jan 2024");
    assert_eq!(to_string("2024-06-15", None, None), "15 Jun 2024");
    assert_eq!(to_string("2024-09-30", None, None), "30 Sep 2024");
    assert_eq!(to_string("2024-12-25", None, None), "25 Dec 2024");
}

#[test]
fn test_day_with_leading_zero() {
    assert_eq!(to_string("2024-01-01", None, None), "01 Jan 2024");
}

#[test]
fn date_to_string_test_invalid_date_passthrough() {
    assert_eq!(to_string("not-a-date", None, None), "not-a-date");
}

#[test]
fn date_to_string_test_empty_string() {
    assert_eq!(to_string("", None, None), "");
}

#[test]
fn test_date_to_string_ordinal() {
    assert_eq!(to_string("2024-01-15", Some("ordinal"), None), "15th Jan 2024");
}

#[test]
fn test_date_to_string_ordinal_1st() {
    assert_eq!(to_string("2024-01-01", Some("ordinal"), None), "1st Jan 2024");
}

#[test]
fn test_date_to_string_ordinal_2nd() {
    assert_eq!(to_string("2024-01-02", Some("ordinal"), None), "2nd Jan 2024");
}

#[test]
fn test_date_to_string_ordinal_3rd() {
    assert_eq!(to_string("2024-01-03", Some("ordinal"), None), "3rd Jan 2024");
}

#[test]
fn test_date_to_string_ordinal_11th() {
    assert_eq!(to_string("2024-01-11", Some("ordinal"), None), "11th Jan 2024");
}

#[test]
fn test_date_to_string_ordinal_us() {
    assert_eq!(to_string("2024-01-15", Some("ordinal"), Some("US")), "Jan 15th, 2024");
}

#[test]
fn test_date_to_string_ordinal_us_1st() {
    assert_eq!(to_string("2024-01-01", Some("ordinal"), Some("US")), "Jan 1st, 2024");
}

#[test]
fn test_date_to_string_ordinal_us_31st() {
    assert_eq!(to_string("2024-01-31", Some("ordinal"), Some("US")), "Jan 31st, 2024");
}

#[test]
fn test_d10_positive_offset_preserves_date() {
    assert_eq!(to_string("2023-10-11 00:00:00 +0200", None, None), "11 Oct 2023");
}

#[test]
fn test_d10_negative_offset_preserves_date() {
    assert_eq!(to_string("2024-06-15 23:30:00 -0500", None, None), "15 Jun 2024");
}

#[test]
fn test_d10_utc_offset_unchanged() {
    assert_eq!(to_string("2024-12-31 23:00:00 +0000", None, None), "31 Dec 2024");
}

#[test]
fn test_d10_rfc3339_positive_offset() {
    assert_eq!(to_string("2024-03-22T10:00:00+00:00", None, None), "22 Mar 2024");
}

#[test]
fn test_d10_date_only_no_tz() {
    assert_eq!(to_string("2024-01-15", None, None), "15 Jan 2024");
}

// --- date_to_xmlschema ---

#[test]
fn date_to_xmlschema_test_date_only() {
    assert_eq!(xmlschema("2024-01-15"), "2024-01-15T00:00:00+00:00");
}

#[test]
fn date_to_xmlschema_test_datetime_with_space() {
    assert!(xmlschema("2024-03-22 10:00:00").contains("2024-03-22T10:00:00"));
}

#[test]
fn test_already_iso() {
    assert_eq!(xmlschema("2024-01-15T14:30:00+00:00"), "2024-01-15T14:30:00+00:00");
}

#[test]
fn date_to_xmlschema_test_empty_string() {
    assert_eq!(xmlschema(""), "");
}

#[test]
fn date_to_xmlschema_test_invalid_date_passthrough() {
    assert_eq!(xmlschema("not-a-date"), "not-a-date");
}

#[test]
fn test_nil_input_returns_nil() {
    assert!(matches!(DateToXmlschema.evaluate(&Value::Nil, None), Value::Nil));
}

#[test]
fn test_nil_date_through_jsonify_produces_null() {
    let xmlschema_result = DateToXmlschema.evaluate(&Value::Nil, None);
    assert_eq!(Jsonify.evaluate(&xmlschema_result), "null");
}

// --- site time zones ---

#[test]
fn test_resolve_site_tz_valid() {
    assert!(resolve_site_tz("Europe/Berlin").is_some());
}

#[test]
fn test_resolve_site_tz_invalid() {
    assert!(resolve_site_tz("Not/A/Timezone").is_none());
}

#[test]
fn test_resolve_site_tz_utc() {
    assert!(resolve_site_tz("UTC").is_some());
}

#[test]
fn test_naive_datetime_preserved_as_is() {
    let tz = resolve_site_tz("Europe/Berlin").unwrap();
    let dt = parse_date_string_with_tz("2020-12-18 23:59:59", Some(&tz)).unwrap();
    assert_eq!(dt.day, 18);
    assert_eq!(dt.month, 12);
    assert_eq!(dt.hour, 23);
    assert_eq!(dt.minute, 59);
}

#[test]
fn test_naive_datetime_preserved_utc_tz() {
    let tz = resolve_site_tz("UTC").unwrap();
    let dt = parse_date_string_with_tz("2020-12-18 23:59:59", Some(&tz)).unwrap();
    assert_eq!(dt.day, 18);
    assert_eq!(dt.hour, 23);
}

#[test]
fn test_naive_datetime_preserved_no_tz() {
    let dt = parse_date_string_with_tz("2020-12-18 23:59:59", None).unwrap();
    assert_eq!(dt.day, 18);
    assert_eq!(dt.hour, 23);
}

#[test]
fn test_naive_date_only_preserved_as_midnight() {
    let tz = resolve_site_tz("Europe/Berlin").unwrap();
    let dt = parse_date_string_with_tz("2020-12-18", Some(&tz)).unwrap();
    assert_eq!(dt.day, 18);
    assert_eq!(dt.hour, 0);
}

#[test]
fn test_explicit_tz_not_affected_by_site_tz() {
    let tz = resolve_site_tz("America/New_York").unwrap();
    let dt = parse_date_string_with_tz("2023-10-11 00:00:00 +0200", Some(&tz)).unwrap();
    assert_eq!(dt.day, 11);
    assert_eq!(dt.month, 10);
}

#[test]
fn test_naive_t_format_preserved() {
    let tz = resolve_site_tz("Europe/Berlin").unwrap();
    let dt = parse_date_string_with_tz("2020-12-18T23:59:59", Some(&tz)).unwrap();
    assert_eq!(dt.day, 18);
    assert_eq!(dt.hour, 23);
}

#[test]
fn test_convert_utc_to_cet_rolls_day() {
    let tz = resolve_site_tz("Europe/Berlin").unwrap();
    let result = convert_utc_naive_to_site_tz(at(2020, 12, 18, 23, 59, 59), Some(&tz));
    assert_eq!(result.day, 19);
    assert_eq!(result.hour, 0);
    assert_eq!(result.minute, 59);
}

#[test]
fn test_convert_utc_to_utc_no_change() {
    let tz = resolve_site_tz("UTC").unwrap();
    let result = convert_utc_naive_to_site_tz(at(2020, 12, 18, 23, 59, 59), Some(&tz));
    assert_eq!(result.day, 18);
    assert_eq!(result.hour, 23);
}

#[test]
fn test_convert_utc_midnight_stays_same_day_in_cest() {
    let tz = resolve_site_tz("Europe/Berlin").unwrap();
    let result = convert_utc_naive_to_site_tz(at(2025, 9, 6, 0, 0, 0), Some(&tz));
    assert_eq!(result.day, 6);
    assert_eq!(result.hour, 2);
}

#[test]
fn test_convert_none_tz_preserves() {
    let result = convert_utc_naive_to_site_tz(at(2020, 12, 18, 23, 59, 59), None);
    assert_eq!(result.day, 18);
    assert_eq!(result.hour, 23);
}

#[test]
fn test_format_datetime_tz_berlin_winter() {
    let tz = resolve_site_tz("Europe/Berlin").unwrap();
    assert_eq!(format_datetime_with_tz_offset(&at(2023, 12, 11, 0, 0, 0), Some(&tz)), "2023-12-11T00:00:00+01:00");
}

#[test]
fn test_format_datetime_tz_berlin_summer() {
    let tz = resolve_site_tz("Europe/Berlin").unwrap();
    assert_eq!(format_datetime_with_tz_offset(&at(2023, 7, 15, 0, 0, 0), Some(&tz)), "2023-07-15T00:00:00+02:00");
}

#[test]
fn test_format_datetime_tz_none_defaults_utc() {
    assert_eq!(format_datetime_with_tz_offset(&at(2023, 12, 11, 0, 0, 0), None), "2023-12-11T00:00:00+00:00");
}

#[test]
fn test_format_datetime_tz_utc() {
    let tz = resolve_site_tz("UTC").unwrap();
    assert_eq!(format_datetime_with_tz_offset(&at(2023, 12, 11, 0, 0, 0), Some(&tz)), "2023-12-11T00:00:00+00:00");
}

#[test]
fn test_xmlschema_berlin_winter() {
    let tz = resolve_site_tz("Europe/Berlin");
    assert_eq!(format_date_to_xmlschema("2023-12-11", tz.as_deref()), "2023-12-11T00:00:00+01:00");
}

#[test]
fn test_xmlschema_berlin_summer() {
    let tz = resolve_site_tz("Europe/Berlin");
    assert_eq!(format_date_to_xmlschema("2023-07-15", tz.as_deref()), "2023-07-15T00:00:00+02:00");
}

#[test]
fn test_xmlschema_no_tz_defaults_utc() {
    assert_eq!(format_date_to_xmlschema("2023-12-11", None), "2023-12-11T00:00:00+00:00");
}

#[test]
fn test_xmlschema_with_explicit_time() {
    let tz = resolve_site_tz("Europe/Berlin");
    assert_eq!(format_date_to_xmlschema("2023-12-11T14:30:00", tz.as_deref()), "2023-12-11T14:30:00+01:00");
}

#[test]
fn test_xmlschema_preserves_rfc3339_tz() {
    let tz = resolve_site_tz("Europe/Berlin");
    assert_eq!(
        format_date_to_xmlschema("2024-01-15T14:30:00+00:00", tz.as_deref()),
        "2024-01-15T14:30:00+00:00"
    );
}

#[test]
fn test_xmlschema_preserves_jekyll_style_tz() {
    let tz = resolve_site_tz("Europe/Berlin");
    assert_eq!(
        format_date_to_xmlschema("2023-10-11 00:00:00 +0200", tz.as_deref()),
        "2023-10-11T00:00:00+02:00"
    );
}

#[test]
fn test_xmlschema_empty_string() {
    assert_eq!(format_date_to_xmlschema("", None), "");
}

#[test]
fn test_xmlschema_invalid_passthrough() {
    assert_eq!(format_date_to_xmlschema("not-a-date", None), "not-a-date");
}

#[test]
fn test_xmlschema_event_dates_berlin() {
    let tz = resolve_site_tz("Europe/Berlin");
    assert_eq!(format_date_to_xmlschema("2024-01-15", tz.as_deref()), "2024-01-15T00:00:00+01:00");
    assert_eq!(format_date_to_xmlschema("2024-01-19", tz.as_deref()), "2024-01-19T00:00:00+01:00");
}

#[test]
fn test_xmlschema_preserves_explicit_utc_offset() {
    let tz = resolve_site_tz("Europe/Berlin");
    assert_eq!(
        format_date_to_xmlschema("2023-12-11 00:00:00 +0000", tz.as_deref()),
        "2023-12-11T00:00:00+00:00"
    );
}
