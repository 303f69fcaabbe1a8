use rustkyll::filters::collections::PassthroughFilter;
use rustkyll::filters::dates::{expand_date_only_string, is_naive_yaml_timestamp, ordinal_suffix};

#[test]
fn test_passthrough_name() {
    let filter = PassthroughFilter::new("erl_encode");
    assert_eq!(filter.name(), "erl_encode");
}

#[test]
fn test_passthrough_description() {
    let filter = PassthroughFilter::new("test_filter");
    assert_eq!(
        filter.description(),
        "Passthrough filter for unknown filter name (returns input unchanged)"
    );
}

#[test]
fn test_ordinal_suffix() {
    assert_eq!(ordinal_suffix(1), "st");
    assert_eq!(ordinal_suffix(2), "nd");
    assert_eq!(ordinal_suffix(3), "rd");
    assert_eq!(ordinal_suffix(4), "th");
    assert_eq!(ordinal_suffix(11), "th");
    assert_eq!(ordinal_suffix(12), "th");
    assert_eq!(ordinal_suffix(13), "th");
    assert_eq!(ordinal_suffix(21), "st");
    assert_eq!(ordinal_suffix(22), "nd");
    assert_eq!(ordinal_suffix(23), "rd");
    assert_eq!(ordinal_suffix(31), "st");
}

#[test]
fn test_expand_date_only_string_basic() {
    assert_eq!(expand_date_only_string("2025-11-07"), "2025-11-07 00:00:00 +0000");
}

#[test]
fn test_expand_date_only_string_leaves_full_datetime() {
    assert_eq!(
        expand_date_only_string("2025-11-07 00:00:00 +0000"),
        "2025-11-07 00:00:00 +0000"
    );
}

#[test]
fn test_expand_date_only_string_leaves_non_date() {
    assert_eq!(expand_date_only_string("hello"), "hello");
    assert_eq!(expand_date_only_string(""), "");
    assert_eq!(expand_date_only_string("12345"), "12345");
    assert_eq!(expand_date_only_string("not-a-date"), "not-a-date");
}

#[test]
fn test_is_naive_yaml_timestamp() {
    assert!(is_naive_yaml_timestamp("2020-12-18 23:59:59"));
    assert!(is_naive_yaml_timestamp("2020-12-18T23:59:59"));
    assert!(is_naive_yaml_timestamp("2020-12-18 00:00:00"));
    assert!(!is_naive_yaml_timestamp("2020-12-18"));
    assert!(!is_naive_yaml_timestamp("2020-12"));
    assert!(!is_naive_yaml_timestamp("2020-12-18 23:59:59 +0200"));
    assert!(!is_naive_yaml_timestamp("2020-12-18T23:59:59+00:00"));
    assert!(!is_naive_yaml_timestamp("2020-12-18T23:59:59Z"));
}
