//! Cases of the Jekyll filters, each on the plain values the filter reads.

use rustkyll::filters::cgi_escape::CgiEscape;
use rustkyll::filters::collections::{
    ArrayToSentenceString, Camelcase, Compact, Find, Join, PassthroughFilter,
};
use rustkyll::filters::grouping::GroupBy;
use rustkyll::filters::jsonify::Jsonify;
use rustkyll::filters::numbers::{Minus, NumberWithDelimiter, Plus, Times};
use rustkyll::filters::words::{NewlineToBr, NormalizeWhitespace, NumberOfWords};
use rustkyll::filters::urls::AbsoluteUrl;
use rustkyll::value::Value;

fn s(x: &str) -> Value {
    Value::Str(x.to_string())
}

fn text(v: &Value) -> String {
    v.render_chars().into_iter().collect()
}

fn obj(pairs: &[(&str, &str)]) -> Value {
    Value::Object(pairs.iter().map(|(k, v)| (k.to_string(), s(v))).collect())
}

fn get<'a>(v: &'a Value, key: &str) -> Option<&'a Value> {
    match v {
        Value::Object(entries) => entries.iter().find(|(k, _)| k == key).map(|(_, x)| x),
        _ => None,
    }
}

fn items(v: &Value) -> &Vec<Value> {
    match v {
        Value::Array(items) => items,
        _ => panic!("not an array"),
    }
}

fn item_texts(v: &Value) -> Vec<String> {
    match v {
        Value::Array(items) => items.iter().map(text).collect(),
        _ => panic!("not an array"),
    }
}

// --- absolute_url ---

#[test]
fn test_no_context_returns_path() {
    assert_eq!(AbsoluteUrl.evaluate("/about.html", "", ""), "/about.html");
}

#[test]
fn test_spaces_encoded_as_percent20() {
    assert_eq!(
        AbsoluteUrl.evaluate("/images/podcast/hybrid search.jpg", "", ""),
        "/images/podcast/hybrid%20search.jpg"
    );
}

#[test]
fn test_absolute_url_skips_https_input() {
    assert_eq!(
        AbsoluteUrl.evaluate("https://example.com/path", "https://mysite.com", "").trim(),
        "https://example.com/path"
    );
}

#[test]
fn test_absolute_url_skips_http_input() {
    assert_eq!(
        AbsoluteUrl.evaluate("http://other.com/", "https://mysite.com", "").trim(),
        "http://other.com/"
    );
}

#[test]
fn test_absolute_url_still_prepends_for_relative_paths() {
    assert_eq!(
        AbsoluteUrl.evaluate("/relative/path", "https://mysite.com", "").trim(),
        "https://mysite.com/relative/path"
    );
}

// --- array_to_sentence_string ---

#[test]
fn test_nil_input_returns_empty() {
    assert_eq!(ArrayToSentenceString.evaluate(&Value::Nil, None), "");
}

#[test]
fn test_empty_array() {
    assert_eq!(ArrayToSentenceString.evaluate(&Value::Array(vec![]), None), "");
}

#[test]
fn test_single_element() {
    assert_eq!(ArrayToSentenceString.evaluate(&Value::Array(vec![s("release")]), None), "release");
}

#[test]
fn test_two_elements() {
    let input = Value::Array(vec![s("release"), s("update")]);
    assert_eq!(ArrayToSentenceString.evaluate(&input, None), "release, and update");
}

#[test]
fn test_three_elements() {
    let input = Value::Array(vec![s("a"), s("b"), s("c")]);
    assert_eq!(ArrayToSentenceString.evaluate(&input, None), "a, b, and c");
}

// --- camelcase ---

#[test]
fn test_passthrough_snake_case() {
    assert_eq!(text(&Camelcase.evaluate(&s("hello_world"))), "hello_world");
}

#[test]
fn test_passthrough_single_word() {
    assert_eq!(text(&Camelcase.evaluate(&s("tutorial"))), "tutorial");
}

#[test]
fn test_passthrough_capitalized() {
    assert_eq!(text(&Camelcase.evaluate(&s("Jekyll"))), "Jekyll");
}

#[test]
fn test_passthrough_empty() {
    assert_eq!(text(&Camelcase.evaluate(&s(""))), "");
}

#[test]
fn test_passthrough_with_spaces() {
    assert_eq!(text(&Camelcase.evaluate(&s("web development"))), "web development");
}

// --- cgi_escape ---

#[test]
fn test_spaces_become_plus() {
    assert_eq!(CgiEscape.evaluate("foo bar"), "foo+bar");
}

#[test]
fn test_at_sign_encoded() {
    assert_eq!(CgiEscape.evaluate("@Al_Grigor"), "%40Al_Grigor");
}

#[test]
fn test_colon_and_slashes_encoded() {
    assert_eq!(CgiEscape.evaluate("https://example.com"), "https%3A%2F%2Fexample.com");
}

#[test]
fn test_twitter_share_text() {
    let input = "Creating an AWS Account by @Al_Grigor https://example.com";
    assert_eq!(
        CgiEscape.evaluate(input),
        "Creating+an+AWS+Account+by+%40Al_Grigor+https%3A%2F%2Fexample.com"
    );
}

#[test]
fn cgi_escape_test_empty_string() {
    assert_eq!(CgiEscape.evaluate(""), "");
}

#[test]
fn test_alphanumeric_passthrough() {
    assert_eq!(CgiEscape.evaluate("abc123"), "abc123");
}

#[test]
fn test_safe_chars_passthrough() {
    assert_eq!(CgiEscape.evaluate("a-b.c_d"), "a-b.c_d");
}

#[test]
fn test_special_chars_encoded() {
    assert_eq!(CgiEscape.evaluate("a&b=c"), "a%26b%3Dc");
}

#[test]
fn test_multibyte_utf8() {
    assert_eq!(CgiEscape.evaluate("cafe\u{0301}"), "cafe%CC%81");
}

// --- compact ---

#[test]
fn test_compact_removes_nils() {
    let input = Value::Array(vec![s("a"), Value::Nil, s("b")]);
    assert_eq!(item_texts(&Compact.evaluate(&input)), vec!["a", "b"]);
}

#[test]
fn compact_test_compact_flattens_nested_arrays() {
    let input = Value::Array(vec![
        Value::Array(vec![s("A"), s("B")]),
        Value::Nil,
        Value::Array(vec![s("C")]),
    ]);
    assert_eq!(item_texts(&Compact.evaluate(&input)), vec!["A", "B", "C"]);
}

#[test]
fn test_compact_non_array_returns_nil() {
    assert!(matches!(Compact.evaluate(&s("not an array")), Value::Nil));
}

// --- find ---

#[test]
fn test_find_filter_basic_match() {
    let input = Value::Array(vec![
        obj(&[("name", "about.md"), ("title", "About")]),
        obj(&[("name", "index.md"), ("title", "Home")]),
    ]);
    let result = Find.evaluate(&input, "name", "about.md");
    assert!(matches!(result, Value::Object(_)));
    assert_eq!(text(get(&result, "title").unwrap()), "About");
}

#[test]
fn test_find_filter_no_match_returns_nil() {
    let input = Value::Array(vec![obj(&[("name", "about.md")])]);
    assert!(matches!(Find.evaluate(&input, "name", "nonexistent"), Value::Nil));
}

#[test]
fn test_find_filter_multiple_matches_returns_first() {
    let input = Value::Array(vec![
        obj(&[("status", "active"), ("name", "first")]),
        obj(&[("status", "active"), ("name", "second")]),
    ]);
    let result = Find.evaluate(&input, "status", "active");
    assert_eq!(text(get(&result, "name").unwrap()), "first");
}

#[test]
fn test_find_filter_empty_array() {
    assert!(matches!(Find.evaluate(&Value::Array(vec![]), "name", "about.md"), Value::Nil));
}

#[test]
fn test_find_filter_non_array_input() {
    assert!(matches!(Find.evaluate(&s("not an array"), "name", "about.md"), Value::Nil));
}

#[test]
fn test_find_filter_missing_property_skipped() {
    let input = Value::Array(vec![
        obj(&[("other", "value")]),
        obj(&[("name", "target.md"), ("title", "Target")]),
    ]);
    let result = Find.evaluate(&input, "name", "target.md");
    assert_eq!(text(get(&result, "title").unwrap()), "Target");
}

#[test]
fn test_find_filter_unicode_values() {
    let input = Value::Array(vec![
        obj(&[("name", "hello")]),
        obj(&[("name", "\u{00fc}ber-page.md"), ("title", "Das \u{00dc}ber")]),
    ]);
    let result = Find.evaluate(&input, "name", "\u{00fc}ber-page.md");
    assert_eq!(text(get(&result, "title").unwrap()), "Das \u{00dc}ber");
}

// --- group_by ---

#[test]
fn test_group_by_basic() {
    let input = Value::Array(vec![
        obj(&[("type", "a"), ("v", "1")]),
        obj(&[("type", "b"), ("v", "2")]),
        obj(&[("type", "a"), ("v", "3")]),
    ]);
    let result = GroupBy.evaluate(&input, "type");
    let groups = items(&result);
    assert_eq!(groups.len(), 2);
    let group_a = &groups[0];
    assert_eq!(text(get(group_a, "name").unwrap()), "a");
    assert_eq!(text(get(group_a, "size").unwrap()), "2");
    assert_eq!(items(get(group_a, "items").unwrap()).len(), 2);
}

#[test]
fn test_group_by_all_same_value() {
    let input = Value::Array(vec![obj(&[("type", "x")]), obj(&[("type", "x")])]);
    assert_eq!(items(&GroupBy.evaluate(&input, "type")).len(), 1);
}

#[test]
fn test_group_by_missing_property() {
    let input = Value::Array(vec![obj(&[("type", "a")]), obj(&[("other", "val")])]);
    assert_eq!(items(&GroupBy.evaluate(&input, "type")).len(), 2);
}

#[test]
fn test_group_by_empty_array() {
    assert_eq!(items(&GroupBy.evaluate(&Value::Array(vec![]), "type")).len(), 0);
}

#[test]
fn test_group_by_non_array_input() {
    assert_eq!(items(&GroupBy.evaluate(&s("not an array"), "type")).len(), 0);
}

#[test]
fn test_group_has_name_items_size() {
    let input = Value::Array(vec![obj(&[("color", "red")])]);
    let result = GroupBy.evaluate(&input, "color");
    let group = &items(&result)[0];
    assert!(get(group, "name").is_some());
    assert!(get(group, "items").is_some());
    assert!(get(group, "size").is_some());
}

#[test]
fn test_size_equals_items_length() {
    let input = Value::Array(vec![obj(&[("k", "v")]), obj(&[("k", "v")]), obj(&[("k", "v")])]);
    let result = GroupBy.evaluate(&input, "k");
    let group = &items(&result)[0];
    let size: i64 = text(get(group, "size").unwrap()).parse().unwrap();
    let items_len = items(get(group, "items").unwrap()).len() as i64;
    assert_eq!(size, items_len);
}

// --- join ---

#[test]
fn test_join_array_with_separator() {
    let input = Value::Array(vec![s("a"), s("b"), s("c")]);
    assert_eq!(text(&Join.evaluate(&input, Some(","))), "a,b,c");
}

#[test]
fn test_join_array_default_separator() {
    let input = Value::Array(vec![s("x"), s("y")]);
    assert_eq!(text(&Join.evaluate(&input, None)), "x y");
}

#[test]
fn test_join_string_passthrough() {
    assert_eq!(text(&Join.evaluate(&s("hello,world"), Some(","))), "hello,world");
}

#[test]
fn test_join_nil_returns_empty() {
    assert_eq!(text(&Join.evaluate(&Value::Nil, Some(","))), "");
}

#[test]
fn test_join_nested_array_flattens() {
    let input = Value::Array(vec![
        Value::Array(vec![s("cool posts"), s("cat1")]),
        Value::Array(vec![s("cool posts"), s("cat2")]),
    ]);
    assert_eq!(text(&Join.evaluate(&input, Some(","))), "cool posts,cat1,cool posts,cat2");
}

#[test]
fn test_join_unicode_array() {
    let input = Value::Array(vec![s("\u{4F60}\u{597D}"), s("\u{4E16}\u{754C}")]);
    assert_eq!(text(&Join.evaluate(&input, Some(","))), "\u{4F60}\u{597D},\u{4E16}\u{754C}");
}

// --- jsonify ---

fn kv(entries: Vec<(&str, Value)>) -> Value {
    Value::Object(entries.into_iter().map(|(k, v)| (k.to_string(), v)).collect())
}

#[test]
fn test_jsonify_string() {
    assert_eq!(Jsonify.evaluate(&s("hello")), "\"hello\"");
}

#[test]
fn test_jsonify_string_with_special_chars() {
    let out = Jsonify.evaluate(&s("He said \"hi\""));
    assert!(out.contains("\\\""));
    assert!(out.starts_with('"'));
    assert!(out.ends_with('"'));
}

#[test]
fn test_jsonify_integer() {
    assert_eq!(Jsonify.evaluate(&Value::Int(42)), "42");
}

#[test]
fn test_jsonify_float() {
    assert_eq!(Jsonify.evaluate(&Value::Float("2.75".to_string())), "2.75");
}

#[test]
fn test_jsonify_boolean() {
    assert_eq!(Jsonify.evaluate(&Value::Bool(true)), "true");
}

#[test]
fn test_jsonify_nil() {
    assert_eq!(Jsonify.evaluate(&Value::Nil), "null");
}

#[test]
fn test_jsonify_array() {
    assert_eq!(Jsonify.evaluate(&Value::Array(vec![s("a"), s("b")])), "[\"a\",\"b\"]");
}

#[test]
fn test_jsonify_object() {
    assert_eq!(Jsonify.evaluate(&obj(&[("name", "Alice")])), "{\"name\":\"Alice\"}");
}

#[test]
fn test_jsonify_empty_string() {
    assert_eq!(Jsonify.evaluate(&s("")), "\"\"");
}

#[test]
fn test_jsonify_numeric_string_stays_string() {
    assert_eq!(Jsonify.evaluate(&s("2024")), "\"2024\"");
}

#[test]
fn test_jsonify_array_with_numeric_string() {
    let input = Value::Array(vec![s("survey"), s("ai"), s("2024")]);
    assert_eq!(Jsonify.evaluate(&input), "[\"survey\",\"ai\",\"2024\"]");
}

#[test]
fn test_jsonify_actual_integer_stays_number() {
    assert_eq!(Jsonify.evaluate(&Value::Int(2024)), "2024");
}

#[test]
fn test_jsonify_preserves_yaml_key_order() {
    let input = kv(vec![
        ("permissions", s("p")),
        ("conditions", s("c")),
        ("limitations", s("l")),
        ("__key_order", Value::Array(vec![s("permissions"), s("conditions"), s("limitations")])),
    ]);
    let json_str = Jsonify.evaluate(&input);
    let perm_pos = json_str.find("\"permissions\"").expect("should have permissions");
    let cond_pos = json_str.find("\"conditions\"").expect("should have conditions");
    let lim_pos = json_str.find("\"limitations\"").expect("should have limitations");
    assert!(perm_pos < cond_pos && cond_pos < lim_pos, "Got: {}", json_str);
    assert!(!json_str.contains("__key_order"));
}

#[test]
fn test_jsonify_nested_objects_preserve_key_order() {
    let inner = kv(vec![
        ("z_field", s("z")),
        ("a_field", s("a")),
        ("__key_order", Value::Array(vec![s("z_field"), s("a_field")])),
    ]);
    let input = kv(vec![
        ("items", inner),
        ("name", s("test")),
        ("__key_order", Value::Array(vec![s("items"), s("name")])),
    ]);
    let json_str = Jsonify.evaluate(&input);
    let items_pos = json_str.find("\"items\"").expect("should have items");
    let name_pos = json_str.find("\"name\"").expect("should have name");
    assert!(items_pos < name_pos, "Got: {}", json_str);
    let z_pos = json_str.find("\"z_field\"").expect("should have z_field");
    let a_pos = json_str.find("\"a_field\"").expect("should have a_field");
    assert!(z_pos < a_pos, "Got: {}", json_str);
}

#[test]
fn test_jsonify_object_without_key_order_still_works() {
    let input = kv(vec![("name", s("Alice")), ("age", Value::Int(30))]);
    let json_str = Jsonify.evaluate(&input);
    assert!(json_str.contains("\"name\":\"Alice\""));
    assert!(json_str.contains("\"age\":30"));
}

#[test]
fn test_jsonify_key_order_with_unicode_keys() {
    let input = kv(vec![
        ("beschreibung", s("Hallo W\u{00f6}rld")),
        ("titel", s("F\u{00fc}r dich")),
        ("__key_order", Value::Array(vec![s("beschreibung"), s("titel")])),
    ]);
    let json_str = Jsonify.evaluate(&input);
    let besch_pos = json_str.find("\"beschreibung\"").expect("should have beschreibung");
    let titel_pos = json_str.find("\"titel\"").expect("should have titel");
    assert!(besch_pos < titel_pos, "Got: {}", json_str);
}

// --- times / plus / minus (integer operands) ---

#[test]
fn test_times_numeric() {
    assert_eq!(Times.evaluate_integers(&Value::Int(3), &Value::Int(4)).to_string(), "12");
}

#[test]
fn test_times_non_numeric_coerces_to_zero() {
    assert_eq!(Times.evaluate_integers(&s("<"), &Value::Int(1)).to_string(), "0");
}

#[test]
fn test_times_string_number() {
    assert_eq!(Times.evaluate_integers(&s("3"), &Value::Int(2)).to_string(), "6");
}

#[test]
fn test_plus_non_numeric_coerces_to_zero() {
    assert_eq!(Plus.evaluate_integers(&s("abc"), &Value::Int(5)).to_string(), "5");
}

#[test]
fn test_minus_non_numeric_coerces_to_zero() {
    assert_eq!(Minus.evaluate_integers(&s("abc"), &Value::Int(3)).to_string(), "-3");
}

// --- newline_to_br ---

#[test]
fn test_simple_newline() {
    assert_eq!(NewlineToBr.evaluate("hello\nworld"), "hello<br />\nworld");
}

#[test]
fn test_no_newlines() {
    assert_eq!(NewlineToBr.evaluate("no newlines"), "no newlines");
}

#[test]
fn newline_to_br_test_empty_string() {
    assert_eq!(NewlineToBr.evaluate(""), "");
}

#[test]
fn test_multiple_newlines() {
    let out = NewlineToBr.evaluate("line1\nline2\nline3");
    assert_eq!(out.matches("<br />").count(), 2);
    assert_eq!(out, "line1<br />\nline2<br />\nline3");
}

#[test]
fn test_windows_line_endings() {
    let out = NewlineToBr.evaluate("hello\r\nworld");
    assert!(out.contains("<br />"));
    assert_eq!(out.matches("<br />").count(), 1);
}

// --- normalize_whitespace ---

#[test]
fn test_multiple_spaces_between_words() {
    assert_eq!(NormalizeWhitespace.evaluate("hello   world"), "hello world");
}

#[test]
fn normalize_whitespace_test_tabs_and_newlines() {
    assert_eq!(NormalizeWhitespace.evaluate("hello\t\tworld\n\nfoo"), "hello world foo");
}

#[test]
fn test_leading_trailing_whitespace_trimmed() {
    assert_eq!(NormalizeWhitespace.evaluate("  hello   world  "), "hello world");
}

#[test]
fn normalize_whitespace_test_empty_string() {
    assert_eq!(NormalizeWhitespace.evaluate(""), "");
}

#[test]
fn test_already_clean() {
    assert_eq!(NormalizeWhitespace.evaluate("already clean"), "already clean");
}

#[test]
fn test_only_whitespace() {
    assert_eq!(NormalizeWhitespace.evaluate("   \t\n  "), "");
}

#[test]
fn test_mixed_whitespace() {
    assert_eq!(NormalizeWhitespace.evaluate("  hello   world\n\t foo  "), "hello world foo");
}

#[test]
fn test_carriage_return() {
    assert_eq!(NormalizeWhitespace.evaluate("hello\r\nworld"), "hello world");
}

// --- number_of_words ---

fn words(t: &str, mode: Option<&str>) -> String {
    NumberOfWords.evaluate(t, mode).to_string()
}

#[test]
fn test_two_words() {
    assert_eq!(words("Hello world", None), "2");
}

#[test]
fn number_of_words_test_empty_string() {
    assert_eq!(words("", None), "0");
}

#[test]
fn test_extra_whitespace() {
    assert_eq!(words("  spaces  between  words  ", None), "3");
}

#[test]
fn test_single_word() {
    assert_eq!(words("single", None), "1");
}

#[test]
fn number_of_words_test_tabs_and_newlines() {
    assert_eq!(words("one\ntwo\tthree", None), "3");
}

#[test]
fn test_auto_mode_pure_latin() {
    assert_eq!(words("Hello world", Some("auto")), "2");
}

#[test]
fn test_cjk_mode_pure_latin() {
    assert_eq!(words("Hello world", Some("cjk")), "2");
}

#[test]
fn test_auto_mode_pure_chinese() {
    assert_eq!(words("\u{4f60}\u{597d}\u{4e16}\u{754c}\u{5427}", Some("auto")), "5");
}

#[test]
fn test_auto_mode_pure_hiragana() {
    assert_eq!(words("\u{3042}\u{3044}\u{3046}", Some("auto")), "3");
}

#[test]
fn test_auto_mode_pure_hangul() {
    assert_eq!(words("\u{ac00}\u{b098}\u{b2e4}\u{b77c}", Some("auto")), "4");
}

#[test]
fn test_auto_mode_mixed_latin_cjk() {
    assert_eq!(words("Hello \u{4e16}\u{754c}", Some("auto")), "3");
}

#[test]
fn test_cjk_mode_mixed_content() {
    assert_eq!(words("Hello \u{4e16}\u{754c}", Some("cjk")), "3");
}

#[test]
fn test_auto_mode_cjk_with_spaces() {
    assert_eq!(words("\u{4f60} \u{597d} \u{4e16}", Some("auto")), "3");
}

#[test]
fn test_auto_mode_empty_string() {
    assert_eq!(words("", Some("auto")), "0");
}

#[test]
fn test_auto_mode_whitespace_only() {
    assert_eq!(words("   \t\n  ", Some("auto")), "0");
}

#[test]
fn test_unrecognized_mode_falls_back_to_default() {
    assert_eq!(words("Hello \u{4e16}\u{754c}", Some("foo")), "2");
}

#[test]
fn test_auto_mode_non_ascii_latin_not_cjk() {
    assert_eq!(words("\u{00e9}t\u{00e9} \u{00fc}ber caf\u{00e9}", Some("auto")), "3");
}

#[test]
fn test_auto_mode_latin_sentence_with_embedded_cjk() {
    assert_eq!(words("I love \u{6771}\u{4eac} very much", Some("auto")), "6");
}

#[test]
fn test_auto_mode_katakana() {
    assert_eq!(words("\u{30a2}\u{30a4}\u{30a6}", Some("auto")), "3");
}

#[test]
fn test_default_mode_with_cjk_counts_by_whitespace() {
    assert_eq!(words("Hello \u{4e16}\u{754c}", None), "2");
}

// --- number_with_delimiter (the input as Liquid renders it) ---

#[test]
fn test_issue_repro_with_delimiter_arg() {
    assert_eq!(NumberWithDelimiter.evaluate("9700", Some(","), None), "9,700");
}

#[test]
fn test_default_delimiter_no_args() {
    assert_eq!(NumberWithDelimiter.evaluate("1234567", None, None), "1,234,567");
}

#[test]
fn test_from_variable() {
    assert_eq!(NumberWithDelimiter.evaluate(&9700i64.to_string(), None, None), "9,700");
}

#[test]
fn test_string_numeric_input() {
    assert_eq!(NumberWithDelimiter.evaluate("9700", None, None), "9,700");
}

#[test]
fn test_custom_delimiter() {
    assert_eq!(NumberWithDelimiter.evaluate("1234567", Some("."), None), "1.234.567");
}

#[test]
fn test_negative_number() {
    assert_eq!(NumberWithDelimiter.evaluate("-1234567", None, None), "-1,234,567");
}

#[test]
fn test_float_keeps_fraction() {
    assert_eq!(NumberWithDelimiter.evaluate("1234567.89", None, None), "1,234,567.89");
}

#[test]
fn test_three_digits_unchanged() {
    assert_eq!(NumberWithDelimiter.evaluate("999", None, None), "999");
}

#[test]
fn test_zero_unchanged() {
    assert_eq!(NumberWithDelimiter.evaluate("0", None, None), "0");
}

#[test]
fn test_non_numeric_string_passthrough() {
    assert_eq!(NumberWithDelimiter.evaluate("n/a", None, None), "n/a");
}

#[test]
fn test_filter_basic() {
    assert_eq!(NumberWithDelimiter.evaluate("9700", None, None), "9,700");
}

#[test]
fn test_filter_millions() {
    assert_eq!(NumberWithDelimiter.evaluate("1234567", None, None), "1,234,567");
}

#[test]
fn test_filter_custom_delimiter_and_separator() {
    assert_eq!(NumberWithDelimiter.evaluate("1234,5", Some("."), Some(",")), "1.234,5");
}

// --- passthrough ---

#[test]
fn test_passthrough_reflection() {
    let filter = PassthroughFilter::new("my_filter");
    assert_eq!(filter.name(), "my_filter");
}
