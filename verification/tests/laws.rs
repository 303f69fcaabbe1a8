use rustkyll::filter_names::unknown_filter_names;
use rustkyll::capture::preprocess_capture_tags;
use rustkyll::filters::numbers::group_thousands;
use rustkyll::lenient::lenient_value_size;
use rustkyll::link::LinkTagConfig;
use rustkyll::link::preprocess_jekyll_tags;
use rustkyll::link::preprocess_jekyll_tags_with_config;
use rustkyll::nil_contains::preprocess_nil_contains;
use rustkyll::protect::split_protected_segments;
use rustkyll::context::{normalize_arrays, normalize_frontmatter_date, Yaml};
use rustkyll::filters::dates::{
    convert_utc_naive_to_site_tz, date_string_from_parts, long_date_string_from_parts, resolve_site_tz,
};
use rustkyll::outside::Civil;
use rustkyll::filter_names::{extract_unknown_filter_name, is_unknown_filter_error};
use rustkyll::filters::cgi_escape::CgiEscape;
use rustkyll::filters::grouping::{GroupBy, GroupByExp};
use rustkyll::filters::jsonify::Jsonify;
use rustkyll::filters::words::{NormalizeWhitespace, NumberOfWords};
use rustkyll::lenient::{lenient_get, lenient_size, uses_related_posts};
use rustkyll::link::resolve_link_post_url;
use rustkyll::pipeline::preprocess_all;
use rustkyll::tags::blocks::html_escape;
use rustkyll::value::Value;

fn s(x: &str) -> Value {
    Value::Str(x.to_string())
}

fn obj(pairs: &[(&str, Value)]) -> Value {
    Value::Object(pairs.iter().map(|(k, v)| (k.to_string(), v.duplicate())).collect())
}

fn chars(x: &str) -> Vec<char> {
    x.chars().collect()
}

fn sizes(groups: &Value) -> i64 {
    let mut total = 0;
    if let Value::Array(gs) = groups {
        for g in gs {
            if let Value::Object(entries) = g {
                for (k, v) in entries {
                    if let (true, Value::Int(n)) = (k == "size", v) {
                        total += *n;
                    }
                }
            }
        }
    }
    total
}

#[test]
fn html_escape_leaves_no_attribute_specials() {
    let out: String = html_escape(&chars("a\"b'c<d>e&f")).into_iter().collect();
    assert_eq!(out, "a&quot;b&#39;c&lt;d&gt;e&amp;f");
    assert!(!out.contains('<') && !out.contains('>') && !out.contains('"') && !out.contains('\''));
}

#[test]
fn cgi_escape_writes_only_safe_characters() {
    let all: String = (1u8..128).map(|b| b as char).chain("é中🎉".chars()).collect();
    let out = CgiEscape.evaluate(&all);
    assert!(out
        .chars()
        .all(|c| c.is_ascii_alphanumeric() || "-._+%".contains(c)));
    assert!(out.starts_with("%01%02"));
}

#[test]
fn groups_hold_every_item_once() {
    let items = Value::Array(vec![
        obj(&[("t", s("b"))]),
        obj(&[("t", s("a"))]),
        obj(&[("u", s("x"))]),
        obj(&[("t", s("b"))]),
        s("plain"),
    ]);
    assert_eq!(sizes(&GroupBy.evaluate(&items, "t")), 5);
    let keys: Vec<String> = vec!["1", "2", "1", "3", "2"].into_iter().map(String::from).collect();
    assert_eq!(sizes(&GroupByExp.evaluate(&items, &keys)), 5);
}

#[test]
fn unordered_object_keys_come_out_sorted() {
    let o = obj(&[("zeta", Value::Int(1)), ("alpha", Value::Int(2)), ("Mid", Value::Int(3))]);
    assert_eq!(Jsonify.evaluate(&o), "{\"Mid\":3,\"alpha\":2,\"zeta\":1}");
}

#[test]
fn normalized_whitespace_is_single_spaced() {
    let out = NormalizeWhitespace.evaluate("  a \t\n b\u{3000}\u{3000}c  ");
    assert_eq!(out, "a b c");
    let visible: String = "  a \t\n b\u{3000}\u{3000}c  ".chars().filter(|c| !c.is_whitespace()).collect();
    assert_eq!(out.replace(' ', ""), visible);
}

#[test]
fn dated_post_urls_have_single_slashes() {
    let url: String = resolve_link_post_url(
        &chars("2024-03-05-hello.md"),
        &chars("/:categories//:year/:month//:day/:title/"),
    )
    .into_iter()
    .collect();
    assert_eq!(url, "/2024/03/05/hello/");
    assert!(!url.contains("//"));
}

#[test]
fn plain_content_is_not_preprocessed() {
    let t = "Just text, { braces } and % signs, no Liquid.";
    assert_eq!(preprocess_all(t), t);
}

#[test]
fn normalized_objects_share_their_keys() {
    let arr = Value::Array(vec![
        obj(&[("a", Value::Int(1))]),
        obj(&[("b", Value::Int(2)), ("c", Value::Nil)]),
        Value::Int(7),
    ]);
    let out = normalize_arrays(&arr);
    let key_sets: Vec<Vec<String>> = match &out {
        Value::Array(items) => items
            .iter()
            .filter_map(|v| match v {
                Value::Object(es) => {
                    let mut ks: Vec<String> = es.iter().map(|(k, _)| k.clone()).collect();
                    ks.sort();
                    Some(ks)
                }
                _ => None,
            })
            .collect(),
        _ => vec![],
    };
    assert_eq!(key_sets.len(), 2);
    assert_eq!(key_sets[0], vec!["a", "b", "c"]);
    assert_eq!(key_sets[0], key_sets[1]);
}

#[test]
fn missing_keys_read_as_nil() {
    let o = obj(&[("title", s("T"))]);
    assert!(matches!(lenient_get(&o, "nope"), Some(Value::Nil)));
    assert!(matches!(lenient_get(&s("str"), "anything"), Some(Value::Nil)));
    assert!(lenient_get(&s("str"), "size").is_none());
}

#[test]
fn named_unknown_filters_are_unknown_filter_errors() {
    let err = "Unknown filter\nrequested filter=mystery\n";
    assert_eq!(extract_unknown_filter_name(err), Some("mystery".to_string()));
    assert!(is_unknown_filter_error(err));
}

#[test]
fn site_time_zones_resolve_and_convert() {
    assert_eq!(resolve_site_tz("Europe/Berlin"), Some("Europe/Berlin".to_string()));
    assert_eq!(resolve_site_tz("Not/AZone"), None);
    let utc = Civil { year: 2024, month: 7, day: 1, hour: 22, minute: 30, second: 0, nano: 0 };
    let local = convert_utc_naive_to_site_tz(utc, Some("Europe/Berlin"));
    assert_eq!((local.year, local.month, local.day, local.hour, local.minute), (2024, 7, 2, 0, 30));
    let same = convert_utc_naive_to_site_tz(
        Civil { year: 2024, month: 7, day: 1, hour: 22, minute: 30, second: 0, nano: 0 },
        None,
    );
    assert_eq!((same.day, same.hour), (1, 22));
}

#[test]
fn frontmatter_date_is_expanded_in_place() {
    let mut fm = vec![
        ("title".to_string(), Yaml::Str("Post".to_string())),
        ("date".to_string(), Yaml::Str("2018/06/04 00:00".to_string())),
    ];
    normalize_frontmatter_date(&mut fm, Some("Europe/Berlin"));
    assert!(matches!(&fm[1].1, Yaml::Str(d) if d == "2018-06-04 00:00:00 +0200"));
    assert!(matches!(&fm[0].1, Yaml::Str(t) if t == "Post"));
    let mut other = vec![("date".to_string(), Yaml::Int(5))];
    normalize_frontmatter_date(&mut other, None);
    assert!(matches!(other[0].1, Yaml::Int(5)));
}

#[test]
fn size_skips_key_order_and_related_posts_scan() {
    let with_order = vec![
        ("a".to_string(), Value::Int(1)),
        ("__key_order".to_string(), Value::Array(vec![s("a")])),
    ];
    assert_eq!(lenient_size(&with_order), 1);
    assert_eq!(lenient_size(&vec![("a".to_string(), Value::Int(1))]), 1);
    assert!(uses_related_posts(&vec!["{% for p in site.related_posts %}".to_string()]));
    assert!(!uses_related_posts(&vec!["{{ site.posts }}".to_string()]));
}

#[test]
fn date_strings_from_their_parts() {
    let us = date_string_from_parts(15, "Jan", "2024", "15 Jan 2024", Some("ordinal"), Some("US"));
    assert_eq!(us, "Jan 15th, 2024");
    assert_eq!(date_string_from_parts(22, "Feb", "2023", "22 Feb 2023", Some("ordinal"), None), "22nd Feb 2023");
    assert_eq!(date_string_from_parts(3, "Mar", "2022", "03 Mar 2022", None, Some("US")), "03 Mar 2022");
    assert_eq!(long_date_string_from_parts(5, "January", "2024", None), "05 January 2024");
    assert_eq!(long_date_string_from_parts(11, "May", "2021", Some("ordinal")), "11th May 2021");
}

#[test]
fn normalizing_whitespace_keeps_the_word_count() {
    let t = "  one\ttwo \n\n three  ";
    let n = NormalizeWhitespace.evaluate(t);
    assert_eq!(NumberOfWords.evaluate(t, None), 3);
    assert_eq!(NumberOfWords.evaluate(&n, None), 3);
}

#[test]
fn arrays_without_objects_are_not_normalized() {
    let v = Value::Array(vec![Value::Int(1), Value::Array(vec![s("x"), Value::Nil]), Value::Bool(true)]);
    assert_eq!(Jsonify.evaluate(&normalize_arrays(&v)), Jsonify.evaluate(&v));
    assert_eq!(Jsonify.evaluate(&normalize_arrays(&s("scalar"))), "\"scalar\"");
}

fn tag_entries(with_order: bool) -> Vec<(String, Value)> {
    let mut tags: Vec<(String, Value)> = Vec::new();
    if with_order {
        tags.push(("__key_order".to_string(), Value::Array(vec![s("sample"), s("test")])));
    }
    tags.push(("sample".to_string(), Value::Array(vec![s("post1")])));
    tags.push(("test".to_string(), Value::Array(vec![s("post2")])));
    tags
}

#[test]
fn test_size_excludes_key_order_metadata() {
    // `{{ site.tags.size }}` on an object that records its key order.
    let output = lenient_size(&tag_entries(true)).to_string();
    assert_eq!(output, "2", ".size on Object with __key_order should exclude the metadata key");
}

#[test]
fn test_size_without_key_order_unchanged() {
    let output = lenient_size(&tag_entries(false)).to_string();
    assert_eq!(output, "2", ".size on Object without __key_order should count all keys");
}

#[test]
fn local_time_past_chrono_range_keeps_the_date() {
    let last = Civil { year: 262142, month: 12, day: 31, hour: 23, minute: 30, second: 0, nano: 0 };
    let out = convert_utc_naive_to_site_tz(last, Some("Asia/Tokyo"));
    assert_eq!((out.year, out.month, out.day, out.hour, out.minute), (262142, 12, 31, 23, 30));
    let first = Civil { year: 262142, month: 12, day: 31, hour: 10, minute: 0, second: 0, nano: 0 };
    let out = convert_utc_naive_to_site_tz(first, Some("Asia/Tokyo"));
    assert_eq!((out.year, out.month, out.day, out.hour), (262142, 12, 31, 19));
}

#[test]
fn lenient_size_of_any_value() {
    assert_eq!(lenient_value_size(&Value::Object(tag_entries(true))), 2);
    assert_eq!(lenient_value_size(&Value::Object(tag_entries(false))), 2);
    assert_eq!(lenient_value_size(&s("text")), 0);
    assert_eq!(lenient_value_size(&Value::Array(vec![s("a"), s("b")])), 0);
    assert_eq!(lenient_value_size(&Value::Nil), 0);
}

// --- laws added for the rewriting passes, normalization and grouping ---

#[test]
fn segments_are_well_formed() {
    let t = "a {% raw %}{{ x }}{% endraw %}\n```\ncode\n```\nb {{ y }}";
    let segs = split_protected_segments(&chars(t));
    let joined: String = segs.iter().flat_map(|(s, _)| s.iter()).collect();
    assert_eq!(joined, t);
    assert!(segs.iter().all(|(s, _)| !s.is_empty()));
    for w in segs.windows(2) {
        assert!(w[0].1 || w[1].1, "two unprotected segments side by side");
    }
    for (s, p) in &segs {
        if *p {
            let text: String = s.iter().collect();
            assert!(text.starts_with("{%") || text.starts_with("```") || text.starts_with("~~~"), "{}", text);
        }
    }
    assert_eq!(segs.iter().filter(|(_, p)| *p).count(), 2);
}

#[test]
fn passes_leave_templates_without_their_tags_unchanged() {
    let t = r#"{% assign x = "hello" %}{% for item in items %}{% endfor %}{% if page.title == "hello" %}yes{% endif %}"#;
    assert_eq!(preprocess_nil_contains(t), t);
    assert_eq!(preprocess_jekyll_tags(t), t);
    let c = "{% capture greeting %}hi{% endcapture %}{{ greeting }}";
    assert_eq!(preprocess_capture_tags(c), c);
}

#[test]
fn capture_rewrite_is_idempotent_and_not_longer() {
    let t = "{%- capture v do -%}x{% endcapture %} {% capture  w  a b %}";
    let once = preprocess_capture_tags(t);
    assert_eq!(once, "{%- capture v -%}x{% endcapture %} {% capture w %}");
    assert!(once.chars().count() <= t.chars().count());
    assert_eq!(preprocess_capture_tags(&once), once);
}

#[test]
fn normalizing_twice_is_normalizing_once() {
    let v = Value::Array(vec![
        obj(&[("a", Value::Int(1))]),
        obj(&[("b", Value::Array(vec![obj(&[("x", Value::Int(1))]), obj(&[("y", Value::Int(2))])]))]),
        s("plain"),
    ]);
    let once = normalize_arrays(&v);
    assert_eq!(Jsonify.evaluate(&normalize_arrays(&once)), Jsonify.evaluate(&once));
    assert_eq!(
        Jsonify.evaluate(&once),
        "[{\"a\":1,\"b\":null},{\"a\":null,\"b\":[{\"x\":1,\"y\":null},{\"x\":null,\"y\":2}]},\"plain\"]"
    );
    let o = obj(&[("k", Value::Array(vec![obj(&[("p", Value::Int(1))]), obj(&[("q", Value::Int(2))])]))]);
    match normalize_arrays(&o) {
        Value::Object(es) => assert_eq!(es.iter().map(|(k, _)| k.as_str()).collect::<Vec<_>>(), vec!["k"]),
        _ => panic!("object expected"),
    }
}

#[test]
fn object_json_lists_recorded_keys_then_sorted_rest() {
    let o = obj(&[
        ("__key_order", Value::Array(vec![s("zeta"), s("alpha")])),
        ("alpha", Value::Int(1)),
        ("zeta", Value::Int(2)),
        ("mid", Value::Int(3)),
        ("beta", Value::Int(4)),
    ]);
    assert_eq!(Jsonify.evaluate(&o), "{\"zeta\":2,\"alpha\":1,\"beta\":4,\"mid\":3}");
}

#[test]
fn grouped_numbers_round_trip() {
    let g = |x: &str, d: &str| group_thousands(&chars(x), &chars(d)).into_iter().collect::<String>();
    assert_eq!(g("-1234567", ","), "-1,234,567");
    assert_eq!(g("999", ","), "999");
    assert_eq!(g("+1000", " "), "+1 000");
    for (x, d) in [("-1234567", ","), ("12345678901", "::"), ("1000", " "), ("7", ",")] {
        let out = g(x, d);
        assert_eq!(out.replace(d, ""), x);
        let n = x.trim_start_matches(|c| c == '+' || c == '-').len();
        assert_eq!(out.matches(d).count(), (n - 1) / 3);
    }
}

#[test]
fn collection_links_drop_the_extension() {
    let cfg = LinkTagConfig {
        page_permalink_style: "pretty".to_string(),
        collection_suffixes: Some(vec![("docs".to_string(), "/".to_string())]),
        post_permalink_pattern: "/:categories/:year/:month/:day/:title.html".to_string(),
    };
    assert_eq!(preprocess_jekyll_tags_with_config("{% link _pages/banners.md %}", &cfg), "/pages/banners");
    assert_eq!(preprocess_jekyll_tags_with_config("{% link _docs/a/b.md %}", &cfg), "/docs/a/b/");
    assert_eq!(preprocess_jekyll_tags_with_config("{% link _docs/a/index.md %}", &cfg), "/docs/a/");
}

#[test]
fn json_strings_escape_as_serde_json_does() {
    let v = s("a\"b\\c\nd\te\u{1}f\u{1f}é/");
    assert_eq!(Jsonify.evaluate(&v), "\"a\\\"b\\\\c\\nd\\te\\u0001f\\u001fé/\"");
    assert_eq!(Jsonify.evaluate(&v), serde_json::to_string("a\"b\\c\nd\te\u{1}f\u{1f}é/").unwrap());
}

#[test]
fn nested_arrays_are_uniform_with_nil_for_added_keys() {
    let inner = Value::Array(vec![obj(&[("x", Value::Int(1))]), obj(&[("y", Value::Int(2))])]);
    let v = obj(&[("outer", Value::Array(vec![obj(&[("list", inner)])]))]);
    let out = normalize_arrays(&v);
    assert_eq!(Jsonify.evaluate(&out), "{\"outer\":[{\"list\":[{\"x\":1,\"y\":null},{\"x\":null,\"y\":2}]}]}");
    match &out {
        Value::Object(es) => match &es[0].1 {
            Value::Array(items) => match &items[0] {
                Value::Object(l) => match &l[0].1 {
                    Value::Array(objs) => match (&objs[0], &objs[1]) {
                        (Value::Object(a), Value::Object(b)) => {
                            assert_eq!(a.iter().map(|(k, _)| k.as_str()).collect::<Vec<_>>(), vec!["x", "y"]);
                            assert_eq!(b.iter().map(|(k, _)| k.as_str()).collect::<Vec<_>>(), vec!["y", "x"]);
                            assert!(matches!(a[1].1, Value::Nil));
                            assert!(matches!(b[1].1, Value::Nil));
                        }
                        _ => panic!("objects expected"),
                    },
                    _ => panic!("array expected"),
                },
                _ => panic!("object expected"),
            },
            _ => panic!("array expected"),
        },
        _ => panic!("object expected"),
    }
}

#[test]
fn capture_rewrite_takes_no_more_bytes() {
    let t = "{%capture\u{3000}x\u{3000}more%}";
    let r = preprocess_capture_tags(t);
    assert_eq!(r, "{% capture x %}");
    assert!(r.len() <= t.len());
    let u = "{%capture x y%}";
    assert_eq!(preprocess_capture_tags(u), "{% capture x %}");
    assert_eq!(preprocess_capture_tags(u).len(), u.len());
}

#[test]
fn collection_names_are_checked_for_repeats() {
    let ok = LinkTagConfig {
        page_permalink_style: String::new(),
        collection_suffixes: Some(vec![("docs".to_string(), "/".to_string()), ("notes".to_string(), "".to_string())]),
        post_permalink_pattern: "/:title.html".to_string(),
    };
    assert!(ok.collections_distinct());
    let twice = LinkTagConfig {
        page_permalink_style: String::new(),
        collection_suffixes: Some(vec![("docs".to_string(), "/".to_string()), ("docs".to_string(), "".to_string())]),
        post_permalink_pattern: "/:title.html".to_string(),
    };
    assert!(!twice.collections_distinct());
}

#[test]
fn unknown_filters_are_the_rejected_candidates() {
    let cands = vec!["slugify".to_string(), "erl_encode".to_string(), "chain".to_string(), "bad".to_string()];
    let probes = vec![
        None,
        Some("liquid: Unknown filter\n  requested filter=erl_encode".to_string()),
        Some("parse error in FilterChain".to_string()),
        Some("syntax error".to_string()),
    ];
    assert_eq!(unknown_filter_names(&cands, &probes), vec!["erl_encode".to_string(), "chain".to_string()]);
}
