use liquid::model::Value as LiquidValue;
use liquid::Object;

use rustkyll::context::{
    build_context, normalize_arrays, normalize_frontmatter_date, yaml_mapping_to_object, yaml_to_liquid, Yaml,
    YamlKey,
};
use rustkyll::filters::dates::expand_date_only_string_with_tz;
use rustkyll::value::Value;

// --- helpers: YAML in, values out ---

fn yaml_from_serde(y: &serde_yaml::Value) -> Yaml {
    match y {
        serde_yaml::Value::Null => Yaml::Null,
        serde_yaml::Value::Bool(b) => Yaml::Bool(*b),
        serde_yaml::Value::Number(n) => match n.as_i64() {
            Some(i) => Yaml::Int(i),
            None => match n.as_f64() {
                Some(f) => Yaml::Float(format!("{}", f)),
                None => Yaml::Str(n.to_string()),
            },
        },
        serde_yaml::Value::String(s) => Yaml::Str(s.clone()),
        serde_yaml::Value::Sequence(seq) => Yaml::Sequence(seq.iter().map(yaml_from_serde).collect()),
        serde_yaml::Value::Mapping(map) => Yaml::Mapping(mapping_from_serde(map)),
        serde_yaml::Value::Tagged(t) => Yaml::Tagged(Box::new(yaml_from_serde(&t.value))),
    }
}

fn mapping_from_serde(map: &serde_yaml::Mapping) -> Vec<(YamlKey, Yaml)> {
    map.iter()
        .map(|(k, v)| {
            let key = match k {
                serde_yaml::Value::String(s) => YamlKey::Str(s.clone()),
                other => YamlKey::Other(format!("{:?}", other)),
            };
            (key, yaml_from_serde(v))
        })
        .collect()
}

fn parse(src: &str) -> Yaml {
    let y: serde_yaml::Value = serde_yaml::from_str(src).unwrap();
    yaml_from_serde(&y)
}

fn parse_mapping(src: &str) -> Vec<(YamlKey, Yaml)> {
    match parse(src) {
        Yaml::Mapping(m) => m,
        _ => panic!("Expected Mapping"),
    }
}

/// A structural rendering of a value, for comparisons.
fn show(v: &Value) -> String {
    match v {
        Value::Nil => "nil".to_string(),
        Value::Bool(b) => format!("{}", b),
        Value::Int(i) => format!("{}", i),
        Value::Float(t) => format!("float {}", t),
        Value::Str(s) => format!("{:?}", s),
        Value::Array(items) => format!("[{}]", items.iter().map(show).collect::<Vec<_>>().join(", ")),
        Value::Object(entries) => format!(
            "{{{}}}",
            entries.iter().map(|(k, x)| format!("{}: {}", k, show(x))).collect::<Vec<_>>().join(", ")
        ),
    }
}

fn get<'a>(v: &'a Value, key: &str) -> Option<&'a Value> {
    match v {
        Value::Object(entries) => entries.iter().find(|(k, _)| k == key).map(|(_, x)| x),
        _ => None,
    }
}

fn get_show(v: &Value, key: &str) -> Option<String> {
    get(v, key).map(show)
}

fn s(x: &str) -> Value {
    Value::Str(x.to_string())
}

fn obj(pairs: Vec<(&str, Value)>) -> Value {
    Value::Object(pairs.into_iter().map(|(k, v)| (k.to_string(), v)).collect())
}

// --- helpers: rendering a template over library values with liquid ---

fn to_liquid(v: &Value) -> LiquidValue {
    match v {
        Value::Nil => LiquidValue::Nil,
        Value::Bool(b) => LiquidValue::scalar(*b),
        Value::Int(i) => LiquidValue::scalar(*i),
        Value::Float(t) => match t.parse::<f64>() {
            Ok(f) => LiquidValue::scalar(f),
            Err(_) => LiquidValue::scalar(t.clone()),
        },
        Value::Str(x) => LiquidValue::scalar(x.clone()),
        Value::Array(items) => LiquidValue::Array(items.iter().map(to_liquid).collect()),
        Value::Object(entries) => {
            let mut o = Object::new();
            for (k, x) in entries {
                o.insert(k.clone().into(), to_liquid(x));
            }
            LiquidValue::Object(o)
        }
    }
}

fn render(template: &str, ctx: &Value) -> String {
    let globals = match to_liquid(ctx) {
        LiquidValue::Object(o) => o,
        _ => Object::new(),
    };
    let parser = liquid::ParserBuilder::with_stdlib().build().unwrap();
    parser.parse(template).unwrap().render(&globals).unwrap()
}

// --- conversion of YAML values ---

#[test]
fn test_convert_string() {
    let liquid = yaml_to_liquid(&Yaml::Str("hello".into()));
    assert_eq!(show(&liquid), show(&s("hello")));
}

#[test]
fn test_convert_integer() {
    let liquid = yaml_to_liquid(&parse("42"));
    assert_eq!(show(&liquid), "42");
}

#[test]
fn test_convert_float() {
    let liquid = yaml_to_liquid(&parse("1.23"));
    assert_eq!(show(&liquid), "float 1.23");
}

#[test]
fn test_convert_bool() {
    let liquid = yaml_to_liquid(&Yaml::Bool(true));
    assert_eq!(show(&liquid), "true");
}

#[test]
fn test_convert_null() {
    let liquid = yaml_to_liquid(&Yaml::Null);
    assert_eq!(show(&liquid), "nil");
}

#[test]
fn test_convert_sequence() {
    let liquid = yaml_to_liquid(&parse("[1, 2, 3]"));
    assert_eq!(show(&liquid), "[1, 2, 3]");
}

#[test]
fn test_convert_mapping() {
    let liquid = yaml_to_liquid(&parse("title: Hello\ncount: 5"));
    match &liquid {
        Value::Object(_) => {
            assert_eq!(get_show(&liquid, "title"), Some(show(&s("Hello"))));
            assert_eq!(get_show(&liquid, "count"), Some("5".to_string()));
        }
        other => panic!("Expected Object, got {}", show(other)),
    }
}

#[test]
fn test_convert_nested_structure() {
    let yaml_str = r#"
page:
  title: "Test"
  tags:
    - rust
    - web
  meta:
    author: "Alice"
    count: 10
"#;
    let liquid = yaml_to_liquid(&parse(yaml_str));
    let page = get(&liquid, "page").expect("Expected page object");
    assert_eq!(get_show(page, "title"), Some(show(&s("Test"))));
    match get(page, "tags") {
        Some(Value::Array(tags)) => {
            assert_eq!(tags.len(), 2);
            assert_eq!(show(&tags[0]), show(&s("rust")));
        }
        _ => panic!("Expected tags array"),
    }
    match get(page, "meta") {
        Some(meta @ Value::Object(_)) => {
            assert_eq!(get_show(meta, "author"), Some(show(&s("Alice"))));
            assert_eq!(get_show(meta, "count"), Some("10".to_string()));
        }
        _ => panic!("Expected meta object"),
    }
}

#[test]
fn test_yaml_mapping_to_object() {
    let obj = yaml_mapping_to_object(&parse_mapping("a: 1\nb: hello"));
    assert_eq!(get_show(&obj, "a"), Some("1".to_string()));
    assert_eq!(get_show(&obj, "b"), Some(show(&s("hello"))));
}

#[test]
fn test_round_trip_yaml_to_template() {
    let page = yaml_mapping_to_object(&parse_mapping("title: My Page\nauthor: Alice\ncount: 42"));
    let ctx = obj(vec![("page", page)]);
    let output = render("{{ page.title }} by {{ page.author }} ({{ page.count }})", &ctx);
    assert_eq!(output, "My Page by Alice (42)");
}

#[test]
fn test_build_context_with_page_and_site() {
    let page_yaml = parse_mapping("title: Hello\nlayout: post");
    let site_yaml = parse_mapping("name: MySite\nurl: https://example.com");
    let ctx = build_context(Some(&page_yaml), Some(&site_yaml));
    let page = get(&ctx, "page").expect("Expected page object");
    assert_eq!(get_show(page, "title"), Some(show(&s("Hello"))));
    let site = get(&ctx, "site").expect("Expected site object");
    assert_eq!(get_show(site, "name"), Some(show(&s("MySite"))));
}

// --- normalize_arrays ---

#[test]
fn test_normalize_arrays_pads_missing_keys() {
    let arr = Value::Array(vec![
        obj(vec![("name", s("Alice"))]),
        obj(vec![("name", s("Bob")), ("role", s("Engineer"))]),
    ]);
    let normalized = normalize_arrays(&arr);
    match &normalized {
        Value::Array(items) => {
            assert_eq!(get_show(&items[0], "name"), Some(show(&s("Alice"))));
            assert_eq!(get_show(&items[0], "role"), Some("nil".to_string()));
            assert_eq!(get_show(&items[1], "name"), Some(show(&s("Bob"))));
            assert_eq!(get_show(&items[1], "role"), Some(show(&s("Engineer"))));
        }
        _ => panic!("Expected Array"),
    }
}

#[test]
fn test_normalize_arrays_recursive() {
    let inner = Value::Array(vec![
        obj(vec![("x", Value::Int(1))]),
        obj(vec![("x", Value::Int(2)), ("y", Value::Int(3))]),
    ]);
    let normalized = normalize_arrays(&obj(vec![("items", inner)]));
    match get(&normalized, "items") {
        Some(Value::Array(items)) => assert_eq!(get_show(&items[0], "y"), Some("nil".to_string())),
        _ => panic!("Expected Array"),
    }
}

#[test]
fn test_normalize_arrays_leaves_scalars_unchanged() {
    let scalar = s("hello");
    assert_eq!(show(&normalize_arrays(&scalar)), show(&scalar));
}

#[test]
fn test_normalize_arrays_leaves_non_object_arrays_unchanged() {
    let arr = Value::Array(vec![Value::Int(1), Value::Int(2)]);
    assert_eq!(show(&normalize_arrays(&arr)), show(&arr));
}

// --- the `date` key ---

#[test]
fn test_yaml_to_liquid_only_expands_date_key() {
    let yaml_str = "\ndate: 2025-11-07\ndateadded: 2022-02-27\ntitle: Not a date\n";
    let liquid = yaml_to_liquid(&parse(yaml_str));
    assert_eq!(get_show(&liquid, "date"), Some(show(&s("2025-11-07 00:00:00 +0000"))));
    assert_eq!(get_show(&liquid, "dateadded"), Some(show(&s("2022-02-27"))));
    assert_eq!(get_show(&liquid, "title"), Some(show(&s("Not a date"))));
}

#[test]
fn test_date_expansion_only_for_date_key_in_template() {
    let page = yaml_mapping_to_object(&parse_mapping("date: 2025-11-07\ndateadded: 2022-02-27"));
    let ctx = obj(vec![("page", page)]);
    let output = render("{{ page.date }} / {{ page.dateadded }}", &ctx);
    assert_eq!(output, "2025-11-07 00:00:00 +0000 / 2022-02-27");
}

#[test]
fn test_date_normalization_slash_format_with_timezone() {
    let result = expand_date_only_string_with_tz("2018/06/04 00:00", Some("Asia/Taipei"));
    assert_eq!(result, "2018-06-04 00:00:00 +0800");
}

#[test]
fn test_date_normalization_dash_format_with_time_and_timezone() {
    let result = expand_date_only_string_with_tz("2024-02-23 19:17", Some("Asia/Taipei"));
    assert_eq!(result, "2024-02-23 19:17:00 +0800");
}

#[test]
fn test_date_normalization_slash_format_no_timezone() {
    let result = expand_date_only_string_with_tz("2018/06/04 00:00", None);
    assert_eq!(result, "2018-06-04 00:00:00 +0000");
}

#[test]
fn test_date_normalization_slash_format_date_only() {
    let result = expand_date_only_string_with_tz("2018/06/04", Some("Asia/Taipei"));
    assert_eq!(result, "2018-06-04 00:00:00 +0800");
}

#[test]
fn test_date_normalization_existing_full_datetime_unchanged() {
    let result = expand_date_only_string_with_tz("2018-06-04 00:00:00 +0800", None);
    assert_eq!(result, "2018-06-04 00:00:00 +0800");
}

#[test]
fn test_date_normalization_iso8601_with_colon_tz() {
    let result = expand_date_only_string_with_tz("2024-11-23T20:16:52+08:00", None);
    assert_eq!(result, "2024-11-23 20:16:52 +0800");
}

#[test]
fn test_date_normalization_iso8601_utc_offset() {
    let result = expand_date_only_string_with_tz("2024-01-15T14:30:00+00:00", None);
    assert_eq!(result, "2024-01-15 14:30:00 +0000");
}

#[test]
fn test_date_normalization_iso8601_negative_offset() {
    let result = expand_date_only_string_with_tz("2024-06-15T10:00:00-05:00", None);
    assert_eq!(result, "2024-06-15 10:00:00 -0500");
}

#[test]
fn test_date_normalization_iso8601_z_suffix() {
    let result = expand_date_only_string_with_tz("2024-01-15T14:30:00Z", None);
    assert_eq!(result, "2024-01-15 14:30:00 +0000");
}

// --- page.date after front-matter normalization ---

/// The page context the layout builds from front matter: its entries as a
/// `page` object.
fn page_context(fm: &[(String, Yaml)]) -> Value {
    let mapping: Vec<(YamlKey, Yaml)> = fm
        .iter()
        .map(|(k, v)| {
            let v = match v {
                Yaml::Str(x) => Yaml::Str(x.clone()),
                _ => Yaml::Null,
            };
            (YamlKey::Str(k.clone()), v)
        })
        .collect();
    obj(vec![("page", yaml_mapping_to_object(&mapping))])
}

#[test]
fn test_page_date_normalized_in_render_context_slash_format_with_tz() {
    let mut page_fm: Vec<(String, Yaml)> = vec![
        ("date".into(), Yaml::Str("2018/06/04 00:00".into())),
        ("title".into(), Yaml::Str("Test note".into())),
    ];
    normalize_frontmatter_date(&mut page_fm, Some("Asia/Taipei"));
    let ctx = page_context(&page_fm);
    let output = render("datetime=\"{{ page.date }}\"", &ctx);
    assert_eq!(output, "datetime=\"2018-06-04 00:00:00 +0800\"");
}

#[test]
fn test_page_date_normalized_unicode_title_with_tz() {
    let mut page_fm: Vec<(String, Yaml)> = vec![
        ("date".into(), Yaml::Str("2023/07/11 15:27".into())),
        ("title".into(), Yaml::Str("Buchrezension \u{00fc}ber B\u{00fc}cher".into())),
    ];
    normalize_frontmatter_date(&mut page_fm, Some("Asia/Taipei"));
    let ctx = page_context(&page_fm);
    let output = render("{{ page.date }} - {{ page.title }}", &ctx);
    assert_eq!(output, "2023-07-11 15:27:00 +0800 - Buchrezension \u{00fc}ber B\u{00fc}cher");
}

#[test]
fn test_normalize_frontmatter_date_function() {
    let mut fm: Vec<(String, Yaml)> = vec![
        ("date".into(), Yaml::Str("2018/06/04 00:00".into())),
        ("title".into(), Yaml::Str("Not a date".into())),
    ];
    normalize_frontmatter_date(&mut fm, Some("Asia/Taipei"));
    let text = |k: &str| match fm.iter().find(|(n, _)| n == k) {
        Some((_, Yaml::Str(x))) => x.clone(),
        _ => panic!("missing {}", k),
    };
    assert_eq!(text("date"), "2018-06-04 00:00:00 +0800");
    assert_eq!(text("title"), "Not a date");
}

// --- key order of mappings ---

fn key_order(v: &Value) -> Vec<String> {
    match get(v, "__key_order").expect("should have __key_order") {
        Value::Array(items) => items
            .iter()
            .map(|x| match x {
                Value::Str(k) => k.clone(),
                other => show(other),
            })
            .collect(),
        _ => panic!("__key_order should be an Array"),
    }
}

#[test]
fn test_yaml_to_liquid_stores_key_order_301() {
    let yaml_str = "permissions:\n  - read\nconditions:\n  - notice\nlimitations:\n  - liability\n";
    let liquid_val = yaml_to_liquid(&parse(yaml_str));
    assert_eq!(key_order(&liquid_val), vec!["permissions", "conditions", "limitations"]);
}

#[test]
fn test_yaml_to_liquid_key_order_unicode_301() {
    let yaml_str = "beschreibung: H\u{00e4}llo\ntitel: W\u{00f6}rld\n";
    let liquid_val = yaml_to_liquid(&parse(yaml_str));
    assert_eq!(key_order(&liquid_val), vec!["beschreibung", "titel"]);
}

// --- own cases ---

#[test]
fn build_context_without_site_has_only_page() {
    let page_yaml = parse_mapping("title: Solo");
    let ctx = build_context(Some(&page_yaml), None);
    assert_eq!(show(&ctx), "{page: {title: \"Solo\"}}");
    let empty = build_context(None, None);
    assert_eq!(show(&empty), "{}");
}

#[test]
fn nested_mapping_date_is_expanded_and_key_order_recorded() {
    let liquid = yaml_to_liquid(&parse("post:\n  date: 2024-03-01\n  b: 1\n"));
    let post = get(&liquid, "post").unwrap();
    assert_eq!(get_show(post, "date"), Some(show(&s("2024-03-01 00:00:00 +0000"))));
    assert_eq!(key_order(post), vec!["date", "b"]);
    assert_eq!(key_order(&liquid), vec!["post"]);
}
