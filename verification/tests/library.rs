use rustkyll::context::{normalize_arrays, yaml_to_liquid, Yaml, YamlKey};
use rustkyll::errors::TemplateError;
use rustkyll::filter_names::{extract_unknown_filter_name, filter_name_candidates};
use rustkyll::filters::cgi_escape::CgiEscape;
use rustkyll::filters::collections::{ArrayToSentenceString, Camelcase, Compact, Find, Join, MapFilter};
use rustkyll::filters::dates::{
    format_date_to_xmlschema, Date, DateToLongString, DateToRfc822, DateToString,
};
use rustkyll::filters::grouping::{GroupBy, GroupByExp};
use rustkyll::filters::jsonify::Jsonify;
use rustkyll::filters::markdownify::convert_math_delimiters;
use rustkyll::filters::numbers::{Minus, NumberWithDelimiter, Plus, Times};
use rustkyll::filters::urls::AbsoluteUrl;
use rustkyll::filters::words::{NewlineToBr, NormalizeWhitespace, NumberOfWords};
use rustkyll::includes::{load_includes, load_includes_merged};
use rustkyll::lenient::{lenient_get, uses_prev_next};
use rustkyll::outside::Civil;
use rustkyll::tags::avatar::{AvatarTag, AvatarToken, UsernameSource};
use rustkyll::tags::blocks::{strip_p_tags, DetailsBlock, FeedMetaTag, FileExistsTag};
use rustkyll::value::Value;

fn s(x: &str) -> Value {
    Value::Str(x.to_string())
}

fn obj(pairs: &[(&str, Value)]) -> Value {
    let mut v = Vec::new();
    for (k, x) in pairs {
        v.push((k.to_string(), x.duplicate()));
    }
    Value::Object(v)
}

fn text(v: &Value) -> String {
    v.render_chars().into_iter().collect()
}

fn json(v: &Value) -> String {
    Jsonify.evaluate(v)
}

// --- cgi_escape ---

#[test]
fn cgi_escape_cases() {
    assert_eq!(CgiEscape.evaluate("foo bar"), "foo+bar");
    assert_eq!(CgiEscape.evaluate("@Al_Grigor"), "%40Al_Grigor");
    assert_eq!(CgiEscape.evaluate("https://example.com"), "https%3A%2F%2Fexample.com");
    assert_eq!(
        CgiEscape.evaluate("Creating an AWS Account by @Al_Grigor https://example.com"),
        "Creating+an+AWS+Account+by+%40Al_Grigor+https%3A%2F%2Fexample.com"
    );
    assert_eq!(CgiEscape.evaluate(""), "");
    assert_eq!(CgiEscape.evaluate("abc123"), "abc123");
    assert_eq!(CgiEscape.evaluate("a-b.c_d"), "a-b.c_d");
    assert_eq!(CgiEscape.evaluate("a&b=c"), "a%26b%3Dc");
    assert_eq!(CgiEscape.evaluate("cafe\u{0301}"), "cafe%CC%81");
}

// --- newline_to_br / normalize_whitespace / number_of_words ---

#[test]
fn newline_to_br_cases() {
    assert_eq!(NewlineToBr.evaluate("hello\nworld"), "hello<br />\nworld");
    assert_eq!(NewlineToBr.evaluate("no newlines"), "no newlines");
    assert_eq!(NewlineToBr.evaluate(""), "");
    assert_eq!(NewlineToBr.evaluate("line1\nline2\nline3"), "line1<br />\nline2<br />\nline3");
    let w = NewlineToBr.evaluate("hello\r\nworld");
    assert_eq!(w.matches("<br />").count(), 1);
    assert_eq!(w, "hello<br />\nworld");
}

#[test]
fn normalize_whitespace_cases() {
    assert_eq!(NormalizeWhitespace.evaluate("hello   world"), "hello world");
    assert_eq!(NormalizeWhitespace.evaluate("hello\t\tworld\n\nfoo"), "hello world foo");
    assert_eq!(NormalizeWhitespace.evaluate("  hello   world  "), "hello world");
    assert_eq!(NormalizeWhitespace.evaluate(""), "");
    assert_eq!(NormalizeWhitespace.evaluate("already clean"), "already clean");
    assert_eq!(NormalizeWhitespace.evaluate("   \t\n  "), "");
    assert_eq!(NormalizeWhitespace.evaluate("  hello   world\n\t foo  "), "hello world foo");
    assert_eq!(NormalizeWhitespace.evaluate("hello\r\nworld"), "hello world");
}

#[test]
fn number_of_words_cases() {
    let n = |t: &str, m: Option<&str>| NumberOfWords.evaluate(t, m);
    assert_eq!(n("Hello world", None), 2);
    assert_eq!(n("", None), 0);
    assert_eq!(n("  spaces  between  words  ", None), 3);
    assert_eq!(n("single", None), 1);
    assert_eq!(n("one\ntwo\tthree", None), 3);
    assert_eq!(n("Hello world", Some("auto")), 2);
    assert_eq!(n("Hello world", Some("cjk")), 2);
    assert_eq!(n("\u{4f60}\u{597d}\u{4e16}\u{754c}\u{554a}", Some("auto")), 5);
    assert_eq!(n("\u{3042}\u{3044}\u{3046}", Some("auto")), 3);
    assert_eq!(n("\u{ac00}\u{b098}\u{b2e4}\u{b77c}", Some("auto")), 4);
    assert_eq!(n("Hello \u{4e16}\u{754c}", Some("auto")), 3);
    assert_eq!(n("Hello \u{4e16}\u{754c}", Some("cjk")), 3);
    assert_eq!(n("\u{4f60} \u{597d} \u{4e16}", Some("auto")), 3);
    assert_eq!(n("", Some("auto")), 0);
    assert_eq!(n("   \t\n  ", Some("auto")), 0);
    assert_eq!(n("Hello \u{4e16}\u{754c}", Some("foo")), 2);
    assert_eq!(n("I love \u{6771}\u{4eac} very much", Some("auto")), 6);
    assert_eq!(n("\u{30a2}\u{30a4}\u{30a6}", Some("auto")), 3);
    assert_eq!(n("Hello \u{4e16}\u{754c}", None), 2);
}

// --- number_with_delimiter ---

#[test]
fn number_with_delimiter_cases() {
    let f = |t: &str, d: Option<&str>, sp: Option<&str>| NumberWithDelimiter.evaluate(t, d, sp);
    assert_eq!(f("9700", Some(","), None), "9,700");
    assert_eq!(f("1234567", None, None), "1,234,567");
    assert_eq!(f("1234567", Some("."), None), "1.234.567");
    assert_eq!(f("-1234567", None, None), "-1,234,567");
    assert_eq!(f("1234567.89", None, None), "1,234,567.89");
    assert_eq!(f("999", None, None), "999");
    assert_eq!(f("0", None, None), "0");
    assert_eq!(f("n/a", None, None), "n/a");
    assert_eq!(f("1234,5", Some("."), Some(",")), "1.234,5");
    // An empty separator splits before the first character.
    assert_eq!(f("1234", None, Some("")), "1234");
}

// --- math ---

#[test]
fn math_integer_cases() {
    assert_eq!(Times.evaluate_integers(&Value::Int(3), &Value::Int(4)), 12);
    assert_eq!(Times.evaluate_integers(&s("<"), &Value::Int(1)), 0);
    assert_eq!(Times.evaluate_integers(&s("3"), &Value::Int(2)), 6);
    assert_eq!(Plus.evaluate_integers(&s("abc"), &Value::Int(5)), 5);
    assert_eq!(Minus.evaluate_integers(&s("abc"), &Value::Int(3)), -3);
    assert_eq!(Plus.evaluate_integers(&s("+7"), &s("-2")), 5);
    assert_eq!(Plus.evaluate_integers(&s("9223372036854775807"), &Value::Int(0)), i64::MAX);
    assert_eq!(Plus.evaluate_integers(&s("9223372036854775808"), &Value::Int(1)), 1);
    assert_eq!(Minus.evaluate_integers(&s("-9223372036854775808"), &Value::Int(0)), i64::MIN);
    assert_eq!(Plus.evaluate_integers(&Value::Nil, &Value::Bool(true)), 0);
}

// --- join / array_to_sentence_string / compact / map / find / camelcase ---

#[test]
fn join_cases() {
    let arr = Value::Array(vec![s("a"), s("b"), s("c")]);
    assert_eq!(text(&Join.evaluate(&arr, Some(","))), "a,b,c");
    let xy = Value::Array(vec![s("x"), s("y")]);
    assert_eq!(text(&Join.evaluate(&xy, None)), "x y");
    assert_eq!(text(&Join.evaluate(&s("hello,world"), Some(","))), "hello,world");
    assert_eq!(text(&Join.evaluate(&Value::Nil, Some(","))), "");
    let nested = Value::Array(vec![
        Value::Array(vec![s("cool posts"), s("cat1")]),
        Value::Array(vec![s("cool posts"), s("cat2")]),
    ]);
    assert_eq!(text(&Join.evaluate(&nested, Some(","))), "cool posts,cat1,cool posts,cat2");
    let uni = Value::Array(vec![s("\u{4F60}\u{597D}"), s("\u{4E16}\u{754C}")]);
    assert_eq!(text(&Join.evaluate(&uni, Some(","))), "\u{4F60}\u{597D},\u{4E16}\u{754C}");
}

#[test]
fn array_to_sentence_cases() {
    let f = |v: &Value| ArrayToSentenceString.evaluate(v, None);
    assert_eq!(f(&Value::Nil), "");
    assert_eq!(f(&Value::Array(vec![])), "");
    assert_eq!(f(&Value::Array(vec![s("release")])), "release");
    assert_eq!(f(&Value::Array(vec![s("release"), s("update")])), "release, and update");
    assert_eq!(f(&Value::Array(vec![s("a"), s("b"), s("c")])), "a, b, and c");
    assert_eq!(
        ArrayToSentenceString.evaluate(&Value::Array(vec![s("a"), s("b")]), Some("or")),
        "a, or b"
    );
}

#[test]
fn compact_cases() {
    let r = Compact.evaluate(&Value::Array(vec![s("a"), Value::Nil, s("b")]));
    assert_eq!(json(&r), "[\"a\",\"b\"]");
    let nested = Value::Array(vec![
        Value::Array(vec![s("A"), s("B")]),
        Value::Nil,
        Value::Array(vec![s("C")]),
    ]);
    assert_eq!(json(&Compact.evaluate(&nested)), "[\"A\",\"B\",\"C\"]");
    assert!(matches!(Compact.evaluate(&s("not an array")), Value::Nil));
}

#[test]
fn map_cases() {
    let items = Value::Array(vec![
        obj(&[("tags", Value::Array(vec![s("a"), s("b")]))]),
        obj(&[("tags", Value::Array(vec![s("c")]))]),
        obj(&[("other", s("x"))]),
    ]);
    assert_eq!(json(&MapFilter.evaluate(&items, "tags")), "[\"a\",\"b\",\"c\",null]");
    let plain = Value::Array(vec![obj(&[("title", s("T1"))]), obj(&[("title", s("T2"))])]);
    assert_eq!(json(&MapFilter.evaluate(&plain, "title")), "[\"T1\",\"T2\"]");
    assert!(matches!(MapFilter.evaluate(&s("x"), "title"), Value::Nil));
}

#[test]
fn find_cases() {
    let input = Value::Array(vec![
        obj(&[("name", s("about.md")), ("title", s("About"))]),
        obj(&[("name", s("index.md")), ("title", s("Home"))]),
    ]);
    let r = Find.evaluate(&input, "name", "about.md");
    assert_eq!(json(&r), "{\"name\":\"about.md\",\"title\":\"About\"}");
    assert!(matches!(Find.evaluate(&input, "name", "nonexistent"), Value::Nil));
    let dup = Value::Array(vec![
        obj(&[("status", s("active")), ("name", s("first"))]),
        obj(&[("status", s("active")), ("name", s("second"))]),
    ]);
    assert_eq!(text(&lenient_get(&Find.evaluate(&dup, "status", "active"), "name").unwrap()), "first");
    assert!(matches!(Find.evaluate(&Value::Array(vec![]), "name", "a"), Value::Nil));
    assert!(matches!(Find.evaluate(&s("not an array"), "name", "a"), Value::Nil));
    let skip = Value::Array(vec![
        obj(&[("other", s("value"))]),
        obj(&[("name", s("target.md")), ("title", s("Target"))]),
    ]);
    assert_eq!(text(&lenient_get(&Find.evaluate(&skip, "name", "target.md"), "title").unwrap()), "Target");
    let uni = Value::Array(vec![
        obj(&[("name", s("hello"))]),
        obj(&[("name", s("\u{00fc}ber-page.md")), ("title", s("Das \u{00dc}ber"))]),
    ]);
    assert_eq!(
        text(&lenient_get(&Find.evaluate(&uni, "name", "\u{00fc}ber-page.md"), "title").unwrap()),
        "Das \u{00dc}ber"
    );
}

#[test]
fn camelcase_passes_through() {
    for t in ["hello_world", "tutorial", "Jekyll", "", "web development"] {
        assert_eq!(text(&Camelcase.evaluate(&s(t))), t);
    }
}

// --- group_by / group_by_exp ---

#[test]
fn group_by_cases() {
    let input = Value::Array(vec![
        obj(&[("type", s("a")), ("v", s("1"))]),
        obj(&[("type", s("b")), ("v", s("2"))]),
        obj(&[("type", s("a")), ("v", s("3"))]),
    ]);
    let r = GroupBy.evaluate(&input, "type");
    assert_eq!(
        json(&r),
        "[{\"items\":[{\"type\":\"a\",\"v\":\"1\"},{\"type\":\"a\",\"v\":\"3\"}],\"name\":\"a\",\"size\":2},\
{\"items\":[{\"type\":\"b\",\"v\":\"2\"}],\"name\":\"b\",\"size\":1}]"
    );
    let missing = Value::Array(vec![obj(&[("type", s("a"))]), obj(&[("other", s("val"))])]);
    let r2 = GroupBy.evaluate(&missing, "type");
    assert_eq!(json(&r2), "[{\"items\":[{\"other\":\"val\"}],\"name\":\"\",\"size\":1},{\"items\":[{\"type\":\"a\"}],\"name\":\"a\",\"size\":1}]");
    assert_eq!(json(&GroupBy.evaluate(&Value::Array(vec![]), "type")), "[]");
    assert_eq!(json(&GroupBy.evaluate(&s("not an array"), "type")), "[]");
}

#[test]
fn group_by_exp_keeps_first_appearance_order() {
    let input = Value::Array(vec![s("x"), s("y"), s("z")]);
    let keys = vec!["2024".to_string(), "2023".to_string(), "2024".to_string()];
    let r = GroupByExp.evaluate(&input, &keys);
    assert_eq!(
        json(&r),
        "[{\"items\":[\"x\",\"z\"],\"name\":\"2024\",\"size\":2},{\"items\":[\"y\"],\"name\":\"2023\",\"size\":1}]"
    );
}

// --- absolute_url ---

#[test]
fn absolute_url_cases() {
    assert_eq!(AbsoluteUrl.evaluate("/about.html", "", ""), "/about.html");
    assert_eq!(
        AbsoluteUrl.evaluate("/images/podcast/hybrid search.jpg", "", ""),
        "/images/podcast/hybrid%20search.jpg"
    );
    assert_eq!(
        AbsoluteUrl.evaluate("https://example.com/path", "https://site.org", ""),
        "https://example.com/path"
    );
    assert_eq!(AbsoluteUrl.evaluate("http://other.com/", "https://site.org", ""), "http://other.com/");
    assert_eq!(
        AbsoluteUrl.evaluate("/relative/path", "https://site.org/", "/blog/"),
        "https://site.org/blog/relative/path"
    );
    assert_eq!(AbsoluteUrl.evaluate("page", "https://x.org", ""), "https://x.org/page");
    assert_eq!(AbsoluteUrl.evaluate("", "https://x.org", "/b"), "https://x.org/b");
}

// --- jsonify ---

#[test]
fn jsonify_cases() {
    assert_eq!(json(&s("hello")), "\"hello\"");
    let q = json(&s("He said \"hi\""));
    assert!(q.contains("\\\"") && q.starts_with('"') && q.ends_with('"'));
    assert_eq!(json(&Value::Int(42)), "42");
    assert_eq!(json(&Value::Float("2.75".to_string())), "2.75");
    assert_eq!(json(&Value::Bool(true)), "true");
    assert_eq!(json(&Value::Nil), "null");
    assert_eq!(json(&Value::Array(vec![s("a"), s("b")])), "[\"a\",\"b\"]");
    assert_eq!(json(&obj(&[("name", s("Alice"))])), "{\"name\":\"Alice\"}");
    assert_eq!(json(&s("")), "\"\"");
    assert_eq!(json(&s("2024")), "\"2024\"");
    let ordered = obj(&[
        ("zeta", Value::Int(1)),
        ("alpha", Value::Int(2)),
        ("extra", Value::Int(3)),
        ("__key_order", Value::Array(vec![s("zeta"), s("alpha")])),
    ]);
    assert_eq!(json(&ordered), "{\"zeta\":1,\"alpha\":2,\"extra\":3}");
    let unordered = obj(&[("name", s("Alice")), ("age", Value::Int(30))]);
    assert_eq!(json(&unordered), "{\"age\":30,\"name\":\"Alice\"}");
}

// --- dates ---

fn noon() -> Civil {
    Civil { year: 2024, month: 7, day: 24, hour: 12, minute: 0, second: 0, nano: 0 }
}

#[test]
fn date_filter_cases() {
    assert_eq!(Date.evaluate("2024-07-24", "%d.%m.%Y", &noon()), "24.07.2024");
    assert_eq!(Date.evaluate("2024-07-24", "%Y", &noon()), "2024");
    assert_eq!(Date.evaluate("now", "%Y-%m-%d", &noon()), "2024-07-24");
    assert_eq!(Date.evaluate("not a date", "%Y", &noon()), "not a date");
    assert_eq!(Date.evaluate("  ", "%Y", &noon()), "");
    assert_eq!(Date.evaluate("2024-01-15T00:00:00+01:00", "%s", &noon()), "1705273200");
}

#[test]
fn date_to_string_cases() {
    let f = |t: &str, a: Option<&str>, b: Option<&str>| DateToString.evaluate(t, a, b, None).unwrap();
    assert_eq!(f("2024-01-15", None, None), "15 Jan 2024");
    assert_eq!(f("2024-01-15", Some("ordinal"), None), "15th Jan 2024");
    assert_eq!(f("2024-01-15", Some("ordinal"), Some("US")), "Jan 15th, 2024");
    assert_eq!(f("garbage", None, None), "garbage");
    assert_eq!(f("", None, None), "");
    assert_eq!(
        DateToString.evaluate("2025-10-10 23:59:59", None, None, Some("Europe/Berlin")).unwrap(),
        "11 Oct 2025"
    );
}

#[test]
fn date_to_long_string_cases() {
    let f = |t: &str, a: Option<&str>| DateToLongString.evaluate(t, a, None).unwrap();
    assert_eq!(f("2024-01-21", Some("ordinal")), "21st January 2024");
    assert_eq!(f("2024-11-07", None), "07 November 2024");
}

#[test]
fn date_to_rfc822_and_xmlschema_cases() {
    assert_eq!(DateToRfc822.evaluate("2024-01-15"), "Mon, 15 Jan 2024 00:00:00 +0000");
    assert_eq!(DateToRfc822.evaluate("2024-03-22 10:00:00"), "Fri, 22 Mar 2024 10:00:00 +0000");
    assert_eq!(format_date_to_xmlschema("2024-01-15", None), "2024-01-15T00:00:00+00:00");
    assert_eq!(
        format_date_to_xmlschema("2024-01-15T14:30:00+00:00", None),
        "2024-01-15T14:30:00+00:00"
    );
    assert_eq!(
        format_date_to_xmlschema("2023-12-11 00:00:00", Some("Europe/Berlin")),
        "2023-12-11T00:00:00+01:00"
    );
}

// --- markdownify's math ---

#[test]
fn math_delimiters() {
    assert_eq!(convert_math_delimiters("<p>$$E=mc^2$$</p>\n"), "<p>\\[E=mc^2\\]</p>\n");
    assert_eq!(convert_math_delimiters("<p>Test with $$E=mc^2$$ formula</p>"), "<p>Test with \\(E=mc^2\\) formula</p>");
    assert_eq!(
        convert_math_delimiters("<p>$$a$$</p>\n<p>x $$b$$</p>"),
        "<p>\\[a\\]</p>\n<p>x \\(b\\)</p>"
    );
    assert_eq!(convert_math_delimiters("no math"), "no math");
    assert_eq!(convert_math_delimiters("a $$x$$ b $$y"), "a \\(x\\) b $$y");
}

// --- tags ---

#[test]
fn avatar_tag_cases() {
    let tok = |raw: &str, ident: Option<&str>, value: Option<&str>| AvatarToken {
        raw: raw.to_string(),
        ident: ident.map(|x| x.to_string()),
        value: value.map(|x| x.to_string()),
    };
    let args = AvatarTag.parse(&vec![tok("parkr", Some("parkr"), None)]);
    assert!(matches!(&args.source, UsernameSource::Literal(n) if n == "parkr"));
    assert_eq!(args.size, 40);
    let out = AvatarTag.render("parkr", args.size, args.lazy);
    assert!(out.contains("src=\"https://avatars.githubusercontent.com/parkr?v=4&amp;s=40\""));
    assert!(out.contains("alt=\"parkr\""));
    assert!(out.contains("width=\"40\"") && out.contains("height=\"40\""));
    assert!(out.contains("class=\"avatar avatar-small\""));
    assert!(out.contains("s=160 4x"));
    let args2 = AvatarTag.parse(&vec![
        tok("user", Some("user"), None),
        tok("=", None, None),
        tok("author", Some("author"), None),
        tok("size", Some("size"), None),
        tok("=", None, None),
        tok("96", None, Some("96")),
        tok("lazy", Some("lazy"), None),
        tok("=", None, None),
        tok("true", Some("true"), None),
    ]);
    assert!(matches!(&args2.source, UsernameSource::Variable(n) if n == "author"));
    assert_eq!(args2.size, 96);
    assert!(args2.lazy);
    let lazy = AvatarTag.render("bob", 96, true);
    assert!(lazy.starts_with("<img class=\"avatar\" src=\"\" alt=\"bob\" data-src="));
    assert_eq!(AvatarTag.render("", 40, false), "");
}

#[test]
fn feed_meta_cases() {
    let out = FeedMetaTag.render(Some("https://example.com"), Some("My Site"), None, None, None);
    assert_eq!(
        out,
        r#"<link type="application/atom+xml" rel="alternate" href="https://example.com/feed.xml" title="My Site" />"#
    );
    let cats = Value::Array(vec![s("news"), s("")]);
    let out2 = FeedMetaTag.render(Some("https://e.com/"), None, Some("T & <x>"), Some("/atom.xml"), Some(&cats));
    assert_eq!(
        out2,
        "<link type=\"application/atom+xml\" rel=\"alternate\" href=\"https://e.com/atom.xml\" title=\"T &amp; &lt;x&gt;\" />\n<link type=\"application/atom+xml\" rel=\"alternate\" href=\"https://e.com/feed/news.xml\" title=\"T &amp; &lt;x&gt; | news\" />"
    );
    let out3 = FeedMetaTag.render(None, Some(""), None, None, None);
    assert_eq!(out3, r#"<link type="application/atom+xml" rel="alternate" href="/feed.xml" title="" />"#);
}

#[test]
fn details_and_file_exists_cases() {
    assert_eq!(strip_p_tags("<p class=\"x\">Hi</p>"), "Hi");
    assert_eq!(strip_p_tags("<p>a</p><p>b</p>"), "ab");
    assert_eq!(strip_p_tags("<pre>x</pre>"), "x</pre>");
    let toks = vec!["Summary".chars().collect::<Vec<char>>(), "text".chars().collect()];
    assert_eq!(DetailsBlock.summary(&toks), "Summary text");
    assert_eq!(
        DetailsBlock.render("S", "<p>B</p>"),
        "<details><summary>S</summary><p>B</p></details>"
    );
    assert_eq!(FileExistsTag.target("/a/b.txt", Some("/site")), Some("/site/a/b.txt".to_string()));
    assert_eq!(FileExistsTag.target("Cargo.toml", Some("src/")), Some("src/Cargo.toml".to_string()));
    assert_eq!(FileExistsTag.target("x", None), Some("x".to_string()));
    assert_eq!(FileExistsTag.target("", Some("/site")), None);
    assert_eq!(FileExistsTag.render(true), "true");
    assert_eq!(FileExistsTag.render(false), "false");
}

// --- includes ---

#[test]
fn includes_cases() {
    let files = vec![
        ("a.html".to_string(), "A".to_string()),
        ("sub\\b.html".to_string(), "B".to_string()),
    ];
    let t = load_includes(&files);
    assert_eq!(t.len(), 2);
    assert!(t.contains(&("sub/b.html".to_string(), "B".to_string())));
    let custom = vec![("a.html".to_string(), "A2".to_string())];
    let m = load_includes_merged(&files, &custom);
    assert!(m.contains(&("a.html".to_string(), "A2".to_string())));
    assert_eq!(m.len(), 2);
    let twice = load_includes_merged(&files, &files);
    assert_eq!(twice, t);
}

// --- filter names, errors, lenient lookup, context ---

#[test]
fn filter_name_cases() {
    let err = "liquid: Unknown filter\n  from: {{ x | foo }}\n  requested filter=foo\n";
    assert_eq!(extract_unknown_filter_name(err), Some("foo".to_string()));
    assert_eq!(extract_unknown_filter_name("syntax error"), None);
    let c = filter_name_candidates(&vec!["{{ x | slugify | prepend: 'a' }}".to_string(), "{{ y |  slugify }}{{ z|x2_y }}".to_string()]);
    assert_eq!(c, vec!["slugify".to_string(), "prepend".to_string(), "x2_y".to_string()]);
    assert_eq!(TemplateError::ParseError("bad".to_string()).message(), "template parse error: bad");
    assert_eq!(TemplateError::LayoutNotFound("post".to_string()).message(), "layout not found: post");
}

#[test]
fn lenient_lookup_cases() {
    let o = obj(&[("a", Value::Int(1)), ("b", s("x"))]);
    assert_eq!(text(&lenient_get(&o, "a").unwrap()), "1");
    assert!(matches!(lenient_get(&o, "missing"), Some(Value::Nil)));
    assert!(lenient_get(&o, "size").is_none());
    assert_eq!(json(&lenient_get(&o, "1").unwrap()), "[\"b\",\"x\"]");
    assert!(matches!(lenient_get(&o, "5"), Some(Value::Nil)));
    assert!(uses_prev_next(&vec!["{{ page.next.url }}".to_string()]));
    assert!(!uses_prev_next(&vec!["{{ page.title }}".to_string()]));
}

#[test]
fn yaml_and_normalize_cases() {
    let m = Yaml::Mapping(vec![
        (YamlKey::Str("title".to_string()), Yaml::Str("Hello".to_string())),
        (YamlKey::Str("count".to_string()), Yaml::Int(5)),
        (YamlKey::Str("date".to_string()), Yaml::Str("2025-11-07".to_string())),
    ]);
    let v = yaml_to_liquid(&m);
    assert_eq!(json(&v), "{\"title\":\"Hello\",\"count\":5,\"date\":\"2025-11-07 00:00:00 +0000\"}");
    let page = vec![(YamlKey::Str("date".to_string()), Yaml::Str("2025-11-07".to_string()))];
    let ctx = rustkyll::context::build_context(Some(&page), None);
    assert_eq!(json(&ctx), "{\"page\":{\"date\":\"2025-11-07 00:00:00 +0000\"}}");
    let arr = Value::Array(vec![obj(&[("name", s("Alice"))]), obj(&[("name", s("Bob")), ("role", s("Engineer"))])]);
    let n = normalize_arrays(&arr);
    assert_eq!(json(&n), "[{\"name\":\"Alice\",\"role\":null},{\"name\":\"Bob\",\"role\":\"Engineer\"}]");
    let scalars = Value::Array(vec![Value::Int(1), Value::Int(2)]);
    assert_eq!(json(&normalize_arrays(&scalars)), "[1,2]");
}
