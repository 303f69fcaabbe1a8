//! Cases of the custom tags. A tag's arguments are given as the tokens the
//! Liquid parser splits them into; variables are looked up by hand.

use rustkyll::tags::avatar::{AvatarTag, AvatarToken, UsernameSource};
use rustkyll::tags::blocks::{DetailsBlock, FeedMetaTag, FileExistsTag};
use rustkyll::value::Value;

/// One argument token as the Liquid tag parser classifies it: `=` is
/// neither identifier nor value, numbers and `true`/`false` are values,
/// other words are identifiers.
fn token(raw: &str) -> AvatarToken {
    let is_value = raw.chars().all(|c| c.is_ascii_digit()) || raw == "true" || raw == "false";
    AvatarToken {
        raw: raw.to_string(),
        ident: if raw != "=" && !is_value { Some(raw.to_string()) } else { None },
        value: if is_value { Some(raw.to_string()) } else { None },
    }
}

/// The tokens of a tag's argument text (`user=author size=24`).
fn tokens(args: &str) -> Vec<AvatarToken> {
    args.replace('=', " = ").split_whitespace().map(token).collect()
}

/// `{% avatar <args> %}` rendered with the given variables.
fn avatar(args: &str, vars: &[(&str, &str)]) -> String {
    let parsed = AvatarTag.parse(&tokens(args));
    let username = match &parsed.source {
        UsernameSource::Literal(name) => name.clone(),
        UsernameSource::Variable(var) => vars
            .iter()
            .find(|(k, _)| k == var)
            .map(|(_, v)| v.to_string())
            .unwrap_or_default(),
    };
    AvatarTag.render(&username, parsed.size, parsed.lazy)
}

#[test]
fn test_avatar_literal_username() {
    let output = avatar("parkr", &[]);
    assert!(output.contains("src=\"https://avatars.githubusercontent.com/parkr?v=4&amp;s=40\""));
    assert!(output.contains("alt=\"parkr\""));
    assert!(output.contains("width=\"40\""));
    assert!(output.contains("height=\"40\""));
    assert!(output.contains("class=\"avatar avatar-small\""));
}

#[test]
fn test_avatar_literal_default_size() {
    assert!(avatar("octocat", &[]).contains("s=40"));
}

#[test]
fn test_avatar_user_variable() {
    let output = avatar("user=author size=24", &[("author", "jekyllbot")]);
    assert!(output.contains("src=\"https://avatars.githubusercontent.com/jekyllbot?v=4&amp;s=24\""));
    assert!(output.contains("alt=\"jekyllbot\""));
    assert!(output.contains("width=\"24\""));
    assert!(output.contains("height=\"24\""));
}

#[test]
fn test_avatar_user_variable_default_size() {
    let output = avatar("user=author", &[("author", "testuser")]);
    assert!(output.contains("s=40"));
    assert!(output.contains("alt=\"testuser\""));
}

#[test]
fn test_avatar_small_class() {
    assert!(avatar("user48", &[]).contains("class=\"avatar avatar-small\""));
}

#[test]
fn test_avatar_large_no_small_class() {
    let output = avatar("user=user size=80", &[("user", "biguser")]);
    assert!(output.contains("class=\"avatar\""));
    assert!(!output.contains("avatar-small"));
}

#[test]
fn test_avatar_srcset() {
    let output = avatar("testuser", &[]);
    assert!(output.contains("s=40 1x"));
    assert!(output.contains("s=80 2x"));
    assert!(output.contains("s=120 3x"));
    assert!(output.contains("s=160 4x"));
}

#[test]
fn test_avatar_srcset_custom_size() {
    let output = avatar("user=author size=24", &[("author", "dev")]);
    assert!(output.contains("s=24 1x"));
    assert!(output.contains("s=48 2x"));
    assert!(output.contains("s=72 3x"));
    assert!(output.contains("s=96 4x"));
}

#[test]
fn test_avatar_empty_variable() {
    assert_eq!(avatar("user=author", &[]), "");
}

#[test]
fn test_avatar_unknown_param_does_not_overwrite_user() {
    let output = avatar("user=org size=60 lazy=true", &[("org", "argob")]);
    assert!(output.contains("alt=\"argob\""), "Expected alt=\"argob\", got: {}", output);
    assert!(!output.contains("alt=\"lazy\""));
}

#[test]
fn test_avatar_unknown_param_order_independent() {
    let output = avatar("user=org lazy=true size=60", &[("org", "testorg")]);
    assert!(output.contains("alt=\"testorg\""), "Expected alt=\"testorg\", got: {}", output);
}

#[test]
fn test_avatar_multiple_unknown_params_ignored() {
    let output = avatar("user=org lazy=true foo=bar", &[("org", "myorg")]);
    assert!(output.contains("alt=\"myorg\""), "Expected alt=\"myorg\", got: {}", output);
}

#[test]
fn test_avatar_literal_username_no_regression() {
    assert!(avatar("username size=40", &[]).contains("alt=\"username\""));
}

#[test]
fn test_avatar_user_variable_defaults() {
    let output = avatar("user=org", &[("org", "deforg")]);
    assert!(output.contains("alt=\"deforg\""));
    assert!(output.contains("s=40"));
}

#[test]
fn test_avatar_lazy_variable_user() {
    let output = avatar("user=org size=60 lazy=true", &[("org", "lazyorg")]);
    assert!(output.contains("src=\"\""), "got: {}", output);
    assert!(output.contains("data-src=\"https://"), "got: {}", output);
    assert!(output.contains("data-srcset=\""), "got: {}", output);
    assert!(output.contains("data-proofer-ignore=\"true\""), "got: {}", output);
}

#[test]
fn test_avatar_lazy_literal_user() {
    let output = avatar("lituser size=60 lazy=true", &[]);
    assert!(output.contains("src=\"\""));
    assert!(output.contains("data-src=\""));
    assert!(output.contains("data-srcset=\""));
    assert!(output.contains("alt=\"lituser\""));
}

#[test]
fn test_avatar_eager_default() {
    let output = avatar("eageruser", &[]);
    assert!(output.contains("src=\"https://"));
    assert!(output.contains("srcset=\""));
    assert!(!output.contains("data-src"));
    assert!(!output.contains("data-srcset"));
}

#[test]
fn test_avatar_eager_explicit_no_lazy() {
    let output = avatar("user=u size=40", &[("u", "eageru")]);
    assert!(!output.contains("data-src"));
    assert!(!output.contains("data-srcset"));
}

#[test]
fn test_avatar_alt_never_param_name() {
    let output = avatar("user=org size=60 lazy=true", &[("org", "realorg")]);
    assert!(output.contains("alt=\"realorg\""));
    assert!(!output.contains("alt=\"lazy\""));
    assert!(!output.contains("alt=\"size\""));
    assert!(!output.contains("alt=\"true\""));
}

// --- details (summary and body given as the texts the block renders) ---

fn words(args: &str) -> Vec<Vec<char>> {
    args.split_whitespace().map(|w| w.chars().collect()).collect()
}

fn details(args: &str, body: &str) -> String {
    DetailsBlock.render(&DetailsBlock.summary(&words(args)), body)
}

#[test]
fn test_details_basic() {
    let output = details("Summary text", "Body content");
    assert!(output.contains("<details>"), "{}", output);
    assert!(output.contains("<summary>Summary text</summary>"), "{}", output);
    assert!(output.contains("</details>"), "{}", output);
    assert!(output.contains("Body content"), "{}", output);
}

#[test]
fn test_details_empty_summary() {
    let output = details("", "Some body");
    assert!(output.contains("<details>"), "{}", output);
    assert!(output.contains("<summary></summary>"), "{}", output);
    assert!(output.contains("</details>"), "{}", output);
}

#[test]
fn test_details_unicode_summary() {
    let output = details("Zusammenfassung", "Inhalt");
    assert!(output.contains("<summary>Zusammenfassung</summary>"), "{}", output);
}

#[test]
fn test_details_html_structure() {
    let output = details("Summary", "Body");
    let details_start = output.find("<details>").expect("missing <details>");
    let summary_start = output.find("<summary>").expect("missing <summary>");
    let summary_end = output.find("</summary>").expect("missing </summary>");
    let details_end = output.find("</details>").expect("missing </details>");
    assert!(details_start < summary_start);
    assert!(summary_start < summary_end);
    assert!(summary_end < details_end);
}

// --- feed_meta (the site settings as the tag reads them) ---

#[test]
fn test_feed_meta_default_config() {
    let out = FeedMetaTag.render(Some("https://example.com"), Some("My Site"), None, None, None);
    assert_eq!(
        out,
        r#"<link type="application/atom+xml" rel="alternate" href="https://example.com/feed.xml" title="My Site" />"#,
    );
}

#[test]
fn test_feed_meta_custom_path() {
    let out = FeedMetaTag.render(Some("https://example.com"), Some("My Site"), None, Some("atom.xml"), None);
    assert!(out.contains("href=\"https://example.com/atom.xml\""), "{}", out);
}

#[test]
fn test_feed_meta_with_categories() {
    let cats = Value::Array(vec![Value::Str("release".to_string())]);
    let out = FeedMetaTag.render(Some("https://jekyllrb.com"), Some("Jekyll"), None, None, Some(&cats));
    assert!(out.contains("href=\"https://jekyllrb.com/feed.xml\""), "{}", out);
    assert!(out.contains("href=\"https://jekyllrb.com/feed/release.xml\""), "{}", out);
    assert!(out.contains("title=\"Jekyll | release\""), "{}", out);
}

#[test]
fn test_feed_meta_no_site_url() {
    let out = FeedMetaTag.render(None, Some("My Site"), None, None, None);
    assert!(out.contains("href=\"/feed.xml\""), "{}", out);
}

#[test]
fn test_feed_meta_site_title_fallback() {
    let out = FeedMetaTag.render(Some("https://example.com"), None, Some("Fallback Title"), None, None);
    assert!(out.contains("title=\"Fallback Title\""), "{}", out);
}

#[test]
fn test_feed_meta_html_escaping() {
    let name = "Jekyll \u{2022} Simple, blog-aware, static sites";
    let out = FeedMetaTag.render(Some("https://example.com"), Some(name), None, None, None);
    assert!(out.contains(name), "{}", out);
}

#[test]
fn test_feed_meta_jekyll_docs_expected_output() {
    let cats = Value::Array(vec![Value::Str("release".to_string())]);
    let out = FeedMetaTag.render(
        Some("https://jekyllrb.com"),
        Some("Jekyll \u{2022} Simple, blog-aware, static sites"),
        None,
        None,
        Some(&cats),
    );
    let expected_main = r#"<link type="application/atom+xml" rel="alternate" href="https://jekyllrb.com/feed.xml" title="Jekyll • Simple, blog-aware, static sites" />"#;
    assert!(out.contains(expected_main), "Got: {}", out);
}

#[test]
fn test_feed_meta_in_head_context() {
    let tag = FeedMetaTag.render(Some("https://example.com"), Some("Test"), None, None, None);
    let out = format!("<head>{}<title>Test</title></head>", tag);
    assert!(out.starts_with("<head><link type=\"application/atom+xml\""), "{}", out);
    assert!(out.ends_with("<title>Test</title></head>"), "{}", out);
}

#[test]
fn test_feed_meta_empty_context() {
    let out = FeedMetaTag.render(None, None, None, None, None);
    assert!(out.contains("<link type=\"application/atom+xml\""), "{}", out);
    assert!(out.contains("href=\"/feed.xml\""), "{}", out);
}

// --- file_exists (the file system probe done here) ---

fn file_exists(args: &str, source: Option<&str>) -> &'static str {
    let tag = FileExistsTag;
    let path = tag.path(&words(args));
    let found = match tag.target(&path, source) {
        Some(t) => std::path::Path::new(&t).exists(),
        None => false,
    };
    tag.render(found)
}

#[test]
fn test_file_exists_false() {
    assert_eq!(file_exists("nonexistent_file_xyz.txt", Some(".")), "false");
}

#[test]
fn test_file_exists_empty_path() {
    assert_eq!(file_exists("", None), "false");
}

#[test]
fn file_exists_finds_a_present_file() {
    assert_eq!(file_exists("src/lib.rs", Some(".")), "true");
    assert_eq!(file_exists("lib.rs", Some("src")), "true");
    assert_eq!(file_exists("/src/lib.rs", Some(".")), "true");
}
