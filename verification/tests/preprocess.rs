use rustkyll::assigns::{preprocess_for_loop_filters, preprocess_parenthesized_assign};
use rustkyll::braces::preprocess_nested_braces;
use rustkyll::capture::preprocess_capture_tags;
use rustkyll::if_filters::preprocess_if_condition_filters;
use rustkyll::link::{preprocess_jekyll_tags, preprocess_jekyll_tags_with_config, LinkTagConfig};
use rustkyll::nil_contains::preprocess_nil_contains;
use rustkyll::pipeline::{preprocess_all, preprocess_all_checked, preprocess_nil_eq_false};
use rustkyll::protect::preprocess_bare_output_render_mapping;

fn link_config_page(style: &str) -> LinkTagConfig {
    LinkTagConfig {
        page_permalink_style: style.to_string(),
        collection_suffixes: None,
        post_permalink_pattern: "/:categories/:year/:month/:day/:title.html".to_string(),
    }
}

fn link_config_collection(suffixes: &[(&str, &str)]) -> LinkTagConfig {
    let mut map = Vec::new();
    for &(name, suffix) in suffixes {
        map.push((name.to_string(), suffix.to_string()));
    }
    LinkTagConfig {
        page_permalink_style: String::new(),
        collection_suffixes: Some(map),
        post_permalink_pattern: "/:categories/:year/:month/:day/:title.html".to_string(),
    }
}

#[test]
fn test_link_tag_preprocessing() {
    let result = preprocess_jekyll_tags(r#"<a href="{% link _pages/about.md %}">About</a>"#);
    assert_eq!(result, r#"<a href="/pages/about">About</a>"#);
}

#[test]
fn test_post_url_tag_preprocessing() {
    let result = preprocess_jekyll_tags("{% post_url 2022-09-07-homebrew-3.6.0 %}");
    assert_eq!(result, "/2022/09/07/homebrew-3.6.0/");
}

#[test]
fn test_capture_preprocess_with_dash() {
    let result = preprocess_capture_tags("{%- capture myvar do -%}content{%- endcapture -%}");
    assert_eq!(result, "{%- capture myvar -%}content{%- endcapture -%}");
}

#[test]
fn test_issue171_preprocess_nil_contains_simple_if() {
    let input = r#"{% if page.path contains "zh-TW" %}yes{% endif %}"#;
    let output = preprocess_nil_contains(input);
    assert!(
        output.contains(r#"page.path and page.path contains "zh-TW""#),
        "Should add nil guard, got: {}",
        output
    );
}

#[test]
fn test_issue171_preprocess_nil_contains_elsif() {
    let input = r#"{% elsif page.path contains "de-DE" %}"#;
    let output = preprocess_nil_contains(input);
    assert!(
        output.contains(r#"page.path and page.path contains "de-DE""#),
        "Should add nil guard to elsif, got: {}",
        output
    );
}

#[test]
fn test_issue171_preprocess_nil_contains_no_change_for_other_tags() {
    let input = r#"{% assign x = "hello" %}{% for item in items %}{% endfor %}"#;
    let output = preprocess_nil_contains(input);
    assert_eq!(output, input, "Should not modify non-if/elsif tags");
}

#[test]
fn test_issue171_preprocess_nil_contains_no_change_without_contains() {
    let input = r#"{% if page.title == "hello" %}yes{% endif %}"#;
    let output = preprocess_nil_contains(input);
    assert_eq!(output, input, "Should not modify if without contains");
}

#[test]
fn test_issue171_preprocess_nil_contains_with_or() {
    let input = r#"{% if url contains "play.google.com" or url contains "itunes.apple.com" %}"#;
    let output = preprocess_nil_contains(input);
    assert!(
        output.contains("url and url contains \"play.google.com\""),
        "Should guard first contains, got: {}",
        output
    );
    assert!(
        output.contains("url and url contains \"itunes.apple.com\""),
        "Should guard second contains, got: {}",
        output
    );
}

#[test]
fn test_issue171_preprocess_preserves_dash_whitespace_control() {
    let input = r#"{%- if page.path contains "zh-TW" -%}yes{%- endif -%}"#;
    let output = preprocess_nil_contains(input);
    assert!(output.starts_with("{%-"), "Should preserve leading dash");
    assert!(output.contains("-%}"), "Should preserve trailing dash");
    assert!(
        output.contains("page.path and page.path contains"),
        "Should add nil guard, got: {}",
        output
    );
}

#[test]
fn test_preprocess_nested_braces_in_if() {
    let input = r#"{% if {{include.url}} %}<a href="{{include.url}}">link</a>{% endif %}"#;
    let output = preprocess_nested_braces(input);
    assert!(
        output.contains("{% if include.url %}"),
        "Nested {{}} inside tag should be unwrapped. Got: {}",
        output
    );
    assert!(
        output.contains("<a href=\"{{include.url}}\">"),
        "Variable references outside tags should remain. Got: {}",
        output
    );
}

#[test]
fn test_preprocess_nested_braces_preserves_body() {
    let input = r#"{% if {{include.show}} %}{{include.content}}{% endif %}"#;
    let output = preprocess_nested_braces(input);
    assert!(
        output.contains("{% if include.show %}"),
        "Nested braces in tag should be unwrapped. Got: {}",
        output
    );
    assert!(
        output.contains("{{include.content}}"),
        "Body variable references should be preserved. Got: {}",
        output
    );
}

#[test]
fn test_preprocess_nested_braces_unless() {
    let input = r#"{% unless {{include.hide}} %}visible{% endunless %}"#;
    let output = preprocess_nested_braces(input);
    assert!(
        output.contains("{% unless include.hide %}"),
        "Should work with unless tag too. Got: {}",
        output
    );
}

#[test]
fn test_preprocess_nested_braces_no_change_when_absent() {
    let input = r#"{% if include.url %}link{% endif %}"#;
    let output = preprocess_nested_braces(input);
    assert_eq!(input, output, "Should not modify templates without nested braces");
}

#[test]
fn test_link_tag_no_html_for_collection_pages() {
    let cfg = LinkTagConfig::default();
    let result = preprocess_jekyll_tags_with_config(
        r#"<a href="{% link _pages/banners.md %}">Link</a>"#,
        &cfg,
    );
    assert_eq!(result, r#"<a href="/pages/banners">Link</a>"#);
}

#[test]
fn test_link_tag_root_page_keeps_html() {
    let cfg = link_config_page("date");
    let result = preprocess_jekyll_tags_with_config(r#"{% link about.md %}"#, &cfg);
    assert_eq!(result, "/about.html");
}

#[test]
fn test_link_tag_unicode_collection_doc() {
    let cfg = LinkTagConfig::default();
    let result = preprocess_jekyll_tags_with_config(r#"{% link _pages/uber-uns.md %}"#, &cfg);
    assert_eq!(result, "/pages/uber-uns");
}

#[test]
fn test_link_tag_nested_collection_doc() {
    let cfg = LinkTagConfig::default();
    let result = preprocess_jekyll_tags_with_config(r#"{% link _notes/2018/my-note.md %}"#, &cfg);
    assert_eq!(result, "/notes/2018/my-note");
}

#[test]
fn test_link_tag_posts_uses_permalink_pattern() {
    let mut cfg = LinkTagConfig::default();
    cfg.post_permalink_pattern = "/posts/:title".to_string();
    let result = preprocess_jekyll_tags_with_config(
        r#"{% link _posts/2020-06-06-reparations.md %}"#,
        &cfg,
    );
    assert_eq!(result, "/posts/reparations");

    let result2 =
        preprocess_jekyll_tags_with_config(r#"{% link _posts/2024-11-02-javascript.md %}"#, &cfg);
    assert_eq!(result2, "/posts/javascript");

    cfg.post_permalink_pattern = "/:categories/:year/:month/:day/:title.html".to_string();
    let result3 =
        preprocess_jekyll_tags_with_config(r#"{% link _posts/2024-11-02-javascript.md %}"#, &cfg);
    assert_eq!(result3, "/2024/11/02/javascript.html");
}

#[test]
fn test_link_tag_html_collection_doc_no_extension() {
    let cfg = LinkTagConfig::default();
    let result = preprocess_jekyll_tags_with_config(
        r#"<a href="{% link _pages/issues.html %}">Issues</a>"#,
        &cfg,
    );
    assert_eq!(result, r#"<a href="/pages/issues">Issues</a>"#);
}

#[test]
fn test_link_tag_html_root_page_keeps_extension() {
    let cfg = link_config_page("date");
    let result = preprocess_jekyll_tags_with_config(r#"{% link about.html %}"#, &cfg);
    assert_eq!(result, "/about.html");
}

#[test]
fn test_link_tag_html_collection_unicode() {
    let cfg = LinkTagConfig::default();
    let result = preprocess_jekyll_tags_with_config("{% link _pages/\u{00fc}ber-uns.html %}", &cfg);
    assert_eq!(result, "/pages/\u{00fc}ber-uns");
}

#[test]
fn test_link_tag_pretty_permalink_md_page() {
    let cfg = link_config_page("pretty");
    let result = preprocess_jekyll_tags_with_config(r#"{% link docs/configuration.md %}"#, &cfg);
    assert_eq!(result, "/docs/configuration/");
}

#[test]
fn test_link_tag_pretty_permalink_md_root() {
    let cfg = link_config_page("pretty");
    let result = preprocess_jekyll_tags_with_config(r#"{% link about.md %}"#, &cfg);
    assert_eq!(result, "/about/");
}

#[test]
fn test_link_tag_pretty_permalink_html_page() {
    let cfg = link_config_page("pretty");
    let result = preprocess_jekyll_tags_with_config(r#"{% link CHANGELOG.html %}"#, &cfg);
    assert_eq!(result, "/CHANGELOG/");
}

#[test]
fn test_link_tag_pretty_permalink_with_anchor() {
    let cfg = link_config_page("pretty");
    let result = preprocess_jekyll_tags_with_config(
        r#"<a href="{% link docs/configuration.md %}#aux-links">x</a>"#,
        &cfg,
    );
    assert_eq!(result, r#"<a href="/docs/configuration/#aux-links">x</a>"#);
}

#[test]
fn test_link_tag_default_permalink_keeps_html() {
    let cfg = link_config_page("date");
    let result = preprocess_jekyll_tags_with_config(r#"{% link docs/configuration.md %}"#, &cfg);
    assert_eq!(result, "/docs/configuration.html");
}

#[test]
fn test_link_tag_collection_unaffected_by_pretty() {
    let cfg = link_config_page("pretty");
    let result = preprocess_jekyll_tags_with_config(r#"{% link _pages/banners.md %}"#, &cfg);
    assert_eq!(result, "/pages/banners");
}

#[test]
fn test_link_tag_pretty_permalink_unicode_page() {
    let cfg = link_config_page("pretty");
    let result = preprocess_jekyll_tags_with_config(
        "{% link \u{0447}\u{0430}\u{0441}\u{0442}\u{044c}.md %}",
        &cfg,
    );
    assert_eq!(result, "/\u{0447}\u{0430}\u{0441}\u{0442}\u{044c}/");
}

#[test]
fn test_link_tag_collection_with_trailing_slash_permalink() {
    let cfg = link_config_collection(&[("docs", "/")]);
    let result = preprocess_jekyll_tags_with_config(r#"{% link _docs/variables.md %}"#, &cfg);
    assert_eq!(result, "/docs/variables/");
}

#[test]
fn test_link_tag_collection_without_trailing_slash_permalink() {
    let cfg = link_config_collection(&[("docs", "")]);
    let result = preprocess_jekyll_tags_with_config(r#"{% link _docs/variables.md %}"#, &cfg);
    assert_eq!(result, "/docs/variables");
}

#[test]
fn test_link_tag_collection_index_becomes_directory() {
    let cfg = link_config_collection(&[("docs", "/")]);
    let result = preprocess_jekyll_tags_with_config(r#"{% link _docs/index.md %}"#, &cfg);
    assert_eq!(result, "/docs/");
}

#[test]
fn test_link_tag_collection_trailing_slash_html_extension() {
    let cfg = link_config_collection(&[("docs", "/")]);
    let result = preprocess_jekyll_tags_with_config(r#"{% link _docs/datafiles.html %}"#, &cfg);
    assert_eq!(result, "/docs/datafiles/");
}

#[test]
fn test_link_tag_collection_no_config_falls_back_to_extensionless() {
    let cfg = LinkTagConfig::default();
    let result = preprocess_jekyll_tags_with_config(r#"{% link _pages/banners.md %}"#, &cfg);
    assert_eq!(result, "/pages/banners");
}

#[test]
fn test_link_tag_collection_unicode_with_trailing_slash() {
    let cfg = link_config_collection(&[("docs", "/")]);
    let result = preprocess_jekyll_tags_with_config(
        "{% link _docs/\u{0443}\u{0441}\u{0442}\u{0430}\u{043d}\u{043e}\u{0432}\u{043a}\u{0430}.md %}",
        &cfg,
    );
    assert_eq!(
        result,
        "/docs/\u{0443}\u{0441}\u{0442}\u{0430}\u{043d}\u{043e}\u{0432}\u{043a}\u{0430}/"
    );
}

#[test]
fn test_preprocess_for_loop_filters_sort() {
    let input = "{% for name in __names | sort %}{{ name }}{% endfor %}";
    let output = preprocess_for_loop_filters(input);
    assert!(
        !output.contains("{% for name in __names | sort %}"),
        "Filter chain in for loop should be extracted"
    );
    assert!(output.contains("{% assign __for_name"), "Should create temp assign: {}", output);
    assert!(output.contains("| sort"), "Filter should be preserved in assign: {}", output);
    assert!(output.contains("{% for name in __for_name"), "For loop should use temp var: {}", output);
}

#[test]
fn test_preprocess_for_loop_filters_no_change_without_filter() {
    let input = "{% for item in items %}{{ item }}{% endfor %}";
    let output = preprocess_for_loop_filters(input);
    assert_eq!(output, input, "For loops without filters should be unchanged");
}

#[test]
fn test_preprocess_for_loop_filters_preserves_limit() {
    let input = "{% for post in site.posts limit:4 %}{{ post }}{% endfor %}";
    let output = preprocess_for_loop_filters(input);
    assert_eq!(output, input, "For loops with limit but no filter should be unchanged");
}

#[test]
fn test_preprocess_for_loop_filters_with_whitespace_control() {
    let input = "{%- for name in __names | sort -%}{{ name }}{%- endfor -%}";
    let output = preprocess_for_loop_filters(input);
    assert!(output.contains("| sort"), "Filter should be preserved: {}", output);
    assert!(output.contains("for name in __for_name"), "For loop should use temp var: {}", output);
}

#[test]
fn test_preprocess_if_condition_filters_basic() {
    let input = "{% if site.touchpoints.active and page.survey | default: false %}yes{% endif %}";
    let output = preprocess_if_condition_filters(input);
    assert!(output.contains("assign __if_filter_"), "Should extract filter chain into assign: {}", output);
    assert!(output.contains("| default: false"), "Filter chain should be in the assign: {}", output);
    assert!(
        !output.contains("and page.survey | default"),
        "The unrewritten filter chain should not be in the if condition: {}",
        output
    );
}

#[test]
fn test_preprocess_if_condition_filters_no_change_without_pipe() {
    let input = "{% if site.active and page.survey %}yes{% endif %}";
    let output = preprocess_if_condition_filters(input);
    assert_eq!(output, input, "Should not change conditions without pipes");
}

#[test]
fn test_preprocess_if_condition_filters_preserves_whitespace_control() {
    let input = "{%- if x and y | default: false -%}yes{%- endif -%}";
    let output = preprocess_if_condition_filters(input);
    assert!(output.contains("{%-"), "Should preserve leading dash: {}", output);
    assert!(output.contains("-%}"), "Should preserve trailing dash: {}", output);
    assert_eq!(
        output,
        "{% assign __if_filter_1 = y | default: false %}{%- if x and __if_filter_1 -%}yes{%- endif -%}"
    );
}

#[test]
fn test_preprocess_if_condition_filters_string_pipe_ignored() {
    let input = r#"{% if page.title == "Hello | World" %}yes{% endif %}"#;
    let output = preprocess_if_condition_filters(input);
    assert_eq!(output, input, "Pipes inside strings should not trigger rewrite");
}

#[test]
fn test_preprocess_parenthesized_assign_basic() {
    let input = "{% assign tag_hashes = (page_tags | split: ',' | sort) %}";
    let output = preprocess_parenthesized_assign(input);
    assert!(!output.contains('('), "Parentheses should be removed: {}", output);
    assert!(
        output.contains("assign tag_hashes = page_tags | split: ',' | sort"),
        "Expression should be preserved without parens: {}",
        output
    );
}

#[test]
fn test_preprocess_parenthesized_assign_no_change() {
    let input = "{% assign x = arr | sort %}";
    let output = preprocess_parenthesized_assign(input);
    assert_eq!(output, input, "Non-parenthesized assigns should be unchanged");
}

#[test]
fn test_preprocess_parenthesized_assign_with_colon_arg() {
    let input = "{% assign tag_hashes = (page_tags | split: ',' | sort:0) %}";
    let output = preprocess_parenthesized_assign(input);
    assert!(!output.contains('('), "Parentheses should be removed: {}", output);
}

#[test]
fn test_issue523_render_mapping_skips_fenced_code_blocks() {
    let input =
        "{{ title | render_mapping }}\n```\n{{ page.title }}\n```\n{{ footer | render_mapping }}";
    let result = preprocess_bare_output_render_mapping(input);
    assert!(
        result.contains("```\n{{ page.title }}\n```"),
        "render_mapping leaked into fenced code block. Got: {}",
        result
    );
}

#[test]
fn test_issue523_render_mapping_skips_tilde_fenced_code_blocks() {
    let input = "~~~\n{{ page.title }}\n~~~\n{{ outside }}";
    let result = preprocess_bare_output_render_mapping(input);
    assert!(
        result.contains("~~~\n{{ page.title }}\n~~~"),
        "render_mapping leaked into tilde-fenced code block. Got: {}",
        result
    );
    assert!(
        result.contains("outside") && result.contains("render_mapping"),
        "render_mapping not applied outside fence. Got: {}",
        result
    );
}

#[test]
fn test_issue523_render_mapping_skips_raw_blocks() {
    let input = "{% raw %}{{ page.title }}{% endraw %}";
    let result = preprocess_bare_output_render_mapping(input);
    assert!(
        result.contains("{% raw %}{{ page.title }}{% endraw %}"),
        "render_mapping leaked into raw block. Got: {}",
        result
    );
}

#[test]
fn test_issue523_render_mapping_skips_highlight_blocks() {
    let input = "{% highlight html %}{{ page.title }}{% endhighlight %}";
    let result = preprocess_bare_output_render_mapping(input);
    assert!(
        result.contains("{% highlight html %}{{ page.title }}{% endhighlight %}"),
        "render_mapping leaked into highlight block. Got: {}",
        result
    );
}

#[test]
fn test_issue523_render_mapping_applied_outside_code_blocks() {
    let input = "{{ normal_var }}\n```\n{{ code_var }}\n```\n{{ another_var }}";
    let result = preprocess_bare_output_render_mapping(input);
    assert!(
        result.contains("normal_var") && result.contains("| render_mapping"),
        "render_mapping not applied before code block. Got: {}",
        result
    );
    assert!(
        !result.contains("code_var | render_mapping") && !result.contains("code_var  | render_mapping"),
        "render_mapping leaked into code block. Got: {}",
        result
    );
    assert!(
        result.contains("```\n{{ code_var }}\n```"),
        "render_mapping leaked into code block. Got: {}",
        result
    );
}

#[test]
fn test_issue523_render_mapping_fenced_with_language() {
    let input = "```liquid\n{{ page.title }}\n```";
    let result = preprocess_bare_output_render_mapping(input);
    assert!(
        result.contains("```liquid\n{{ page.title }}\n```"),
        "render_mapping leaked into fenced code block with language. Got: {}",
        result
    );
}

#[test]
fn test_preprocess_all_noop_for_plain_content() {
    let plain = "<div>No liquid here, just HTML with unicode: 日本語</div>";
    let result = preprocess_all(plain);
    assert_eq!(result, plain);
}

#[test]
fn test_preprocess_all_processes_liquid_content() {
    let content = "{% link _posts/2020-01-01-hello.md %}";
    let result = preprocess_all(content);
    assert!(!result.contains("{% link"), "link tag should be preprocessed");
}

#[test]
fn test_preprocess_all_output_only_skips_tag_preprocessors() {
    let content = "{{ page.title }}";
    let result = preprocess_all(content);
    assert!(result.contains("render_mapping"), "output should be preprocessed: got {}", result);
}

#[test]
fn test_preprocess_all_tag_only_skips_output_preprocessors() {
    let content = "{% if true %}hello{% endif %}";
    let result = preprocess_all(content);
    assert!(result.contains("if true"), "tag content should be preserved");
    assert!(!result.contains("render_mapping"), "output preprocessors should be skipped");
}

#[test]
fn test_preprocess_all_unicode_content_preserved() {
    let content = "Привет мир 日本語 🎉 {{ page.title }}";
    let result = preprocess_all(content);
    assert!(result.contains("Привет мир"), "Cyrillic should be preserved");
    assert!(result.contains("日本語"), "CJK should be preserved");
}

#[test]
fn test_preprocess_nil_eq_false_basic() {
    let input = r#"{% unless page.toc == false %}TOC{% endunless %}"#;
    let output = preprocess_nil_eq_false(input);
    assert!(
        output.contains("page.toc == false and page.toc != nil"),
        "Should add nil guard for == false. Got: {}",
        output
    );
}

#[test]
fn test_preprocess_nil_eq_false_neq_no_rewrite() {
    let input = r#"{% if page.comments != false %}COMMENTS{% endif %}"#;
    let output = preprocess_nil_eq_false(input);
    assert_eq!(output, input, "!= false should not be rewritten. Got: {}", output);
}

#[test]
fn checked_pipeline_matches_unchecked() {
    let content = "{% if a and b | default: false %}{{ x }}{% endif %}";
    assert_eq!(preprocess_all_checked(content), Some(preprocess_all(content)));
}
