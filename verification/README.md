# rustkyll

The template layer of a Jekyll-compatible static site generator, with its
logic verified in Verus.

- `src/` is the verified library: the Liquid preprocessing passes that turn
  Jekyll-flavoured templates into ones Liquid accepts (`link`/`post_url`,
  captures, nil-safe `contains`, filter chains in conditions, `||` in
  output, stray and nested braces, protected `raw`/code segments), the
  Jekyll filters (dates, words, numbers, URLs, grouping, `jsonify`,
  `cgi_escape`, ...), the `avatar`, `details`, `feed_meta` and
  `file_exists` tags, front-matter values and the context built from them,
  and the lenient lookups of the renderer. Every public function states what
  it returns in its contract; `pub proof fn lemma_*` items state the laws
  that hold across calls.
- `src/outside.rs` holds the trusted calls into `regex`, `serde_json`,
  `chrono` and `chrono-tz`.
- `app/` is the glue to the `liquid` engine: the filter and tag impls,
  conversions between liquid's values and the library's, include loading
  from disk, and the template engine with its retry on unknown filters.
- `tests/` runs the library on concrete cases.
