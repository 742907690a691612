use markview::markdown::{
    byte_to_char, escape_html, is_cjk, line_char_offset, outline, stats, to_html,
};

#[test]
fn outline_finds_atx_headings_outside_fences() {
    let text = "# One\ntext\n```\n# not\n```\n## Two *b* [l](u)\n";
    let h = outline(text);
    assert_eq!(h.len(), 2);
    assert_eq!((h[0].level, h[0].text.as_str(), h[0].line), (1, "One", 0));
    assert_eq!((h[1].level, h[1].text.as_str(), h[1].line), (2, "Two b l", 5));
}

#[test]
fn stats_count_lines_words_and_cjk() {
    let s = stats("hello world\n中文");
    assert_eq!(s.lines, 2);
    assert_eq!(s.cjk, 2);
    assert_eq!(s.chars, 14);
    assert_eq!(s.words, 4);
    let e = stats("");
    assert_eq!(e.lines, 1);
    assert_eq!((e.words, e.cjk, e.chars), (0, 0, 0));
    assert_eq!(stats("a\n").lines, 2);
    assert_eq!(stats("state-of-the-art don't").words, 2);
}

#[test]
fn word_counts_for_the_reading_time() {
    // The window estimates the reading time from these two counts.
    let s = stats(&"word ".repeat(110));
    assert_eq!((s.words - s.cjk, s.cjk), (110, 0));
    let m = stats(&format!("{}{}", "w ".repeat(110), "中".repeat(10)));
    assert_eq!((m.words - m.cjk, m.cjk), (110, 10));
    assert_eq!(stats("中文中文").words, 4);
}

#[test]
fn byte_and_line_positions() {
    assert_eq!(byte_to_char("中a", 3), 1);
    assert_eq!(byte_to_char("中a", 99), 2);
    assert_eq!(line_char_offset("ab\n中\nx", 0), 0);
    assert_eq!(line_char_offset("ab\n中\nx", 1), 3);
    assert_eq!(line_char_offset("ab\n中\nx", 2), 5);
    assert_eq!(line_char_offset("ab", 7), 2);
}

#[test]
fn escaping_and_cjk() {
    assert_eq!(escape_html("<a href=\"x\">&</a>"), "&lt;a href=&quot;x&quot;&gt;&amp;&lt;/a&gt;");
    assert!(is_cjk('中'));
    assert!(!is_cjk('a'));
}

#[test]
fn html_export_renders_markdown() {
    let html = to_html("# Hi\n\n~~x~~", "T<1>", "en");
    assert!(html.contains("<h1>Hi</h1>"));
    assert!(html.contains("<del>x</del>"));
    assert!(html.contains("<title>T&lt;1&gt;</title>"));
    assert!(html.contains("<html lang=\"en\">"));
    assert!(html.starts_with("<!doctype html>"));
}

#[test]
fn a_fence_line_with_an_info_string_does_not_close() {
    assert!(outline("```\n# a\n```js\n# b\n```\n").is_empty());
    let h = outline("~~~~\n# in\n~~~~~  \n# out\n");
    assert_eq!(h.len(), 1);
    assert_eq!((h[0].text.as_str(), h[0].line), ("out", 3));
}
