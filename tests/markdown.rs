use mini_claw::markdown::{escape_html, strip_markdown};

#[test]
fn test_strip_markdown_bold() {
    assert_eq!(strip_markdown("**bold**"), "bold");
}

#[test]
fn test_strip_markdown_link() {
    assert_eq!(strip_markdown("[text](url)"), "text");
}

#[test]
fn test_strip_markdown_code_block() {
    assert_eq!(strip_markdown("```\ncode\n```"), "code\n");
}

#[test]
fn strip_markdown_leaves_plain_text() {
    assert_eq!(strip_markdown("hello world"), "hello world");
    assert_eq!(strip_markdown("~~old~~ and `x` and _it_"), "old and x and it");
}

#[test]
fn escape_html_escapes_the_three_characters() {
    assert_eq!(escape_html("<a & b>"), "&lt;a &amp; b&gt;");
    assert_eq!(escape_html("&lt;"), "&amp;lt;");
    assert_eq!(escape_html(""), "");
}
