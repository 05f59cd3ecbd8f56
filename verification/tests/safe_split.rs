use wcore::render::safe_split::last_safe_split_point;

#[test]
fn whole_string_safe_when_plain_text() {
    let src = "Hello world\n";
    assert_eq!(last_safe_split_point(src), src.len());
}

#[test]
fn unclosed_code_fence_blocks_everything_after_open() {
    let src = "Hi\n```rust\nfn foo";
    assert_eq!(last_safe_split_point(src), 3);
}

#[test]
fn closed_code_fence_safe() {
    let src = "```rust\nfn foo() {}\n```\n";
    assert_eq!(last_safe_split_point(src), src.len());
}

#[test]
fn unclosed_inline_code() {
    let src = "Hello `foo";
    assert_eq!(last_safe_split_point(src), 0);
}

#[test]
fn unclosed_link_text() {
    let src = "See [the docs";
    assert_eq!(last_safe_split_point(src), 0);
}

#[test]
fn unclosed_link_url() {
    let src = "See [docs](https://";
    assert_eq!(last_safe_split_point(src), 0);
}

#[test]
fn closed_link_safe() {
    let src = "See [docs](https://example.com)";
    assert_eq!(last_safe_split_point(src), src.len());
}

#[test]
fn unclosed_table_row() {
    let src = "| col1 | col2";
    assert_eq!(last_safe_split_point(src), 0);
}

#[test]
fn mixed_content_only_unclosed_stops() {
    let src = "First paragraph.\n\nSecond paragraph.\n\n```rust\nlet x";
    let expected = "First paragraph.\n\nSecond paragraph.\n\n".len();
    assert_eq!(last_safe_split_point(src), expected);
}

#[test]
fn empty_string_returns_zero() {
    assert_eq!(last_safe_split_point(""), 0);
}

#[test]
fn single_newline_safe() {
    assert_eq!(last_safe_split_point("\n"), 1);
}

#[test]
fn tilde_fence_same_as_backtick() {
    let src = "Intro\n~~~\ncode\n";
    assert_eq!(last_safe_split_point(src), 6);
}

#[test]
fn closed_tilde_fence_safe() {
    let src = "~~~\ncode\n~~~\n";
    assert_eq!(last_safe_split_point(src), src.len());
}

#[test]
fn fence_with_mismatched_closer_stays_open() {
    let src = "```\ncode\n~~~\n";
    assert_eq!(last_safe_split_point(src), 0);
}

#[test]
fn crlf_line_endings() {
    let src = "Hi\r\nWorld\r\n";
    assert_eq!(last_safe_split_point(src), src.len());
}

#[test]
fn reference_style_link_safe() {
    let src = "See [the docs]\n";
    assert_eq!(last_safe_split_point(src), src.len());
}

#[test]
fn closed_table_row() {
    let src = "| a | b |\n| c | d |\n";
    assert_eq!(last_safe_split_point(src), src.len());
}

#[test]
fn unclosed_inline_then_newline_in_middle() {
    let src = "intro\n`unclosed";
    assert_eq!(last_safe_split_point(src), 6);
}

#[test]
fn split_point_offsets_are_bytes_not_chars() {
    // Multi-byte text before the newline: the offset counts UTF-8 bytes.
    let src = "héllo\n[open";
    assert_eq!(last_safe_split_point(src), "héllo\n".len());
}

#[test]
fn safe_prefix_rescans_as_wholly_safe() {
    let src = "para\n\n```\nstill open";
    let cut = last_safe_split_point(src);
    assert_eq!(last_safe_split_point(&src[..cut]), cut);
}
