use wcore::render::reasoning_filter::{
    reasoning_collapsed_lines, reasoning_title, ReasoningFilter, REASONING_TITLE_MAX,
};
use wcore::segment::{Segment, Tone};

fn run(chunks: &[&str]) -> String {
    let mut filter = ReasoningFilter::new();
    let mut out = String::new();
    for c in chunks {
        out.push_str(&filter.process(c));
    }
    out
}

#[test]
fn passes_through_text_with_no_tags() {
    assert_eq!(run(&["Hello, world!"]), "Hello, world!");
}

#[test]
fn strips_simple_think_block() {
    assert_eq!(run(&["Hello <think>foo</think> world"]), "Hello  world");
}

#[test]
fn strips_simple_reasoning_block() {
    assert_eq!(run(&["<reasoning>x</reasoning>visible"]), "visible");
}

#[test]
fn strips_thinking_variant() {
    assert_eq!(run(&["<thinking>x</thinking>visible"]), "visible");
}

#[test]
fn case_insensitive_open_close() {
    assert_eq!(run(&["<THINK>x</think>"]), "");
    assert_eq!(run(&["<Reasoning>x</REASONING>"]), "");
    assert_eq!(run(&["<Thinking>x</Thinking>tail"]), "tail");
}

#[test]
fn tag_split_across_chunks_open() {
    assert_eq!(run(&["Hi <thi", "nk>x</think> bye"]), "Hi  bye");
}

#[test]
fn tag_split_across_chunks_close() {
    assert_eq!(run(&["<think>foo</thi", "nk> bye"]), " bye");
}

#[test]
fn nested_think_blocks_handled() {
    assert_eq!(run(&["<think>a<think>b</think>c</think>visible"]), "visible");
}

#[test]
fn unclosed_tag_eats_to_end() {
    assert_eq!(run(&["<think>never closes"]), "");
}

#[test]
fn unknown_tags_pass_through() {
    assert_eq!(run(&["<b>bold</b>"]), "<b>bold</b>");
    assert_eq!(
        run(&["before <span class=\"x\">mid</span> after"]),
        "before <span class=\"x\">mid</span> after"
    );
}

#[test]
fn partial_tag_at_end_of_chunk_buffered() {
    assert_eq!(run(&["Hi <", " world"]), "Hi < world");
}

#[test]
fn reset_clears_pending_buffer() {
    let mut filter = ReasoningFilter::new();
    let out1 = filter.process("Hi <thi");
    assert_eq!(out1, "Hi ");
    filter.reset();
    let out2 = filter.process("<think>x</think>after");
    assert_eq!(out2, "after");
    assert_eq!(filter.take_captured(), "x");
}

#[test]
fn capture_buffer_accumulates_thinking_content_v093() {
    let mut filter = ReasoningFilter::new();
    let visible = filter.process("Some prefix <thinking>I should consider X.</thinking>");
    assert_eq!(visible, "Some prefix ");
    assert_eq!(filter.take_captured(), "I should consider X.");
}

#[test]
fn capture_buffer_concatenates_multiple_blocks_v093() {
    let mut filter = ReasoningFilter::new();
    let _ = filter.process("<think>A</think>between<think>B</think>");
    assert_eq!(filter.take_captured(), "A\nB");
}

#[test]
fn capture_buffer_handles_cross_chunk_tags_v093() {
    let mut filter = ReasoningFilter::new();
    let _ = filter.process("<think>foo</thi");
    let _ = filter.process("nk>after");
    assert_eq!(filter.take_captured(), "foo");
}

#[test]
fn take_captured_drains_and_clears_v093() {
    let mut filter = ReasoningFilter::new();
    let _ = filter.process("<thinking>X</thinking>");
    assert_eq!(filter.take_captured(), "X");
    assert_eq!(filter.take_captured(), "");
}

#[test]
fn capture_buffer_empty_when_no_reasoning_v093() {
    let mut filter = ReasoningFilter::new();
    let _ = filter.process("plain text no tags");
    assert_eq!(filter.take_captured(), "");
}

#[test]
fn reset_clears_captured_v093() {
    let mut filter = ReasoningFilter::new();
    let _ = filter.process("<think>leak me</think>");
    filter.reset();
    assert_eq!(filter.take_captured(), "");
}

#[test]
fn self_closing_think_strips_with_no_content() {
    assert_eq!(run(&["before<think/>after"]), "beforeafter");
}

#[test]
fn malformed_open_tag_with_attributes() {
    assert_eq!(run(&["<thinking attr=\"oops\">x</thinking>tail"]), "tail");
}

#[test]
fn stray_open_bracket_followed_by_alpha_non_tag() {
    assert_eq!(run(&["a <xy>b</xy> c"]), "a <xy>b</xy> c");
}

#[test]
fn consecutive_reasoning_blocks() {
    assert_eq!(run(&["a<think>1</think>b<reasoning>2</reasoning>c"]), "abc");
}

#[test]
fn close_tag_outside_block_is_plain_text() {
    assert_eq!(run(&["plain </think> text"]), "plain </think> text");
}

#[test]
fn many_small_chunks_simulating_token_stream() {
    let s = "Hi <think>secret</think> world";
    let mut filter = ReasoningFilter::new();
    let mut out = String::new();
    for ch in s.chars() {
        out.push_str(&filter.process(&ch.to_string()));
    }
    assert_eq!(out, "Hi  world");
}

#[test]
fn tag_name_prefix_then_unrelated() {
    assert_eq!(run(&["<thigh>x</thigh>"]), "<thigh>x</thigh>");
}

#[test]
fn split_thinking_variant_across_chunks() {
    assert_eq!(
        run(&[
            "<", "t", "h", "i", "n", "k", "i", "n", "g", ">", "x", "<", "/", "t", "h", "i", "n",
            "k", "i", "n", "g", ">", "Y"
        ]),
        "Y"
    );
}

#[test]
fn reasoning_title_takes_first_bold_span_v092() {
    let title = reasoning_title("**Plan the refactor** then we proceed.");
    assert_eq!(title, "Plan the refactor");
}

#[test]
fn reasoning_title_falls_back_to_first_sentence_v092() {
    let title = reasoning_title("Considering the edge cases. Then the happy path.");
    assert_eq!(title, "Considering the edge cases");
}

#[test]
fn reasoning_title_truncates_long_titles_v092() {
    let long = "a".repeat(120);
    let title = reasoning_title(&long);
    assert!(
        title.chars().count() <= REASONING_TITLE_MAX,
        "title not truncated: {} chars",
        title.chars().count()
    );
    assert!(title.ends_with('…'), "truncated title must end with ellipsis");
}

#[test]
fn reasoning_title_collapses_inner_whitespace() {
    assert_eq!(reasoning_title("  step one\n\t and   two!  more"), "step one and two");
}

#[test]
fn long_unresolved_tag_prefix_is_flushed_as_text() {
    // A `<think` followed by a long attribute area without `>` overflows the
    // buffer cap and comes back out as plain text.
    let attr = "x".repeat(300);
    let input = format!("<think {attr}");
    let out = run(&[&input]);
    assert!(out.starts_with("<think "));
    assert_eq!(out.len(), input.len());
}

#[test]
fn nested_self_closing_keeps_depth() {
    assert_eq!(run(&["<think>a<think/>b</think>seen"]), "seen");
}

fn line_text(line: &[Segment]) -> String {
    line.iter().map(|s| s.text.as_str()).collect()
}

#[test]
fn reasoning_collapsed_default_is_single_marker_line_v092() {
    let lines = reasoning_collapsed_lines("**Weighing options** in detail across the whole module.", 4, 128, false);
    assert_eq!(lines.len(), 1, "collapsed reasoning must be one line");
    let text = line_text(&lines[0]);
    assert!(text.starts_with("▶ "), "collapsed marker must be ▶; got {text:?}");
    assert!(text.contains("Thought: "), "missing Thought label; got {text:?}");
    assert!(text.contains("Weighing options"), "missing title; got {text:?}");
    assert!(text.contains("· 4s"), "missing seconds meta; got {text:?}");
    assert!(text.contains("· 128 tok"), "missing token meta; got {text:?}");
    assert_eq!(text, "▶ Thought: Weighing options · 4s · 128 tok");
    assert_eq!(lines[0][1].tone, Tone::Muted);
    assert!(lines[0][1].bold);
    assert_eq!(lines[0][2].tone, Tone::Dim);
}

#[test]
fn reasoning_expanded_shows_marker_flip_and_body_v092() {
    let summary = "First line of thought\nSecond line of thought";
    let lines = reasoning_collapsed_lines(summary, 0, 0, true);
    assert_eq!(lines.len(), 3, "expanded must be header + 2 body lines");
    let header = line_text(&lines[0]);
    assert!(header.starts_with("▼ "), "expanded marker must be ▼; got {header:?}");
    assert!(!header.contains(" · "), "zero-timing header must omit meta; got {header:?}");
    assert!(line_text(&lines[1]).contains("First line of thought"));
    assert!(line_text(&lines[2]).contains("Second line of thought"));
    assert_eq!(line_text(&lines[1]), "  First line of thought");
}

#[test]
fn reasoning_expanded_map_semantics_v092() {
    let mut expanded: std::collections::HashMap<usize, bool> = Default::default();
    let summary = "Some reasoning here.";
    let collapsed = reasoning_collapsed_lines(summary, 0, 0, expanded.get(&0).copied().unwrap_or(false));
    assert_eq!(collapsed.len(), 1);
    expanded.insert(0, true);
    let open = reasoning_collapsed_lines(summary, 0, 0, expanded.get(&0).copied().unwrap_or(false));
    assert!(open.len() > 1, "expanded turn must render body");
}

#[test]
fn chunk_boundaries_do_not_change_output_or_captured_text() {
    let whole = "a<think>x<think>y</think>z</think>b";
    let mut f1 = ReasoningFilter::new();
    let mut joined = String::new();
    joined.push_str(&f1.process("a<thi"));
    joined.push_str(&f1.process("nk>x<think>y</thi"));
    joined.push_str(&f1.process("nk>z</think>b"));
    let mut f2 = ReasoningFilter::new();
    let once = f2.process(whole);
    assert_eq!(joined, once);
    assert_eq!(once, "ab");
    assert_eq!(f1.take_captured(), f2.take_captured());
}
