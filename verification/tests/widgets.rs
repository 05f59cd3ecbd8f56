use wcore::diff::{compute_diff, count_changes, diff_rows, positional_diff, tint_channel, DiffKind, MAX_DIFF_LINES};
use wcore::highlight::{highlight_lines, line_fragments};
use wcore::highlight_cache::{HighlightCache, MAX_CACHE_ENTRIES};
use wcore::spinner::{spinner_frame, FRAMES};
use wcore::formatters::Figures;
use wcore::segment::{Segment, Tone};
use wcore::toolcard::{
    args_summary, compact_line, full_card, status_chip, status_icon, status_icon_stalled, status_tone,
    ToolCardStatus,
};
use wcore::tree::{path_tree, TreeModel, TreeNode};
use wcore::turn::{palette_for, terminal_has_truecolor, Palette, ThemeMode, TurnElement, MAX_DRAIN};

#[test]
fn line_diff_classifies_add_remove_context() {
    let lines = compute_diff("a\nb\nc\n", "a\nB\nc\n");
    let kinds: Vec<DiffKind> = lines.iter().map(|l| l.kind).collect();
    assert_eq!(
        kinds,
        vec![
            DiffKind::Context,
            DiffKind::Removal,
            DiffKind::Add,
            DiffKind::Context
        ]
    );
    let (adds, rms) = count_changes(&lines);
    assert_eq!((adds, rms), (1, 1));
}

#[test]
fn line_diff_handles_pure_insertion() {
    let lines = compute_diff("a\n", "a\nb\nc\n");
    let (adds, rms) = count_changes(&lines);
    assert_eq!((adds, rms), (2, 0));
}

#[test]
fn line_diff_handles_pure_deletion() {
    let lines = compute_diff("a\nb\nc\n", "b\n");
    let (adds, rms) = count_changes(&lines);
    assert_eq!((adds, rms), (0, 2));
}

#[test]
fn large_diff_falls_back_to_the_bounded_positional_path() {
    let over = MAX_DIFF_LINES + 200;
    let big_old: String = (0..over).map(|i| format!("old line {i}\n")).collect();
    let big_new: String = (0..over).map(|i| format!("new line {i}\n")).collect();
    let lines = compute_diff(&big_old, &big_new);
    assert_eq!(lines.len(), over * 2);
}

#[test]
fn positional_diff_classifies_context_and_trailing_surplus() {
    let old: Vec<&str> = vec!["a", "b"];
    let new: Vec<&str> = vec!["a", "B", "c"];
    let lines = positional_diff(&old, &new);
    let kinds: Vec<DiffKind> = lines.iter().map(|l| l.kind).collect();
    assert_eq!(
        kinds,
        vec![
            DiffKind::Context,
            DiffKind::Removal,
            DiffKind::Add,
            DiffKind::Add,
        ]
    );
}

#[test]
fn lcs_diff_keeps_both_sides_and_prefers_removals_on_ties() {
    let lines = compute_diff("x\ny\n", "y\nx\n");
    let rendered: Vec<(DiffKind, &str)> = lines.iter().map(|l| (l.kind, l.text.as_str())).collect();
    assert_eq!(
        rendered,
        vec![(DiffKind::Removal, "x"), (DiffKind::Context, "y"), (DiffKind::Add, "x")]
    );
    let old_side: Vec<&str> = lines.iter().filter(|l| l.kind != DiffKind::Add).map(|l| l.text.as_str()).collect();
    let new_side: Vec<&str> = lines.iter().filter(|l| l.kind != DiffKind::Removal).map(|l| l.text.as_str()).collect();
    assert_eq!(old_side, vec!["x", "y"]);
    assert_eq!(new_side, vec!["y", "x"]);
    assert!(compute_diff("", "").is_empty());
    let crlf = compute_diff("a\r\nb", "a\nb\n");
    assert!(crlf.iter().all(|l| l.kind == DiffKind::Context));
    // A lone `\r` not followed by `\n` stays part of its line.
    let bare_cr = compute_diff("a\r", "a");
    let kinds: Vec<DiffKind> = bare_cr.iter().map(|l| l.kind).collect();
    assert_eq!(kinds, vec![DiffKind::Removal, DiffKind::Add]);
    assert_eq!(bare_cr[0].text, "a\r");
}

#[test]
fn spinner_cycles_and_wraps() {
    assert_eq!(spinner_frame(0), FRAMES[0]);
    assert_eq!(spinner_frame(7), FRAMES[7]);
    assert_eq!(spinner_frame(8), FRAMES[0]);
    assert_eq!(spinner_frame(8 * 1000 + 3), FRAMES[3]);
}

#[test]
fn status_icons_match_s20_variant_a_v092() {
    let expected = [
        (ToolCardStatus::Running, "◐"),
        (ToolCardStatus::Done, "●"),
        (ToolCardStatus::Cancelled, "○"),
        (ToolCardStatus::AwaitingApproval, "⊘"),
        (ToolCardStatus::Failed, "✗"),
    ];
    for (status, glyph) in expected {
        assert_eq!(status_icon(status), glyph, "S20: {status:?} must render as `{glyph}`");
    }
    assert_ne!(status_icon(ToolCardStatus::Running), "○");
    assert_ne!(status_icon(ToolCardStatus::Done), "✓");
}

#[test]
fn stalled_running_card_uses_half_circle_dot_glyph_v092() {
    assert_eq!(status_icon_stalled(ToolCardStatus::Running, true), "◑");
    assert_eq!(status_icon_stalled(ToolCardStatus::Running, false), "◐");
    assert_eq!(status_icon_stalled(ToolCardStatus::Done, true), "●");
    assert_eq!(status_icon_stalled(ToolCardStatus::Failed, true), "✗");
    assert_eq!(status_icon_stalled(ToolCardStatus::Cancelled, true), "○");
    assert_eq!(status_icon_stalled(ToolCardStatus::AwaitingApproval, true), "⊘");
}

#[test]
fn compact_args_summary_truncates_to_third_of_width() {
    assert_eq!(args_summary("  {}  ", 90), "");
    assert_eq!(args_summary("null", 90), "");
    assert_eq!(args_summary("{\n  \"a\": 1\n}", 90), "{ \"a\": 1 }");
    // A third of 30 is 10 characters: nine kept, then the ellipsis.
    assert_eq!(args_summary("abcdefghijklmnop", 30), "abcdefghi…");
    // Never fewer than eight characters.
    assert_eq!(args_summary("abcdefghijklmnop", 3), "abcdefg…");
    assert_eq!(status_chip(ToolCardStatus::AwaitingApproval), "awaiting approval");
    // A wide args blob must not blow past `width/3` characters in the
    // rendered compact line; the truncator appends `…`.
    let long: String = (0..400).map(|i| (b'a' + (i % 26) as u8) as char).collect();
    let input = format!(r#"{{ "blob": "{long}" }}"#);
    let summary = args_summary(&input, 60);
    assert!(summary.chars().count() <= 20, "args not truncated: {summary}");
    assert!(summary.ends_with('…'));
    let line = compact_line("Read", ToolCardStatus::Done, &input, 60, None, &zero_figures());
    let out: String = line.iter().map(|seg| seg.text.as_str()).collect();
    assert!(!out.contains("aaaaaaaaaaaaaaaaaaaaaaaaaaaaaaaaaa"), "args not truncated:\n{out}");
    assert!(!out.contains(long.as_str()), "args not truncated:\n{out}");
}

#[test]
fn turn_element_markdown_preserves_source_text() {
    let body = "# Hello\n\nWorld\n";
    let elem = TurnElement::Markdown(body.to_string());
    if let TurnElement::Markdown(s) = elem {
        assert_eq!(s, body);
    } else {
        panic!("variant mismatch");
    }
}

#[test]
fn max_drain_is_a_meaningful_bound() {
    assert!(MAX_DRAIN >= 4_096);
    assert!(MAX_DRAIN < usize::MAX);
}

#[test]
fn theme_mode_defaults_to_dark() {
    assert_eq!(ThemeMode::default(), ThemeMode::Dark);
}

#[test]
fn highlight_cache_is_bounded_and_evicts_oldest() {
    let mut c: HighlightCache<Vec<Vec<String>>> = HighlightCache::new();
    for k in 0..(MAX_CACHE_ENTRIES as u64 * 4) {
        c.insert(k, vec![vec![format!("line{k}")]]);
        assert!(c.len() <= MAX_CACHE_ENTRIES, "cache exceeded its bound at key {k}");
    }
    assert_eq!(c.len(), MAX_CACHE_ENTRIES);
    assert!(c.get(0).is_none(), "oldest entry should be evicted");
    let newest = MAX_CACHE_ENTRIES as u64 * 4 - 1;
    assert!(c.get(newest).is_some(), "newest entry must be retained");
    let first_kept = MAX_CACHE_ENTRIES as u64 * 3;
    assert!(c.get(first_kept).is_some());
    assert!(c.get(first_kept - 1).is_none());
}

#[test]
fn highlight_cache_reinsert_refreshes_without_growing() {
    let mut c: HighlightCache<Vec<Vec<String>>> = HighlightCache::new();
    c.insert(7, vec![vec!["v1".to_string()]]);
    c.insert(7, vec![vec!["v2".to_string()]]);
    assert_eq!(c.len(), 1);
    let got = &c.get(7).unwrap()[0][0];
    assert_eq!(got, "v2");
}

#[test]
fn highlight_cache_refresh_keeps_the_fifo_position() {
    let mut c: HighlightCache<u32> = HighlightCache::new();
    for k in 0..MAX_CACHE_ENTRIES as u64 {
        c.insert(k, 0);
    }
    c.insert(0, 1);
    c.insert(1000, 2);
    assert_eq!(c.get(0), None, "a refresh is not a use: key 0 is still the oldest");
    assert_eq!(c.get(1), Some(&0));
    assert_eq!(c.get(1000), Some(&2));
    assert_eq!(c.len(), MAX_CACHE_ENTRIES);
}

#[test]
fn diff_rows_carry_the_sign_column() {
    assert_eq!(
        diff_rows("a\nb\n", "a\nc\n"),
        vec!["  a".to_string(), "- b".to_string(), "+ c".to_string()]
    );
}

const READ_OUTPUT: &str = r#"{"path":"src/main.rs","bytes":1234}"#;
const READ_INPUT: &str = r#"{ "path": "src/main.rs" }"#;

fn zero_figures() -> Figures {
    Figures { elapsed: "0.0s".to_string(), seconds: "0".to_string(), readability: None }
}

fn line_text(segs: &[Segment]) -> String {
    segs.iter().map(|s| s.text.as_str()).collect()
}

#[test]
fn tool_card_compact_default_renders_single_line() {
    let line = compact_line("Read", ToolCardStatus::Done, READ_INPUT, 80, Some(READ_OUTPUT), &zero_figures());
    let out = line_text(&line);
    assert!(!out.contains('\n'), "compact card not single-line:\n{out}");
    assert!(out.contains("Read"), "tool name missing:\n{out}");
    assert!(out.contains("●"), "success icon missing:\n{out}");
    assert_eq!(out, "● Read({ \"path\": \"src/main.rs\" }) · Wrote src/main.rs · 1234 bytes");
}

#[test]
fn compact_renders_status_icon_and_tool_name() {
    let icon_for = |s: ToolCardStatus| match s {
        ToolCardStatus::Done => "●",
        ToolCardStatus::Failed => "✗",
        ToolCardStatus::Running => "◐",
        ToolCardStatus::AwaitingApproval => "⊘",
        ToolCardStatus::Cancelled => "○",
    };
    for s in [
        ToolCardStatus::Done,
        ToolCardStatus::Failed,
        ToolCardStatus::Running,
        ToolCardStatus::AwaitingApproval,
        ToolCardStatus::Cancelled,
    ] {
        let line = compact_line("Read", s, READ_INPUT, 80, Some(READ_OUTPUT), &zero_figures());
        let out = line_text(&line);
        assert!(out.contains(icon_for(s)), "{s:?} icon missing:\n{out}");
        assert!(out.contains("Read"), "{s:?} tool name missing:\n{out}");
        assert_eq!(line[0].tone, status_tone(s));
    }
    assert_eq!(status_tone(ToolCardStatus::AwaitingApproval), Tone::Warning);
}

#[test]
fn compact_renders_summary_line_from_formatter() {
    let output = r#"{"results":[{"title":"A","url":"https://example.com","domain":"example.com","snippet":"s"}]}"#;
    let line = compact_line("web", ToolCardStatus::Done, READ_INPUT, 100, Some(output), &zero_figures());
    let out = line_text(&line);
    assert!(out.contains("Found"), "web summary missing:\n{out}");
    assert!(out.contains("result"), "web summary missing:\n{out}");
}

#[test]
fn compact_card_without_output_reads_null() {
    let line = compact_line("mystery", ToolCardStatus::Running, "{}", 80, None, &zero_figures());
    assert_eq!(line_text(&line), "◐ mystery() · completed in 0.0s");
}

#[test]
fn tool_card_expanded_renders_bordered_box_with_detail() {
    let card = full_card("Read", ToolCardStatus::Done, Some(READ_OUTPUT), 6);
    assert!(card.lines.len() >= 3, "full card too few rows: {}", card.lines.len());
    assert_eq!(line_text(&card.lines[0]), "● Read");
    assert_eq!(line_text(&card.lines[1]), "Wrote src/main.rs · 1234 bytes");
    assert_eq!(line_text(&card.lines[2]), "done");
}

#[test]
fn full_mode_running_card_uses_accent_border() {
    let card = full_card("Read", ToolCardStatus::Running, Some(READ_OUTPUT), 3);
    assert_eq!(card.border, Tone::Orange);
}

#[test]
fn full_mode_finished_card_uses_chrome_border() {
    let card = full_card("Read", ToolCardStatus::Done, Some(READ_OUTPUT), 3);
    assert_eq!(card.border, Tone::Border);
}

#[test]
fn full_card_clamps_detail_and_keeps_the_footer_row() {
    let stdout: Vec<String> = (0..10).map(|i| format!("l{i}")).collect();
    let output = format!(r#"{{"stdout":"{}","provider":"local"}}"#, stdout.join("\\n"));
    let card = full_card("bash", ToolCardStatus::Done, Some(&output), 5);
    assert_eq!(card.lines.len(), 5);
    assert_eq!(line_text(&card.lines[1]), "l0");
    assert_eq!(line_text(&card.lines[3]), "l2");
    assert_eq!(line_text(&card.lines[4]), "done · local");
    assert!(full_card("bash", ToolCardStatus::Done, Some(&output), 0).lines.is_empty());
}

fn file(name: &str) -> TreeNode {
    TreeNode { name: name.into(), is_dir: false, children: vec![] }
}

fn dir(name: &str, children: Vec<TreeNode>) -> TreeNode {
    TreeNode { name: name.into(), is_dir: true, children }
}

#[test]
fn empty_tree_renders_a_placeholder() {
    let rows = path_tree(&TreeModel::default());
    assert!(rows[0].text.contains("no files touched yet"), "{rows:?}");
    assert_eq!(rows.len(), 1);
    assert_eq!(rows[0].tone, Tone::Muted);
}

#[test]
fn tree_renders_nested_dirs_and_files() {
    let tree = TreeModel { roots: vec![dir("src", vec![dir("auth", vec![file("anthropic.rs")])])] };
    let rows: Vec<String> = path_tree(&tree).into_iter().map(|s| s.text).collect();
    assert!(rows[0].starts_with("src/"), "root dir: {:?}", rows[0]);
    assert!(rows[1].contains("auth/"), "nested dir: {:?}", rows[1]);
    assert!(rows[1].starts_with("  "), "depth indent: {:?}", rows[1]);
    assert!(rows[2].contains("anthropic.rs") && rows[2].starts_with("    "), "deep file: {:?}", rows[2]);
    assert_eq!(rows, vec!["src/", "  auth/", "    anthropic.rs"]);
}

#[test]
fn directories_use_the_accent_color() {
    let tree = TreeModel { roots: vec![dir("src", vec![file("main.rs")]), file("README.md")] };
    let rows = path_tree(&tree);
    assert_eq!(rows[0].tone, Tone::Orange);
    assert!(rows[0].bold);
    assert_eq!(rows[1].tone, Tone::Dim);
    assert_eq!(rows[1].text, "  main.rs");
    assert_eq!(rows[2].text, "README.md");
}

#[test]
fn palette_follows_mode_no_color_and_truecolor() {
    assert_eq!(palette_for(ThemeMode::Dark, None, true, true), Palette::Hearth);
    assert_eq!(palette_for(ThemeMode::Dark, None, false, true), Palette::Hearth256);
    assert_eq!(palette_for(ThemeMode::Light, None, true, false), Palette::HearthLight);
    assert_eq!(palette_for(ThemeMode::Light, Some(""), false, false), Palette::HearthLight256);
    assert_eq!(palette_for(ThemeMode::Auto, None, true, true), Palette::HearthLight);
    assert_eq!(palette_for(ThemeMode::Auto, None, true, false), Palette::Hearth);
    assert_eq!(palette_for(ThemeMode::Light, Some("1"), true, true), Palette::NoColor);
    assert_eq!(palette_for(ThemeMode::Dark, Some("yes"), false, false), Palette::NoColor);
}

#[test]
fn truecolor_detection_reads_the_three_variables() {
    assert!(terminal_has_truecolor(Some("TrueColor"), None, None));
    assert!(terminal_has_truecolor(Some("24bit"), None, None));
    assert!(!terminal_has_truecolor(Some("256"), None, None));
    assert!(terminal_has_truecolor(None, Some("WezTerm"), None));
    assert!(terminal_has_truecolor(None, Some("iTerm.app"), None));
    assert!(!terminal_has_truecolor(None, Some("Apple_Terminal"), None));
    assert!(terminal_has_truecolor(None, None, Some("xterm-direct")));
    assert!(!terminal_has_truecolor(None, None, Some("xterm-256color")));
    assert!(!terminal_has_truecolor(None, None, None));
}

#[test]
fn highlighted_fragments_lose_newlines_and_empty_pieces() {
    let ranges = vec![(1u8, "let ".to_string()), (2u8, "x".to_string()), (3u8, "\n".to_string())];
    let shown = line_fragments("let x", &Some(ranges), 0u8);
    assert_eq!(shown, vec![(1u8, "let ".to_string()), (2u8, "x".to_string())]);
    let tail = line_fragments("y", &Some(vec![(5u8, "y\n\n".to_string())]), 0u8);
    assert_eq!(tail, vec![(5u8, "y".to_string())]);
}

#[test]
fn a_line_that_failed_to_highlight_keeps_its_raw_text() {
    let shown = line_fragments("fn main() {", &None, 9u8);
    assert_eq!(shown, vec![(9u8, "fn main() {".to_string())]);
}

#[test]
fn tint_mixes_a_fifth_of_the_accent_over_the_background() {
    assert_eq!(tint_channel(0), 10);
    assert_eq!(tint_channel(255), 56);
    assert_eq!(tint_channel(100), 28);
}

#[test]
fn highlighting_keeps_each_line_text_and_colours_rust() {
    let lines = compute_diff("fn main() {\n    let x = 1;\n}\n", "fn main() {\n    let y = 2;\n}\n");
    let shown = highlight_lines("src/main.rs", &lines);
    assert_eq!(shown.len(), lines.len());
    for (frags, line) in shown.iter().zip(lines.iter()) {
        let joined: String = frags.iter().map(|(_, t)| t.as_str()).collect();
        assert_eq!(joined, line.text);
        assert!(frags.iter().all(|(_, t)| !t.is_empty() && !t.contains('\n')));
    }
    let colours: std::collections::HashSet<(u8, u8, u8)> = shown[0].iter().map(|(c, _)| *c).collect();
    assert!(colours.len() > 1, "a Rust line should use more than one colour");
    let plain = highlight_lines("Makefile", &lines);
    for (frags, line) in plain.iter().zip(lines.iter()) {
        let joined: String = frags.iter().map(|(_, t)| t.as_str()).collect();
        assert_eq!(joined, line.text);
    }
}
