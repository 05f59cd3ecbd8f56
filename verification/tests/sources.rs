use wcore::segment::{Segment, Tone};
use wcore::sources::{extract_domain, render_sources, MAX_SOURCES};

fn line_text(line: &[Segment]) -> String {
    line.iter().map(|s| s.text.as_str()).collect()
}

#[test]
fn sources_block_renders_only_when_urls_present() {
    let lines = render_sources(&[]);
    assert!(lines.is_empty(), "an empty URL list must produce zero lines (no stray header)");
    let one = vec!["https://example.com".to_string()];
    let lines = render_sources(&one);
    assert_eq!(lines.len(), 2);
    assert_eq!(line_text(&lines[0]), "Sources:");
}

#[test]
fn sources_max_10_with_overflow_dropped() {
    let urls: Vec<String> = (0..15).map(|i| format!("https://r{i}.com")).collect();
    let lines = render_sources(&urls);
    assert_eq!(lines.len(), MAX_SOURCES + 1, "must cap at 10 entries + 1 header");
    let body: String = lines.iter().skip(1).map(|l| line_text(l)).collect::<Vec<_>>().join("\n");
    assert!(body.contains("r9.com"), "10th URL must be present");
    assert!(!body.contains("r10.com"), "11th URL must be silently dropped");
}

#[test]
fn domain_extracted_from_url() {
    let urls = vec!["https://example.com/path?q=1".to_string()];
    let lines = render_sources(&urls);
    let row = line_text(&lines[1]);
    assert!(row.contains("example.com"), "entry must surface the domain — got: {row}");
    assert!(row.contains("https://example.com/path?q=1"), "entry must keep the full URL inline — got: {row}");
    assert!(!row.contains("path?q=1 — "), "domain must not include path");
    assert!(row.starts_with("  1. example.com — "));
}

#[test]
fn sources_use_theme_link_color() {
    let urls = vec!["https://a.com".to_string(), "https://b.com".to_string()];
    for line in &render_sources(&urls) {
        for span in line {
            assert_eq!(span.tone, Tone::Link, "every Sources span must carry the link role");
        }
    }
}

#[test]
fn non_http_url_uses_full_url_as_domain_fallback() {
    let urls = vec!["bare-token-no-scheme".to_string()];
    let lines = render_sources(&urls);
    let row = line_text(&lines[1]);
    assert!(row.contains("bare-token-no-scheme"), "fallback domain must be the input string — got: {row}");
    assert!(row.starts_with("  1. bare-token-no-scheme — "));
}

#[test]
fn empty_host_fragment_falls_back_to_full_url() {
    let urls = vec!["https:///orphan".to_string()];
    let lines = render_sources(&urls);
    let row = line_text(&lines[1]);
    assert!(row.contains("https:///orphan"), "malformed URL must fall back to the full string — got: {row}");
    assert!(row.starts_with("  1. https:///orphan — "));
}

#[test]
fn header_styled_in_link_color() {
    let urls = vec!["https://x.com".to_string()];
    let lines = render_sources(&urls);
    let header = &lines[0];
    assert_eq!(line_text(header), "Sources:");
    assert_eq!(header.len(), 1);
    assert_eq!(header[0].tone, Tone::Link);
}

#[test]
fn sources_url_is_osc8_wrapped_v092() {
    let urls = vec!["https://example.com/path".to_string()];
    let lines = render_sources(&urls);
    let row = &lines[1];
    assert!(row.iter().any(|s| s.text == "\x1b]8;;https://example.com/path\x07"), "sources URL missing OSC 8 opener");
    assert!(row.iter().any(|s| s.text == "\x1b]8;;\x07"), "sources URL missing OSC 8 closer");
    assert!(row.iter().any(|s| s.text == "https://example.com/path"));
}

#[test]
fn sources_mailto_url_renders_plain_v092() {
    let urls = vec!["mailto:team@example.com".to_string()];
    let lines = render_sources(&urls);
    let row = &lines[1];
    assert!(!row.iter().any(|s| s.text.contains("\x1b]8;;")), "mailto source must not emit OSC 8 escape");
    assert!(line_text(row).contains("mailto:team@example.com"));
}

#[test]
fn extract_domain_stops_at_the_next_scheme_separator() {
    assert_eq!(extract_domain("https://a.com/x"), Some("a.com".to_string()));
    assert_eq!(extract_domain("https://a:b://c"), Some("a:b".to_string()));
    assert_eq!(extract_domain("no-scheme"), None);
    assert_eq!(extract_domain("ftp://?q"), None);
}
