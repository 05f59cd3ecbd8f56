use std::time::Duration;

use serde_json::Value;
use wcore::formatters::{
    derive_domain, formatter_for, i64_decimal, infer_action, take_chars, BashFormatter,
    DiscordFormatter, FileAction, FileOpsFormatter, Figures, FormatterKind, GenericFormatter,
    HomeAssistantFormatter, ImageGenFormatter, TranscribeFormatter, TtsFormatter, WebFetchFormatter,
    WebFormatter, CMD_PREVIEW, DATA_URI_PREVIEW, MAX_DETAIL_LINES, MAX_STDOUT_LINES, MAX_URLS,
};
use wcore::segment::Tone;

/// The figures a caller formats for `payload` after `d`: the elapsed time
/// to a tenth of a second, the transcript seconds, the readability score.
fn figures(payload: &str, d: Duration) -> Figures {
    let v: Value = serde_json::from_str(payload).unwrap_or(Value::Null);
    Figures {
        elapsed: format!("{:.1}s", d.as_secs_f64()),
        seconds: format!("{:.0}", v.get("seconds").and_then(Value::as_f64).unwrap_or(0.0)),
        readability: v.get("readability_score").and_then(Value::as_f64).map(|s| format!("{s:.2}")),
    }
}

fn summary(kind: FormatterKind, payload: &str, d: Duration) -> String {
    kind.summary_line(payload, &figures(payload, d))
}

fn texts(kind: FormatterKind, payload: &str) -> Vec<String> {
    kind.detail_lines(payload).into_iter().map(|s| s.text).collect()
}

#[test]
fn formatter_for_unknown_returns_generic() {
    let f = formatter_for("nonexistent_tool_name_zzz");
    assert_eq!(f, FormatterKind::Generic);
    let s = summary(f, r#"{ "status": "completed" }"#, Duration::from_millis(1200));
    assert!(s.contains("completed") || s.contains("status"), "generic fallback summary was: {s}");
}

#[test]
fn known_tool_names_dispatch_to_specific_formatter() {
    let f = formatter_for("web");
    let payload = r#"{"results":[{"title":"A","url":"https://example.com","domain":"example.com","snippet":"s"}]}"#;
    let s = summary(f, payload, Duration::from_secs_f64(2.3));
    assert!(s.contains("Found"), "web summary was: {s}");
    assert!(s.contains("results"), "web summary was: {s}");
}

#[test]
fn formatter_dispatcher_matches_all_backend_tool_names_v0911() {
    let bash_payload = r#"{ "stdout": "ok", "exit_code": 0 }"#;
    let read_payload = r#"{ "path": "/x", "content": "hello" }"#;
    let web_payload = r#"{"results":[{"title":"A","url":"https://example.com","domain":"example.com","snippet":"s"}]}"#;
    let web_fetch_payload = r#"{ "url": "https://example.com", "status": 200 }"#;
    let stt_payload = r#"{ "text": "hello world" }"#;
    let img_payload = r#"{ "image_url": "https://x/y.png" }"#;
    let tts_payload = r#"{ "audio_url": "https://x/y.mp3" }"#;
    let discord_payload = r#"{ "channel": "general" }"#;
    let ha_payload = r#"{ "entity": "light.kitchen", "state": "on" }"#;
    let cases: &[(&str, FormatterKind, &str)] = &[
        ("Bash", FormatterKind::Bash, bash_payload),
        ("bash", FormatterKind::Bash, bash_payload),
        ("Read", FormatterKind::FileOps, read_payload),
        ("Write", FormatterKind::FileOps, read_payload),
        ("Edit", FormatterKind::FileOps, read_payload),
        ("web", FormatterKind::Web, web_payload),
        ("WebFetch", FormatterKind::WebFetch, web_fetch_payload),
        ("web_fetch", FormatterKind::WebFetch, web_fetch_payload),
        ("transcribe_audio", FormatterKind::Transcribe, stt_payload),
        ("image_generate", FormatterKind::ImageGen, img_payload),
        ("text_to_speech", FormatterKind::Tts, tts_payload),
        ("discord_server", FormatterKind::Discord, discord_payload),
        ("homeassistant", FormatterKind::HomeAssistant, ha_payload),
    ];
    let generic = formatter_for("nonexistent_tool_name_zzz");
    for (name, kind, payload) in cases {
        let f = formatter_for(name);
        assert_eq!(f, *kind, "tool `{name}` dispatched to {f:?}");
        let specific = summary(f, payload, Duration::ZERO);
        let fallback = summary(generic, payload, Duration::ZERO);
        assert_ne!(specific, fallback, "tool `{name}` fell through to the generic fallback (summary={specific:?})");
    }
    assert_eq!(formatter_for("vision_analyze"), FormatterKind::Vision);
    assert_eq!(formatter_for("github_api"), FormatterKind::Github);
}

#[test]
fn formatter_dispatcher_case_insensitive_v0911() {
    let payload = r#"{ "stdout": "hello", "exit_code": 0 }"#;
    let s_lower = summary(formatter_for("bash"), payload, Duration::ZERO);
    let s_upper = summary(formatter_for("BASH"), payload, Duration::ZERO);
    let s_pascal = summary(formatter_for("Bash"), payload, Duration::ZERO);
    assert_eq!(s_lower, s_upper, "BASH should match bash");
    assert_eq!(s_lower, s_pascal, "Bash should match bash");
    let p = r#"{ "url": "https://example.com", "status": 200 }"#;
    let a = summary(formatter_for("WebFetch"), p, Duration::ZERO);
    let b = summary(formatter_for("webfetch"), p, Duration::ZERO);
    let c = summary(formatter_for("web_fetch"), p, Duration::ZERO);
    assert_eq!(a, b);
    assert_eq!(a, c);
}

#[test]
fn dispatch_trims_and_folds_inner_whitespace() {
    assert_eq!(formatter_for("  Bash \n"), FormatterKind::Bash);
    assert_eq!(formatter_for("Home Assistant"), FormatterKind::HomeAssistant);
    assert_eq!(formatter_for("web search"), FormatterKind::Web);
    assert_eq!(formatter_for(""), FormatterKind::Generic);
}

#[test]
fn generic_summary_picks_first_string_field() {
    let s = summary(FormatterKind::Generic, r#"{ "code": 0, "message": "done" }"#, Duration::from_secs(1));
    assert_eq!(s, "message: done");
}

#[test]
fn generic_summary_falls_back_to_duration_for_non_object() {
    let s = summary(FormatterKind::Generic, "[1, 2, 3]", Duration::from_millis(1234));
    assert_eq!(s, "completed in 1.2s");
}

#[test]
fn generic_summary_skips_empty_strings() {
    let s = summary(FormatterKind::Generic, r#"{ "blank": "   ", "real": "value" }"#, Duration::from_secs(1));
    assert_eq!(s, "real: value");
}

#[test]
fn generic_summary_truncates_long_string_values() {
    let payload = format!(r#"{{ "msg": "{}" }}"#, "x".repeat(120));
    let s = summary(FormatterKind::Generic, &payload, Duration::from_secs(1));
    assert!(s.starts_with("msg: "));
    assert!(s.ends_with('…'));
    assert_eq!(s.chars().count(), 5 + 60 + 1);
}

#[test]
fn generic_formatter_truncates_long_json() {
    let fields: Vec<String> = (0..100).map(|i| format!("\"k{i}\": {i}")).collect();
    let payload = format!("{{{}}}", fields.join(", "));
    let lines = FormatterKind::Generic.detail_lines(&payload);
    assert!(lines.len() <= MAX_DETAIL_LINES + 1, "got {} lines, expected ≤ {}", lines.len(), MAX_DETAIL_LINES + 1);
    let last = &lines[lines.len() - 1];
    assert!(last.text.starts_with("... (") && last.text.contains("more lines"), "footer was: {}", last.text);
    assert_eq!(last.tone, Tone::Warning);
    assert_eq!(last.text, "... (72 more lines)");
}

#[test]
fn generic_detail_lines_no_truncation_for_short_payload() {
    let lines = texts(FormatterKind::Generic, r#"{ "a": 1, "b": 2 }"#);
    assert!(lines.len() <= MAX_DETAIL_LINES);
    let last = &lines[lines.len() - 1];
    assert!(!last.contains("more lines"));
    assert_eq!(lines, vec!["{", "  \"a\": 1,", "  \"b\": 2", "}"]);
}

#[test]
fn generic_detail_of_an_empty_or_plain_output() {
    assert_eq!(texts(FormatterKind::Generic, ""), vec!["null"]);
    assert_eq!(texts(FormatterKind::Generic, "plain text"), vec!["\"plain text\""]);
}

#[test]
fn web_summary_counts_results() {
    let payload = r#"{"results":[{"title":"A","url":"https://a.com"},{"title":"B","url":"https://b.com"},{"title":"C","url":"https://c.com"}]}"#;
    let s = summary(FormatterKind::Web, payload, Duration::from_secs_f64(2.3));
    assert_eq!(s, "Found 3 results in 2.3s");
}

#[test]
fn web_summary_zero_results_on_missing_field() {
    let s = summary(FormatterKind::Web, "{}", Duration::from_millis(500));
    assert_eq!(s, "Found 0 results in 0.5s");
}

#[test]
fn web_extract_urls_caps_and_filters() {
    let results: Vec<String> = (0..20)
        .map(|i| format!(r#"{{ "title": "R{i}", "url": "https://r{i}.com" }}"#))
        .collect();
    let payload = format!(r#"{{ "results": [{}] }}"#, results.join(","));
    let urls = FormatterKind::Web.extract_urls(&payload);
    assert_eq!(urls.len(), MAX_URLS);
    assert_eq!(urls[0], "https://r0.com");
}

#[test]
fn web_extract_urls_skips_results_without_a_url() {
    let payload = r#"{"results":[{"title":"no url"},{"url":"https://b.com"},{"url":5}]}"#;
    assert_eq!(FormatterKind::Web.extract_urls(payload), vec!["https://b.com".to_string()]);
}

#[test]
fn web_detail_lines_have_title_and_meta_per_result() {
    let payload = r#"{"results":[{"title":"Example","url":"https://example.com/page","snippet":"Hello world"}]}"#;
    let lines = FormatterKind::Web.detail_lines(payload);
    assert_eq!(lines.len(), 2);
    assert_eq!(lines[0].text, "Example");
    assert!(lines[0].bold);
    assert!(lines[1].text.contains("example.com"));
    assert!(lines[1].text.contains("Hello world"));
    assert_eq!(lines[1].text, "  example.com · Hello world");
}

#[test]
fn web_detail_untitled_result_without_url() {
    let lines = texts(FormatterKind::Web, r#"{"results":[{}]}"#);
    assert_eq!(lines, vec!["(untitled)", "  ? · "]);
}

#[test]
fn derive_domain_takes_the_host() {
    assert_eq!(derive_domain("https://news.example.com/a?b#c"), "news.example.com");
    assert_eq!(derive_domain("example.org/path"), "example.org");
    assert_eq!(derive_domain("https://h.io?x"), "h.io");
    assert_eq!(derive_domain(""), "");
}

#[test]
fn bash_summary_format() {
    let payload = r#"{ "cmd": "ls -la /tmp", "exit_code": 0, "stdout": "total 4\nfile1\nfile2" }"#;
    let s = summary(FormatterKind::Bash, payload, Duration::from_secs(1));
    assert_eq!(s, "Ran `ls -la /tmp` · exit 0 · 19 bytes");
}

#[test]
fn bash_summary_truncates_long_cmd() {
    let payload = r#"{ "cmd": "echo this-is-a-very-long-command-that-will-be-clipped", "exit_code": 1 }"#;
    let s = summary(FormatterKind::Bash, payload, Duration::from_secs(1));
    assert!(s.starts_with("Ran `"));
    assert!(s.contains("· exit 1 · 0 bytes"));
    let inner = s.trim_start_matches("Ran `").split('`').next().unwrap();
    assert_eq!(inner.chars().count(), CMD_PREVIEW);
}

#[test]
fn bash_detail_lines_clipped_to_max() {
    let stdout: Vec<String> = (0..50).map(|i| format!("line {i}")).collect();
    let payload = format!(r#"{{ "cmd": "yes", "exit_code": 0, "stdout": "{}" }}"#, stdout.join("\\n"));
    let lines = FormatterKind::Bash.detail_lines(&payload);
    assert_eq!(lines.len(), MAX_STDOUT_LINES);
    assert_eq!(lines[19].text, "line 19");
}

#[test]
fn bash_summary_counts_bytes_and_negative_exit_codes() {
    let payload = r#"{ "cmd": "x", "exit_code": -2, "stdout": "é" }"#;
    assert_eq!(summary(FormatterKind::Bash, payload, Duration::ZERO), "Ran `x` · exit -2 · 2 bytes");
    assert_eq!(summary(FormatterKind::Bash, "{}", Duration::ZERO), "Ran `?` · exit 0 · 0 bytes");
}

#[test]
fn read_summary() {
    let payload = r#"{ "action": "read", "path": "/etc/hosts", "lines": 42 }"#;
    assert_eq!(summary(FormatterKind::FileOps, payload, Duration::from_secs(1)), "Read /etc/hosts · 42 lines");
}

#[test]
fn write_summary() {
    let payload = r#"{ "action": "write", "path": "/tmp/out.txt", "bytes": 1024 }"#;
    assert_eq!(summary(FormatterKind::FileOps, payload, Duration::from_secs(1)), "Wrote /tmp/out.txt · 1024 bytes");
}

#[test]
fn edit_summary() {
    let payload = r#"{ "action": "edit", "path": "src/main.rs", "added": 5, "removed": 3 }"#;
    assert_eq!(summary(FormatterKind::FileOps, payload, Duration::from_secs(1)), "Edited src/main.rs · +5/-3");
}

#[test]
fn read_inferred_from_lines_field() {
    let payload = r#"{ "path": "/a/b", "lines": 7 }"#;
    assert_eq!(summary(FormatterKind::FileOps, payload, Duration::from_secs(1)), "Read /a/b · 7 lines");
}

#[test]
fn edit_inferred_from_added_removed() {
    let payload = r#"{ "path": "src/lib.rs", "added": 1, "removed": 0 }"#;
    assert_eq!(summary(FormatterKind::FileOps, payload, Duration::from_secs(1)), "Edited src/lib.rs · +1/-0");
}

#[test]
fn file_action_inference_order_and_unknown() {
    assert_eq!(infer_action(r#"{ "bytes": 1, "lines": 2 }"#), FileAction::Write);
    assert_eq!(infer_action(r#"{ "action": "delete", "removed": 2 }"#), FileAction::Edit);
    assert_eq!(infer_action("{}"), FileAction::Unknown);
    assert_eq!(summary(FormatterKind::FileOps, "{}", Duration::ZERO), "file_ops ?");
    assert_eq!(texts(FormatterKind::FileOps, r#"{ "path": "p", "lines": 1 }"#), vec!["Read p · 1 lines"]);
}

#[test]
fn discord_summary_format() {
    let s = summary(FormatterKind::Discord, r#"{ "channel_name": "general", "chars": 42 }"#, Duration::from_secs(1));
    assert_eq!(s, "Posted to #general · 42 chars");
}

#[test]
fn discord_summary_missing_channel() {
    let s = summary(FormatterKind::Discord, r#"{ "chars": 10 }"#, Duration::from_secs(1));
    assert_eq!(s, "Posted to #? · 10 chars");
}

#[test]
fn discord_args_preview_the_post() {
    let k = FormatterKind::Discord;
    assert_eq!(k.format_args(r#"{ "channel": "dev", "text": "  hi there  " }"#), Some("#dev · \"hi there\"".to_string()));
    assert_eq!(k.format_args(r#"{ "channel_name": "ops" }"#), Some("#ops".to_string()));
    assert_eq!(k.format_args(r#"{ "message": "no channel" }"#), None);
    assert_eq!(k.format_args(r#"{ "channel_name": 5, "channel": "x" }"#), None);
    let long = format!(r#"{{ "channel": "c", "content": "{}" }}"#, "m".repeat(45));
    assert_eq!(k.format_args(&long), Some(format!("#c · \"{}…\"", "m".repeat(40))));
}

#[test]
fn ha_summary_format() {
    let payload = r#"{ "domain": "light", "service": "turn_on", "entities": ["light.kitchen", "light.den"] }"#;
    assert_eq!(summary(FormatterKind::HomeAssistant, payload, Duration::from_secs(1)), "Called light.turn_on on 2 entities");
    assert_eq!(texts(FormatterKind::HomeAssistant, payload), vec!["light.kitchen", "light.den"]);
}

#[test]
fn ha_summary_missing_entities() {
    let payload = r#"{ "domain": "automation", "service": "reload" }"#;
    assert_eq!(summary(FormatterKind::HomeAssistant, payload, Duration::from_secs(1)), "Called automation.reload on 0 entities");
    assert!(texts(FormatterKind::HomeAssistant, payload).is_empty());
}

#[test]
fn image_gen_summary_format() {
    let payload = r#"{ "provider": "openai", "width": 1024, "height": 1024, "url": "https://images.example.com/abc.png" }"#;
    let s = summary(FormatterKind::ImageGen, payload, Duration::from_secs_f64(3.2));
    assert_eq!(s, "Generated image · openai · 1024x1024 · 3.2s");
}

#[test]
fn image_gen_extract_urls_skips_data_uri() {
    assert!(FormatterKind::ImageGen.extract_urls(r#"{ "url": "data:image/png;base64,iVBORw0KGgo..." }"#).is_empty());
}

#[test]
fn image_gen_extract_urls_returns_http_url() {
    assert_eq!(
        FormatterKind::ImageGen.extract_urls(r#"{ "url": "https://img.example.com/a.png" }"#),
        vec!["https://img.example.com/a.png".to_string()]
    );
}

#[test]
fn image_gen_detail_truncates_data_uri() {
    let payload = format!(r#"{{ "url": "data:image/png;base64,{}" }}"#, "A".repeat(500));
    let lines = texts(FormatterKind::ImageGen, &payload);
    assert_eq!(lines.len(), 1);
    assert!(lines[0].ends_with("..."));
    assert_eq!(lines[0].chars().count(), DATA_URI_PREVIEW + 3);
}

#[test]
fn transcribe_summary_format() {
    let payload = r#"{ "seconds": 12.4, "segments": 8, "language": "en" }"#;
    assert_eq!(summary(FormatterKind::Transcribe, payload, Duration::from_secs(1)), "Transcribed 12s · 8 segments · en");
}

#[test]
fn transcribe_summary_handles_missing_fields() {
    assert_eq!(summary(FormatterKind::Transcribe, "{}", Duration::from_secs(1)), "Transcribed 0s · 0 segments · ?");
}

#[test]
fn tts_summary_format() {
    let payload = r#"{ "chars": 320, "provider": "elevenlabs", "path": "/tmp/output/abc.wav" }"#;
    assert_eq!(summary(FormatterKind::Tts, payload, Duration::from_secs(1)), "Synthesized 320 chars · elevenlabs · → abc.wav");
}

#[test]
fn tts_summary_missing_path_is_question_mark() {
    let payload = r#"{ "chars": 50, "provider": "openai" }"#;
    assert_eq!(summary(FormatterKind::Tts, payload, Duration::from_secs(1)), "Synthesized 50 chars · openai · → ?");
}

#[test]
fn tts_args_quote_the_text() {
    let k = FormatterKind::Tts;
    assert_eq!(k.format_args(r#"{ "text": " hello " }"#), Some("\"hello\"".to_string()));
    assert_eq!(k.format_args(r#"{ "text": "   " }"#), None);
    assert_eq!(k.format_args("{}"), None);
    assert_eq!(FormatterKind::Bash.format_args(r#"{ "text": "x" }"#), None);
    assert_eq!(texts(k, r#"{ "path": "C:\\out\\a.wav" }"#), vec!["C:\\out\\a.wav"]);
    assert_eq!(summary(k, r#"{ "path": "C:\\out\\a.wav" }"#, Duration::ZERO), "Synthesized 0 chars · ? · → a.wav");
}

#[test]
fn web_fetch_summary_with_readability_score() {
    let payload = r#"{ "url": "https://news.example.com/article", "bytes": 42137, "readability_score": 0.91 }"#;
    assert_eq!(
        summary(FormatterKind::WebFetch, payload, Duration::from_secs(1)),
        "Fetched news.example.com · 42137 bytes · readability 0.91"
    );
}

#[test]
fn web_fetch_summary_without_readability_score() {
    let payload = r#"{ "url": "https://files.example.com/data.bin", "bytes": 1024 }"#;
    assert_eq!(summary(FormatterKind::WebFetch, payload, Duration::from_secs(1)), "Fetched files.example.com · 1024 bytes");
}

#[test]
fn web_fetch_extracts_single_url() {
    let urls = FormatterKind::WebFetch.extract_urls(r#"{ "url": "https://example.com/page", "bytes": 100 }"#);
    assert_eq!(urls, vec!["https://example.com/page".to_string()]);
    assert!(FormatterKind::WebFetch.extract_urls(r#"{ "url": "" }"#).is_empty());
}

#[test]
fn small_helpers_are_exact() {
    assert_eq!(take_chars("héllo", 2), "hé");
    assert_eq!(take_chars("hi", 5), "hi");
    assert_eq!(i64_decimal(i64::MIN), "-9223372036854775808");
    assert_eq!(i64_decimal(0), "0");
}

#[test]
fn formatter_structs_agree_with_the_dispatcher() {
    let p = r#"{ "cmd": "ls", "exit_code": 0, "stdout": "a", "path": "/x", "lines": 2, "url": "https://h.io/p",
        "channel_name": "c", "chars": 3, "domain": "light", "service": "on", "entities": ["e"],
        "provider": "p", "width": 1, "height": 2, "segments": 4, "language": "en",
        "results": [{ "title": "T", "url": "https://r.io" }] }"#;
    let f = figures(p, Duration::from_millis(1500));
    assert_eq!(BashFormatter.summary_line(p, &f), FormatterKind::Bash.summary_line(p, &f));
    assert_eq!(FileOpsFormatter.summary_line(p, &f), FormatterKind::FileOps.summary_line(p, &f));
    assert_eq!(GenericFormatter.summary_line(p, &f), FormatterKind::Generic.summary_line(p, &f));
    assert_eq!(WebFormatter.summary_line(p, &f), "Found 1 results in 1.5s");
    assert_eq!(WebFormatter.extract_urls(p), vec!["https://r.io".to_string()]);
    assert_eq!(WebFetchFormatter.summary_line(p, &f), "Fetched h.io · 0 bytes");
    assert_eq!(WebFetchFormatter.extract_urls(p), vec!["https://h.io/p".to_string()]);
    assert_eq!(DiscordFormatter.summary_line(p, &f), "Posted to #c · 3 chars");
    assert_eq!(DiscordFormatter.format_args(p), Some("#c".to_string()));
    assert_eq!(HomeAssistantFormatter.summary_line(p, &f), "Called light.on on 1 entities");
    assert_eq!(ImageGenFormatter.summary_line(p, &f), "Generated image · p · 1x2 · 1.5s");
    assert_eq!(ImageGenFormatter.extract_urls(p), vec!["https://h.io/p".to_string()]);
    assert_eq!(TranscribeFormatter.summary_line(p, &f), "Transcribed 0s · 4 segments · en");
    assert_eq!(TtsFormatter.summary_line(p, &f), "Synthesized 3 chars · p · → x");
    assert_eq!(TtsFormatter.format_args(p), None);
    let d: Vec<String> = FileOpsFormatter.detail_lines(p).into_iter().map(|s| s.text).collect();
    assert_eq!(d, vec!["Read /x · 2 lines"]);
    assert_eq!(BashFormatter.detail_lines(p).len(), 1);
}
