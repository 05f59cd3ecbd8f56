use wcore::permission::components::{
    basename, clamp_count, clamp_lines, cwd_relative, more_lines_note, ApprovalAction, FallbackComponent,
    FileEditComponent, MonitorComponent, EDIT_CLAMP,
};
use wcore::segment::Tone;
use wcore::permission::shell::{destructive_warning, infer_shell_prefix, is_sed_edit};

#[test]
fn infers_command_plus_subcommand() {
    assert_eq!(infer_shell_prefix("cargo test --lib"), "cargo test ");
    assert_eq!(infer_shell_prefix("npm run build"), "npm run ");
    assert_eq!(infer_shell_prefix("ls -la"), "ls ");
    assert_eq!(infer_shell_prefix("ls"), "ls ");
    assert_eq!(infer_shell_prefix(""), "");
    assert_eq!(infer_shell_prefix("  git   status  "), "git status ");
}

#[test]
fn flags_destructive_commands_only() {
    assert!(destructive_warning("rm -rf /tmp/x").is_some());
    assert!(destructive_warning("rm -fr /tmp/x").is_some());
    assert!(destructive_warning("git push --force origin main").is_some());
    assert!(destructive_warning("git push -f").is_some());
    assert!(destructive_warning("dd if=/dev/zero of=/dev/sda").is_some());
    assert!(destructive_warning("mkfs.ext4 /dev/sdb1").is_some());
    assert!(destructive_warning(":(){ :|:& };:").is_some());
    assert!(destructive_warning("Remove-Item -Recurse -Force C:\\tmp").is_some());
    assert!(destructive_warning("Format-Volume -DriveLetter D").is_some());
    assert!(destructive_warning("cargo test").is_none());
    assert!(destructive_warning("ls -la").is_none());
    assert!(destructive_warning("git push origin main").is_none());
    assert_eq!(
        destructive_warning("RM -RF /").unwrap(),
        "destructive command — review carefully before approving"
    );
}

#[test]
fn detects_sed_inplace_edit() {
    assert_eq!(is_sed_edit("sed -i s/a/b/ file.txt"), Some("file.txt".to_string()));
    assert_eq!(is_sed_edit("sed -i.bak s/a/b/ file.txt"), Some("file.txt".to_string()));
    assert_eq!(is_sed_edit("sed s/a/b/ file.txt"), None);
    assert_eq!(is_sed_edit("grep foo file.txt"), None);
    assert_eq!(is_sed_edit(""), None);
}

#[test]
fn icon_is_the_edit_glyph() {
    assert_eq!(FileEditComponent.icon(), "✎");
}

#[test]
fn icon_is_the_filled_circle() {
    assert_eq!(MonitorComponent.icon(), "◉");
}

#[test]
fn file_edit_title_and_keys() {
    let c = FileEditComponent;
    assert_eq!(c.title_text("/repo/src/foo.rs"), "Make this edit to foo.rs");
    assert_eq!(c.title_text(""), "Make this edit to file");
    assert_eq!(basename("src/"), "src");
    assert_eq!(
        c.keys_text(true, false),
        "[enter/y] approve   [a] always for this tool   [n] deny   [esc] cancel   [ctrl+f] expand"
    );
    assert_eq!(
        c.keys_text(false, true),
        "[enter/y] approve   [n] deny   [esc] cancel   [ctrl+f] collapse"
    );
    assert_eq!(c.default_action(), ApprovalAction::ApproveOnce);
    assert_eq!(clamp_count(20, 12, false), (12, 8));
    assert_eq!(clamp_count(20, 12, true), (20, 0));
    assert_eq!(more_lines_note(8), "… (8 more lines · ctrl+f to expand)");
}

#[test]
fn monitor_target_and_cadence() {
    assert_eq!(
        MonitorComponent::target("{\"target\": \"  build.log \", \"cadence\": \"every 30s\"}", "summary"),
        "build.log"
    );
    assert_eq!(MonitorComponent::target("not json", "  the summary "), "the summary");
    assert_eq!(MonitorComponent::target("{\"target\": \"  \"}", "s"), "s");
    assert_eq!(
        MonitorComponent::cadence("{\"cadence\": \"every 30s\"}"),
        Some("every 30s".to_string())
    );
    assert_eq!(MonitorComponent::cadence("{\"cadence\": 5}"), None);
    assert_eq!(MonitorComponent::title_text(""), "Monitor");
    assert_eq!(MonitorComponent::title_text("x"), "Monitor x");
}

#[test]
fn fallback_clamps_and_appends_the_reason() {
    let blob: String = (0..25).map(|i| format!("line {i}\n")).collect();
    let body = FallbackComponent::body_lines(&blob, "", false);
    assert_eq!(body.len(), 11);
    assert_eq!(body[10], "… (15 more lines · ctrl+f to expand)");
    let full = FallbackComponent::body_lines(&blob, "because", true);
    assert_eq!(full.len(), 26);
    assert_eq!(full[25], "because");
    assert_eq!(FallbackComponent::title_text("mcp_tool"), "Allow mcp_tool");
    assert_eq!(FallbackComponent.icon(), "⊘");
}

fn edit_title(input_pretty: &str) -> String {
    let path = FileEditComponent::edit_path(None, input_pretty);
    FileEditComponent.title(&path, None).iter().map(|s| s.text.as_str()).collect()
}

#[test]
fn title_uses_the_basename_and_shows_the_path() {
    let path = FileEditComponent::edit_path(None, r#"{"file_path":"/tmp/proj/src/lib.rs"}"#);
    assert_eq!(path, "/tmp/proj/src/lib.rs");
    let title = edit_title(r#"{"file_path":"/tmp/proj/src/lib.rs"}"#);
    assert!(title.starts_with("Make this edit to lib.rs"), "title: {title}");
    assert!(title.contains("lib.rs"), "path missing: {title}");
    assert_eq!(title, "Make this edit to lib.rs  /tmp/proj/src/lib.rs");
    let segs = FileEditComponent.title("/tmp/proj/src/lib.rs", Some("/tmp/proj"));
    assert_eq!(segs[1].text, "  src/lib.rs");
    assert_eq!(segs[1].tone, Tone::Dim);
    assert!(segs[0].bold);
}

#[test]
fn cwd_relative_falls_back_to_the_path() {
    assert_eq!(cwd_relative("/a/b/c.rs", Some("/a")), "b/c.rs");
    assert_eq!(cwd_relative("/a/b/c.rs", Some("/x")), "/a/b/c.rs");
    assert_eq!(cwd_relative("/a", Some("/a")), "/a");
    assert_eq!(cwd_relative("/ab/c", Some("/a")), "/ab/c");
    assert_eq!(cwd_relative("rel.rs", None), "rel.rs");
}

#[test]
fn title_falls_back_to_file_for_an_empty_path() {
    let title = edit_title("{}");
    assert!(title.starts_with("Make this edit to file"), "title: {title}");
}

#[test]
fn edit_path_prefers_the_preview_path() {
    assert_eq!(FileEditComponent::edit_path(Some("a.rs"), r#"{"file_path":"b.rs"}"#), "a.rs");
    assert_eq!(FileEditComponent::edit_path(Some(""), r#"{"file_path":"b.rs"}"#), "b.rs");
    assert_eq!(FileEditComponent::edit_path(None, "not json"), "");
}

#[test]
fn body_renders_the_diff_when_a_preview_is_present() {
    let body = FileEditComponent::body(Some(("fn a() {}\n", "fn a() {}\nfn b() {}\n")), false);
    assert!(!body.is_empty(), "diff body should render lines");
    let joined = body.join("\n");
    assert!(joined.contains("fn b()"), "added content missing: {joined}");
    assert_eq!(body, vec!["  fn a() {}".to_string(), "+ fn b() {}".to_string()]);
}

#[test]
fn body_clamps_a_long_diff_and_appends_the_tail() {
    let new: String = (0..40).map(|i| format!("line {i}\n")).collect();
    let body = FileEditComponent::body(Some(("", &new)), false);
    assert_eq!(body.len(), EDIT_CLAMP + 1, "should clamp to {EDIT_CLAMP} + tail");
    let tail = body.last().unwrap();
    assert!(tail.contains("more lines"), "clamp tail: {tail}");
    assert!(tail.contains("ctrl+f"), "expand affordance: {tail}");
    assert_eq!(tail, "… (28 more lines · ctrl+f to expand)");
}

#[test]
fn body_does_not_clamp_a_long_diff_when_expanded() {
    let new: String = (0..40).map(|i| format!("line {i}\n")).collect();
    let body = FileEditComponent::body(Some(("", &new)), true);
    assert!(body.len() > EDIT_CLAMP, "expanded body should exceed {EDIT_CLAMP}, got {}", body.len());
    let joined = body.join("\n");
    assert!(!joined.contains("more lines"), "expanded body must not append a clamp tail: {joined}");
}

#[test]
fn keys_show_collapse_when_expanded() {
    let keys = FileEditComponent.keys_text(true, true);
    assert!(keys.contains("ctrl+f"), "keys: {keys}");
    assert!(keys.contains("collapse"), "collapse hint missing: {keys}");
    assert!(!keys.contains("expand"), "should not offer expand: {keys}");
}

#[test]
fn body_shows_no_preview_note_without_a_diff() {
    let body = FileEditComponent::body(None, false);
    assert_eq!(body.len(), 1);
    assert!(body[0].contains("no preview"), "expected no-preview note");
}

#[test]
fn keys_offer_approve_deny_and_ctrl_f_expand() {
    let keys = FileEditComponent.keys_text(true, false);
    assert!(keys.contains("approve"), "keys: {keys}");
    assert!(keys.contains("deny"), "keys: {keys}");
    assert!(keys.contains("ctrl+f"), "expand key missing: {keys}");
}

#[test]
fn keys_hide_always_when_the_gate_is_closed() {
    let keys = FileEditComponent.keys_text(false, false);
    assert!(!keys.contains("always"), "always must be hidden: {keys}");
}

#[test]
fn fileedit_default_action_is_approve_once() {
    assert_eq!(FileEditComponent.default_action(), ApprovalAction::ApproveOnce);
}

fn monitor_title(input_pretty: &str, summary: &str) -> String {
    MonitorComponent::title_text(&MonitorComponent::target(input_pretty, summary))
}

#[test]
fn title_carries_the_target_from_args() {
    assert_eq!(monitor_title(r#"{"target":"build.log"}"#, ""), "Monitor build.log");
}

#[test]
fn title_falls_back_to_summary_when_no_target_field() {
    assert_eq!(monitor_title("not json", "deploy pipeline"), "Monitor deploy pipeline");
}

#[test]
fn title_degrades_gracefully_when_empty() {
    assert_eq!(monitor_title("not json", ""), "Monitor");
}

#[test]
fn body_shows_target_and_cadence() {
    let body = MonitorComponent::body(r#"{"target":"build.log","cadence":"every 30s"}"#, "");
    assert_eq!(body.len(), 2);
    assert_eq!(body[0].text, "build.log");
    assert_eq!(body[1].text, "every 30s");
    assert_eq!(body[1].tone, Tone::Muted);
}

#[test]
fn body_omits_a_missing_cadence() {
    let body = MonitorComponent::body(r#"{"target":"pid 4242"}"#, "");
    assert_eq!(body.len(), 1);
    assert_eq!(body[0].text, "pid 4242");
}

#[test]
fn keys_offer_approve_always_deny_and_cancel() {
    let keys = MonitorComponent.keys_text();
    assert!(keys.contains("approve"));
    assert!(keys.contains("always"));
    assert!(keys.contains("deny"));
    assert!(keys.contains("cancel"));
}

#[test]
fn monitor_default_action_is_approve_once() {
    assert_eq!(MonitorComponent.default_action(), ApprovalAction::ApproveOnce);
}

#[test]
fn fallback_title_names_the_unknown_tool() {
    assert_eq!(FallbackComponent::title_text("mcp__foo__bar"), "Allow mcp__foo__bar");
}

fn fifty_lines() -> String {
    (0..50).map(|i| format!("line {i}")).collect::<Vec<_>>().join("\n")
}

#[test]
fn fallback_clamps_a_huge_arg_blob_and_never_dumps_raw() {
    let body = FallbackComponent::body_lines(&fifty_lines(), "", false);
    assert_eq!(body.len(), 11);
    let tail = body.last().unwrap();
    assert!(tail.contains("40 more lines"), "expected clamp tail: {tail}");
    assert!(tail.contains("ctrl+f"), "expected expand affordance: {tail}");
}

#[test]
fn fallback_does_not_clamp_when_expanded() {
    let body = FallbackComponent::body_lines(&fifty_lines(), "", true);
    assert_eq!(body.len(), 50, "expanded body should show all rows");
    let joined = body.join("\n");
    assert!(!joined.contains("more lines"), "expanded body must not append a clamp tail: {joined}");
}

#[test]
fn fallback_keys_show_collapse_when_expanded() {
    let keys = FallbackComponent.keys_text(true);
    assert!(keys.contains("ctrl+f"), "keys: {keys}");
    assert!(keys.contains("collapse"), "collapse hint missing: {keys}");
    assert!(!keys.contains("expand"), "should not offer expand: {keys}");
}

#[test]
fn fallback_appends_reason_when_present() {
    let body = FallbackComponent::body_lines("{\"x\":1}", "needs network egress", false);
    let joined = body.join("\n");
    assert!(joined.contains("needs network egress"), "reason missing: {joined}");
}

#[test]
fn fallback_keys_offer_approve_deny_and_always() {
    let keys = FallbackComponent.keys_text(false);
    assert!(keys.contains("approve"));
    assert!(keys.contains("always"));
    assert!(keys.contains("deny"));
    assert!(keys.contains("cancel"));
}

#[test]
fn clamp_lines_keeps_short_bodies_whole() {
    let short = vec!["a".to_string(), "b".to_string()];
    assert_eq!(clamp_lines(short.clone(), 12, false), short);
    let long: Vec<String> = (0..5).map(|i| i.to_string()).collect();
    assert_eq!(
        clamp_lines(long, 3, false),
        vec!["0".to_string(), "1".to_string(), "2".to_string(), "… (2 more lines · ctrl+f to expand)".to_string()]
    );
}
