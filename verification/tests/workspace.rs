use wcore::checkpoint::{
    order_newest_first,
    blob_name, capture_entries, checkpoint_id, dedupe_paths, id_prefix, next_seq,
    path_lexically_confined, restore_plan, CheckpointMeta, CheckpointStore, FileEntry,
    RestoreAction,
};
use wcore::plugin::{
    installed_by_name, not_installed, remove_target,
    install_from_registry, install_via_resolver, validate_plugin_name, PluginError,
    PluginManifest, Registry,
};
use wcore::statusline::{sanitize_status_output, StatusLineCache};

#[test]
fn sanitize_strips_escapes_and_keeps_one_line() {
    let dirty = "ok\x1b[31mred\x07\nsecond line";
    assert_eq!(sanitize_status_output(dirty), "ok[31mred");
}

#[test]
fn sanitize_drops_csi_and_bel_and_tabs() {
    let dirty = "a\u{9b}b\x07\tc";
    assert_eq!(sanitize_status_output(dirty), "abc");
}

#[test]
fn sanitize_handles_empty_and_blank() {
    assert_eq!(sanitize_status_output(""), "");
    assert_eq!(sanitize_status_output("\n\nlater"), "");
}

#[test]
fn status_cache_keeps_the_last_published_line() {
    let mut c = StatusLineCache::new();
    assert!(c.line.is_none());
    c.publish("main ✓".to_string(), 7);
    assert_eq!(c.line.as_deref(), Some("main ✓"));
    assert_eq!(c.updated_at, Some(7));
}

#[test]
fn checkpoint_ids_with_distinct_counters_never_collide() {
    let a = checkpoint_id(1_700_000_000, 0, 7);
    let b = checkpoint_id(1_700_000_000, 0, 8);
    assert_ne!(a, b);
    assert_eq!(a.0, "00000000001700000000-0000-0000000007");
    assert_eq!(checkpoint_id(1_700_000_000, 0, 7), a);
    assert!(checkpoint_id(9, 0, 0) < checkpoint_id(10, 0, 0));
}

#[test]
fn checkpoint_ids_sort_chronologically() {
    let id = checkpoint_id(1_700_000_000, 2, 15);
    assert_eq!(id.0, "00000000001700000000-0002-0000000015");
    assert!(checkpoint_id(5, 0, 0) < checkpoint_id(6, 0, 0));
    assert!(checkpoint_id(5, 1, 0) < checkpoint_id(5, 2, 0));
    assert_eq!(id_prefix(3), "00000000000000000003-");
    let names = vec![
        "00000000000000000003-0000-0000000000".to_string(),
        "00000000000000000003-0001-0000000001".to_string(),
        "00000000000000000004-0000-0000000002".to_string(),
    ];
    assert_eq!(next_seq(&names, 3), 2);
    assert_eq!(next_seq(&names, 5), 0);
    assert_eq!(blob_name(7), "0007");
    assert_eq!(blob_name(12345), "12345");
}

#[test]
fn capture_dedupes_and_confines_paths() {
    let paths = vec!["/w/a".to_string(), "/w/b".to_string(), "/w/a".to_string(), "/etc/x".to_string()];
    let unique = dedupe_paths(&paths);
    assert_eq!(unique, vec!["/w/a".to_string(), "/w/b".to_string(), "/etc/x".to_string()]);
    let entries = capture_entries(&unique, &vec![true, true, false], &vec![true, false, true]);
    assert_eq!(
        entries,
        vec![
            FileEntry { path: "/w/a".to_string(), blob: Some("0000".to_string()) },
            FileEntry { path: "/w/b".to_string(), blob: None },
        ]
    );
    let meta = CheckpointMeta::new(checkpoint_id(1, 0, 0), "turn".to_string(), 1, entries);
    assert_eq!(meta.file_count(), 2);
    assert_eq!(meta.paths(), vec!["/w/a", "/w/b"]);
    let plan = restore_plan(&meta, &vec![true, true]);
    assert_eq!(
        plan,
        vec![
            RestoreAction::Write { path: "/w/a".to_string(), blob: "0000".to_string() },
            RestoreAction::Delete { path: "/w/b".to_string() },
        ]
    );
    assert_eq!(restore_plan(&meta, &vec![false, true]).len(), 1);
}

#[test]
fn path_within_root_rejects_relative_and_parent_paths() {
    assert!(!path_lexically_confined("relative/file"));
    assert!(!path_lexically_confined("/w/../etc/passwd"));
    assert!(path_lexically_confined("/w/src/main.rs"));
    let mut store = CheckpointStore::new("/tmp/cp".to_string(), "/w".to_string());
    assert_eq!(store.root(), "/tmp/cp");
    assert_eq!(store.workspace_root(), "/w");
    assert_eq!(store.next_unique(), 0);
    assert_eq!(store.next_unique(), 1);
}

fn manifest(name: &str, version: &str) -> PluginManifest {
    PluginManifest {
        name: name.to_string(),
        version: version.to_string(),
        requires_sandbox: false,
        description: String::new(),
        dependencies: Vec::new(),
    }
}

#[test]
fn registry_lists_by_name_and_last_wins() {
    let reg = Registry::from_manifests(vec![
        manifest("zeta", "1"),
        manifest("alpha", "1"),
        manifest("mid", "1"),
        manifest("alpha", "2"),
    ]);
    let names: Vec<(&str, &str)> = reg
        .list_available()
        .iter()
        .map(|m| (m.name.as_str(), m.version.as_str()))
        .collect();
    assert_eq!(names, vec![("alpha", "2"), ("mid", "1"), ("zeta", "1")]);
    assert_eq!(reg.get("mid").unwrap().version, "1");
    assert_eq!(reg.get("nope").unwrap_err(), PluginError::NotInRegistry("nope".to_string()));
}

#[test]
fn install_validates_the_name_and_names_the_record() {
    assert!(validate_plugin_name("good-name2").is_ok());
    assert_eq!(
        validate_plugin_name("Bad"),
        Err(PluginError::InvalidName("Bad".to_string()))
    );
    assert!(validate_plugin_name("2x").is_err());
    assert!(validate_plugin_name("").is_err());
    assert!(validate_plugin_name("a/../b").is_err());
    let reg = Registry::from_manifests(vec![manifest("tool", "1")]);
    let (file, m) = install_from_registry(&reg, "tool").unwrap();
    assert_eq!(file, "tool.json");
    assert_eq!(m.version, "1");
    assert_eq!(
        install_from_registry(&reg, "other").unwrap_err(),
        PluginError::NotInRegistry("other".to_string())
    );
    assert_eq!(
        install_from_registry(&reg, "../x").unwrap_err(),
        PluginError::InvalidName("../x".to_string())
    );
    assert_eq!(install_via_resolver(&manifest("ok", "1")).unwrap(), "ok.json");
    assert!(install_via_resolver(&manifest("Not Ok", "1")).is_err());
}

#[test]
fn listing_orders_checkpoints_newest_first() {
    let meta = |created_at: u64, seq: u32, label: &str| {
        CheckpointMeta::new(checkpoint_id(created_at, seq, 0), label.to_string(), created_at, Vec::new())
    };
    let listed = order_newest_first(vec![meta(100, 0, "a"), meta(300, 0, "c"), meta(200, 0, "b"), meta(300, 1, "d")]);
    let labels: Vec<&str> = listed.iter().map(|m| m.label.as_str()).collect();
    assert_eq!(labels, vec!["d", "c", "b", "a"]);
    assert!(order_newest_first(Vec::new()).is_empty());
}

#[test]
fn removal_checks_the_name_and_names_the_record() {
    assert_eq!(remove_target("my-plugin"), Ok("my-plugin.json".to_string()));
    assert_eq!(remove_target("../evil"), Err(PluginError::InvalidName("../evil".to_string())));
    assert_eq!(not_installed("ghost"), PluginError::NotInstalled("ghost".to_string()));
}

#[test]
fn installed_plugins_list_by_name() {
    let listed = installed_by_name(vec![manifest("zeta", "1"), manifest("alpha", "2"), manifest("mid", "3")]);
    let names: Vec<&str> = listed.iter().map(|m| m.name.as_str()).collect();
    assert_eq!(names, vec!["alpha", "mid", "zeta"]);
}

#[test]
fn dedupe_compares_paths_component_by_component() {
    let paths = vec![
        "/w/a/b".to_string(),
        "/w/a//b".to_string(),
        "/w/./a/b/".to_string(),
        "/w/a/c".to_string(),
    ];
    assert_eq!(dedupe_paths(&paths), vec!["/w/a/b".to_string(), "/w/a/c".to_string()]);
}

#[test]
fn equal_ids_and_names_keep_their_order_when_listed() {
    let meta = |created_at: u64, label: &str| {
        CheckpointMeta::new(checkpoint_id(created_at, 0, 0), label.to_string(), created_at, Vec::new())
    };
    let listed = order_newest_first(vec![meta(1, "first"), meta(2, "newer"), meta(1, "second"), meta(1, "third")]);
    let labels: Vec<&str> = listed.iter().map(|m| m.label.as_str()).collect();
    assert_eq!(labels, vec!["newer", "first", "second", "third"]);
    let plugins = installed_by_name(vec![manifest("b", "1"), manifest("a", "1"), manifest("b", "2"), manifest("a", "2")]);
    let pairs: Vec<(&str, &str)> = plugins.iter().map(|m| (m.name.as_str(), m.version.as_str())).collect();
    assert_eq!(pairs, vec![("a", "1"), ("a", "2"), ("b", "1"), ("b", "2")]);
}
