use wcore::agents::glow::GlowFader;
use wcore::agents::model::{OnboardingState, SubAgentStatus, SubAgentView};
use wcore::agents::strip::{
    format_duration, topology_label, truncate_name, AgentStrip, StripCounts, StripLayout,
};
use wcore::agents::surface::{
    card, empty_state, hint_segments, status_label, summary_segments, SubAgentsSurface,
    SurfaceAction, SurfaceId, SurfaceKey,
};
use wcore::segment::Segment;
use wcore::segment::Tone;

fn sub(name: &str, status: SubAgentStatus) -> SubAgentView {
    SubAgentView {
        id: name.into(),
        name: name.into(),
        status,
        turns: 0,
        tokens: 0,
        feed: Vec::new(),
    }
}

const SEC: u64 = 1_000;

#[test]
fn record_terminal_is_idempotent_overwrites_timestamp_v093() {
    let mut glow = GlowFader::new();
    let t0 = 100 * SEC;
    glow.record_terminal("a".into(), t0);
    let t1 = t0 + 5 * SEC;
    glow.record_terminal("a".into(), t1);
    assert_eq!(glow.len(), 1);
    assert_eq!(glow.terminal_at("a"), Some(t1));
}

#[test]
fn any_active_true_while_entry_within_window_v093() {
    let mut glow = GlowFader::new();
    let t0 = 100 * SEC;
    glow.record_terminal("a".into(), t0);
    assert!(glow.any_active(t0));
    assert!(glow.any_active(t0 + 29 * SEC));
    assert!(!glow.any_active(t0 + 30 * SEC));
    assert!(!glow.any_active(t0 + 60 * SEC));
}

#[test]
fn any_active_false_when_empty_v093() {
    let glow = GlowFader::new();
    assert!(!glow.any_active(42 * SEC));
}

#[test]
fn prune_drops_expired_entries_v093() {
    let mut glow = GlowFader::new();
    let t0 = 100 * SEC;
    glow.record_terminal("old".into(), t0);
    glow.record_terminal("new".into(), t0 + 20 * SEC);
    glow.prune(t0 + 31 * SEC);
    assert_eq!(glow.len(), 1);
    assert!(glow.terminal_at("new").is_some());
}

#[test]
fn prune_returns_true_only_on_last_drop_v093() {
    let mut glow = GlowFader::new();
    let t0 = 100 * SEC;
    glow.record_terminal("a".into(), t0);
    glow.record_terminal("b".into(), t0 + 10 * SEC);
    assert!(!glow.prune(t0 + 5 * SEC));
    assert!(!glow.prune(t0 + 31 * SEC));
    assert_eq!(glow.len(), 1);
    assert!(glow.prune(t0 + 41 * SEC));
    assert_eq!(glow.len(), 0);
    assert!(!glow.prune(t0 + 50 * SEC));
}

#[test]
fn glow_records_then_prunes_after_30s_v093() {
    let mut glow = GlowFader::new();
    let t0 = 100 * SEC;
    glow.record_terminal("a".into(), t0);
    assert!(glow.any_active(t0));
    assert!(!glow.prune(t0 + 29 * SEC));
    assert!(glow.any_active(t0 + 29 * SEC));
    assert!(glow.prune(t0 + 30 * SEC + 1));
    assert!(!glow.any_active(t0 + 31 * SEC));
}

#[test]
fn strip_counts_by_status_excludes_stale_from_running_v093() {
    let agents = vec![
        sub("a", SubAgentStatus::Running),
        sub("b", SubAgentStatus::Running),
        sub("c", SubAgentStatus::Done),
        sub("d", SubAgentStatus::Failed),
    ];
    let now = 2_000 * SEC;
    let events = vec![
        ("a".to_string(), now),
        ("b".to_string(), now - 11 * 60 * SEC),
        ("c".to_string(), now),
        ("d".to_string(), now),
    ];
    let counts = AgentStrip::count_by_status(&agents, &events, now);
    assert_eq!(counts.running, 1, "stale running excluded");
    assert_eq!(counts.stale, 1);
    assert_eq!(counts.done, 1);
    assert_eq!(counts.failed, 1);
}

#[test]
fn should_render_caches_per_tick_v093() {
    let mut strip = AgentStrip::new();
    let glow = GlowFader::new();
    let mut agents: Vec<SubAgentView> = Vec::new();
    assert!(!strip.should_render(&agents, &glow, 0, 1));
    agents.push(sub("a", SubAgentStatus::Running));
    assert!(strip.should_render(&agents, &glow, 0, 2));
    agents.clear();
    assert!(strip.should_render(&agents, &glow, 0, 2), "tick=2 must hit cache");
    assert!(!strip.should_render(&agents, &glow, 0, 3));
}

#[test]
fn count_by_status_with_no_event_treats_running_as_fresh() {
    let agents = vec![sub("a", SubAgentStatus::Running)];
    let counts = AgentStrip::count_by_status(&agents, &[], 5 * SEC);
    assert_eq!(counts.running, 1);
    assert_eq!(counts.stale, 0);
    assert_eq!(
        counts,
        StripCounts { running: 1, done: 0, failed: 0, stale: 0 }
    );
}

#[test]
fn topology_label_buckets_correctly() {
    assert_eq!(topology_label(0), "Spawn");
    assert_eq!(topology_label(5), "Spawn");
    assert_eq!(topology_label(6), "Swarm");
    assert_eq!(topology_label(20), "Swarm");
    assert_eq!(topology_label(21), "Mesh");
    assert_eq!(topology_label(50), "Mesh");
    assert_eq!(topology_label(51), "Fleet");
    assert_eq!(topology_label(100), "Fleet");
}

#[test]
fn format_duration_matches_ux_l4() {
    assert_eq!(format_duration(0), "0s");
    assert_eq!(format_duration(59), "59s");
    assert_eq!(format_duration(60), "1m0s");
    assert_eq!(format_duration(125), "2m5s");
    assert_eq!(format_duration(3599), "59m59s");
    assert_eq!(format_duration(3600), "1h0m");
    assert_eq!(format_duration(7325), "2h2m");
}

#[test]
fn truncate_name_truncates_long_names_with_ellipsis() {
    assert_eq!(truncate_name("short", 24), "short");
    assert_eq!(
        truncate_name("this-name-is-way-too-long-for-a-row", 24),
        "this-name-is-way-too-lo…"
    );
    assert_eq!(
        truncate_name("aaaaaaaaaaaaaaaaaaaaaaaa", 24),
        "aaaaaaaaaaaaaaaaaaaaaaaa"
    );
}

#[test]
fn last_terminal_agent_returns_the_most_recent_terminal() {
    let agents = vec![
        sub("a", SubAgentStatus::Done),
        sub("b", SubAgentStatus::Failed),
        sub("c", SubAgentStatus::Running),
    ];
    let now = 1_000 * SEC;
    let events = vec![
        ("a".to_string(), now - 10 * SEC),
        ("b".to_string(), now - 3 * SEC),
        ("c".to_string(), now),
    ];
    let (i, t) = AgentStrip::last_terminal_agent(&agents, &events).expect("a terminal exists");
    assert_eq!(agents[i].id, "b", "most recent terminal is 'b'");
    assert_eq!(t, now - 3 * SEC);
}

fn row_text(l: &StripLayout) -> String {
    l.left.iter().chain(l.right.iter()).map(|s| s.text.as_str()).collect()
}

fn onboarding_past(now: u64) -> OnboardingState {
    OnboardingState { first_spawn_seen: Some(now - 60 * SEC) }
}

#[test]
fn render_steady_state_shows_topology_and_running_count() {
    let now = 1_000 * SEC;
    let agents = vec![sub("alpha", SubAgentStatus::Running), sub("beta", SubAgentStatus::Done)];
    let events = vec![("alpha".to_string(), now), ("beta".to_string(), now)];
    let mut strip = AgentStrip::new();
    let l = strip.layout(&agents, &events, &onboarding_past(now), now, false, 100, 1).unwrap();
    let text = row_text(&l);
    assert!(text.contains("Spawn"), "{text}");
    assert!(text.contains("1 running"), "{text}");
    assert!(text.contains("1 done"), "{text}");
    assert!(text.contains("last:"), "{text}");
    assert!(text.contains("⌥A"), "{text}");
    assert_eq!(l.right_width, 7);
    assert_eq!(l.left_width, 93);
    assert_eq!(l.left[0].text, "  ");
}

#[test]
fn render_promotes_failed_count_to_first_position() {
    let now = 1_000 * SEC;
    let agents = vec![sub("alpha", SubAgentStatus::Running), sub("beta", SubAgentStatus::Failed)];
    let events = vec![("alpha".to_string(), now), ("beta".to_string(), now)];
    let mut strip = AgentStrip::new();
    let l = strip.layout(&agents, &events, &onboarding_past(now), now, false, 100, 1).unwrap();
    let text = row_text(&l);
    let failed_idx = text.find("failed").expect("'failed' substring");
    let running_idx = text.find("running").expect("'running' substring");
    assert!(failed_idx < running_idx, "{text}");
    assert!(text.contains("⚠"), "{text}");
    assert!(l.left.iter().any(|s| s.tone == Tone::Error));
}

#[test]
fn render_spawning_state_shows_spawning_label() {
    let now = 1_000 * SEC;
    let agents = vec![sub("alpha", SubAgentStatus::Running), sub("beta", SubAgentStatus::Running)];
    let events = vec![("alpha".to_string(), now), ("beta".to_string(), now)];
    let mut strip = AgentStrip::new();
    let l = strip.layout(&agents, &events, &onboarding_past(now), now, true, 100, 1).unwrap();
    let text = row_text(&l);
    assert!(text.contains("spawning"), "{text}");
    assert!(text.contains("2"), "{text}");
    assert!(text.contains("…"), "{text}");
    assert!(text.contains("⌥A"), "{text}");
    assert!(!text.contains("open agent list"), "{text}");
    assert!(l.left.iter().any(|s| s.text == "2" && s.bold && s.tone == Tone::Orange));
}

#[test]
fn render_all_done_state_shows_completed_in_duration() {
    let now = 1_000 * SEC;
    let agents = vec![sub("alpha", SubAgentStatus::Done), sub("beta", SubAgentStatus::Done)];
    let events = vec![("alpha".to_string(), now - 5 * SEC), ("beta".to_string(), now - 5 * SEC)];
    let mut strip = AgentStrip::new();
    let l = strip.layout(&agents, &events, &onboarding_past(now), now, false, 100, 1).unwrap();
    let text = row_text(&l);
    assert!(text.contains("2 done"), "{text}");
    assert!(text.contains("completed in"), "{text}");
    assert!(text.contains("5s"), "{text}");
}

#[test]
fn render_first_spawn_shows_expanded_hint() {
    let now = 1_000 * SEC;
    let agents = vec![sub("alpha", SubAgentStatus::Running)];
    let events = vec![("alpha".to_string(), now)];
    let mut strip = AgentStrip::new();
    let onboarding = OnboardingState { first_spawn_seen: Some(now) };
    let l = strip.layout(&agents, &events, &onboarding, now, false, 100, 1).unwrap();
    let text = row_text(&l);
    assert!(text.contains("open agent list"), "{text}");
    assert!(text.contains("⏎"), "{text}");
    assert!(text.contains("⎋"), "{text}");
    assert_eq!(l.right_width, 38);
}

#[test]
fn render_zero_area_is_a_no_op() {
    let mut strip = AgentStrip::new();
    assert!(strip.layout(&[], &[], &OnboardingState::default(), 0, false, 80, 0).is_none());
    assert!(strip.layout(&[], &[], &OnboardingState::default(), 0, false, 0, 1).is_none());
}

#[test]
fn failed_flash_fires_only_on_zero_to_one_transition() {
    let now = 1_000 * SEC;
    let mut agents = vec![sub("alpha", SubAgentStatus::Running)];
    let mut events = vec![("alpha".to_string(), now)];
    let onboarding = onboarding_past(now);
    let mut strip = AgentStrip::new();
    let l = strip.layout(&agents, &events, &onboarding, now, false, 80, 1).unwrap();
    assert!(strip.failed_flash_at.is_none());
    assert!(!l.flash);
    agents.push(sub("beta", SubAgentStatus::Failed));
    events.push(("beta".to_string(), now + 10));
    let l = strip.layout(&agents, &events, &onboarding, now + 10, false, 80, 1).unwrap();
    assert_eq!(strip.failed_flash_at, Some(now + 10));
    assert!(l.flash);
    let l = strip.layout(&agents, &events, &onboarding, now + 400, false, 80, 1).unwrap();
    assert_eq!(strip.failed_flash_at, Some(now + 10), "K=1→K=1 must not re-arm the flash");
    assert!(!l.flash, "the flash lasts 250 ms");
}

fn agent(name: &str, status: SubAgentStatus, turns: usize, tokens: u64) -> SubAgentView {
    SubAgentView {
        id: format!("spawn:{name}"),
        name: name.into(),
        status,
        turns,
        tokens,
        feed: vec![
            format!("{name} started"),
            format!("{name} reading files"),
            format!("{name} latest action"),
        ],
    }
}

#[test]
fn id_is_sub_agents() {
    assert_eq!(SubAgentsSurface::new().id(), SurfaceId::SubAgents);
}

#[test]
fn arrows_move_the_selection_and_wrap() {
    let mut surface = SubAgentsSurface::new();
    assert_eq!(surface.handle_key(SurfaceKey::Down, 4), SurfaceAction::Idle);
    assert_eq!(surface.selected, 1);
    surface.handle_key(SurfaceKey::Down, 4);
    surface.handle_key(SurfaceKey::Char('j'), 4);
    assert_eq!(surface.selected, 3);
    surface.handle_key(SurfaceKey::Down, 4);
    assert_eq!(surface.selected, 0);
    surface.handle_key(SurfaceKey::Up, 4);
    assert_eq!(surface.selected, 3);
    surface.handle_key(SurfaceKey::Char('k'), 4);
    assert_eq!(surface.selected, 2);
}

#[test]
fn enter_and_esc_toggle_the_feed() {
    let mut surface = SubAgentsSurface::new();
    surface.handle_key(SurfaceKey::Enter, 4);
    assert_eq!(surface.expanded, Some(0));
    surface.handle_key(SurfaceKey::Enter, 4);
    assert_eq!(surface.expanded, None);
    surface.handle_key(SurfaceKey::Enter, 4);
    assert_eq!(surface.handle_key(SurfaceKey::Esc, 4), SurfaceAction::Idle);
    assert_eq!(surface.expanded, None);
    assert_eq!(surface.handle_key(SurfaceKey::Esc, 4), SurfaceAction::CloseOverlay);
}

#[test]
fn routing_keys_return_their_actions() {
    let mut surface = SubAgentsSurface::new();
    assert_eq!(surface.handle_key(SurfaceKey::Char('q'), 4), SurfaceAction::Quit);
    assert_eq!(
        surface.handle_key(SurfaceKey::Char('p'), 4),
        SurfaceAction::OpenOverlay(SurfaceId::Palette)
    );
    assert_eq!(surface.handle_key(SurfaceKey::Tab, 4), SurfaceAction::Switch(SurfaceId::PlanReview));
    assert_eq!(surface.handle_key(SurfaceKey::BackTab, 4), SurfaceAction::Switch(SurfaceId::Workspace));
}

#[test]
fn keys_on_an_empty_list_are_inert_and_safe() {
    let mut surface = SubAgentsSurface::new();
    assert_eq!(surface.handle_key(SurfaceKey::Down, 0), SurfaceAction::Idle);
    assert_eq!(surface.selected, 0);
    assert_eq!(surface.handle_key(SurfaceKey::Enter, 0), SurfaceAction::Idle);
    assert_eq!(surface.expanded, None);
    assert_eq!(surface.clamped_selection(0), 0);
}

#[test]
fn summary_and_cards_show_the_honest_counts() {
    let agents = vec![
        agent("scout", SubAgentStatus::Running, 6, 31_200),
        agent("mason", SubAgentStatus::Running, 9, 27_400),
        agent("probe", SubAgentStatus::Running, 3, 9_800),
        agent("scribe", SubAgentStatus::Done, 8, 12_000),
    ];
    let bar: String = summary_segments(&agents).iter().map(|s| s.text.as_str()).collect();
    assert!(bar.contains("4 spawned"), "{bar}");
    assert!(bar.contains("3 running"), "{bar}");
    assert!(bar.contains("1 done"), "{bar}");
    assert!(!bar.contains("failed"), "{bar}");
    assert_eq!(status_label(SubAgentStatus::Failed), "FAILED");
    let c = card(&agents[0], "31.2k tokens", true, false, 2);
    assert_eq!(c.border, Tone::Orange);
    let header: String = c.lines[0].iter().map(|s| s.text.as_str()).collect();
    assert_eq!(header, "● scout   RUNNING   turn 6 · 31.2k tokens");
    let sub: String = c.lines[1].iter().map(|s| s.text.as_str()).collect();
    assert_eq!(sub, "  scout latest action");
    assert_eq!(c.lines.len(), 2);
    let open = card(&agents[0], "31.2k tokens", false, true, 8);
    assert_eq!(open.border, Tone::Border);
    assert_eq!(open.lines.len(), 2 + 1 + 3);
    let tight = card(&agents[0], "x", false, true, 3);
    assert_eq!(tight.lines.len(), 2 + 1 + 1);
    let last: String = tight.lines[3].iter().map(|s| s.text.as_str()).collect();
    assert_eq!(last, "  scout latest action");
}

fn three_running_one_done() -> Vec<SubAgentView> {
    vec![
        agent("scout", SubAgentStatus::Running, 6, 31_200),
        agent("mason", SubAgentStatus::Running, 9, 27_400),
        agent("probe", SubAgentStatus::Running, 3, 9_800),
        agent("scribe", SubAgentStatus::Done, 8, 12_000),
    ]
}

fn tokens_label(tokens: u64) -> String {
    format!("{:.1}k tokens", tokens as f64 / 1000.0)
}

fn row(segs: &[Segment]) -> String {
    segs.iter().map(|s| s.text.as_str()).collect()
}

/// The text the surface draws for `agents`: the summary bar, then each
/// card (or the empty state), then the key hints.
fn screen(surface: &SubAgentsSurface, agents: &[SubAgentView], inner_height: u16) -> String {
    let mut out = row(&summary_segments(agents));
    out.push('\n');
    if agents.is_empty() {
        for r in empty_state() {
            out.push_str(&row(&r));
            out.push('\n');
        }
    } else {
        let sel = surface.clamped_selection(agents.len());
        for (i, a) in agents.iter().enumerate() {
            let c = card(a, &tokens_label(a.tokens), i == sel, surface.expanded == Some(i), inner_height);
            for r in &c.lines {
                out.push_str(&row(r));
                out.push('\n');
            }
        }
    }
    out.push_str(&row(&hint_segments()));
    out
}

#[test]
fn renders_three_running_one_done_summary() {
    let out = screen(&SubAgentsSurface::new(), &three_running_one_done(), 6);
    assert!(out.contains("4 spawned"), "total missing:\n{out}");
    assert!(out.contains("3 running"), "running tally missing:\n{out}");
    assert!(out.contains("1 done"), "done tally missing:\n{out}");
}

#[test]
fn renders_every_sub_agent_name_and_status() {
    let out = screen(&SubAgentsSurface::new(), &three_running_one_done(), 6);
    for name in ["scout", "mason", "probe", "scribe"] {
        assert!(out.contains(name), "card for `{name}` missing:\n{out}");
    }
    assert!(out.contains("RUNNING"), "running status missing:\n{out}");
    assert!(out.contains("DONE"), "done status missing:\n{out}");
}

#[test]
fn renders_turn_and_token_counts() {
    let out = screen(&SubAgentsSurface::new(), &three_running_one_done(), 6);
    assert!(out.contains("turn 6"), "turn count missing:\n{out}");
    assert!(out.contains("31.2k tokens"), "token count missing:\n{out}");
}

#[test]
fn honest_surface_shows_no_invented_affordances() {
    let out = screen(&SubAgentsSurface::new(), &three_running_one_done(), 6).to_lowercase();
    for forbidden in ["%", "blocked", "+spawn", "spawn agent", "auto-merge", "merge"] {
        assert!(!out.contains(forbidden), "forbidden affordance `{forbidden}` rendered:\n{out}");
    }
}

#[test]
fn enter_expands_the_selected_feed() {
    let agents = three_running_one_done();
    let mut surface = SubAgentsSurface::new();
    let collapsed = screen(&surface, &agents, 6);
    assert!(!collapsed.contains("LIVE FEED"), "feed shown before expand:\n{collapsed}");
    let action = surface.handle_key(SurfaceKey::Enter, agents.len());
    assert_eq!(action, SurfaceAction::Idle);
    let expanded = screen(&surface, &agents, 6);
    assert!(expanded.contains("LIVE FEED"), "feed not shown after expand:\n{expanded}");
    assert!(expanded.contains("scout latest action"), "feed line missing after expand:\n{expanded}");
}

#[test]
fn enter_toggles_the_feed_back_closed() {
    let mut surface = SubAgentsSurface::new();
    surface.handle_key(SurfaceKey::Enter, 4);
    assert_eq!(surface.expanded, Some(0));
    surface.handle_key(SurfaceKey::Enter, 4);
    assert_eq!(surface.expanded, None);
}

#[test]
fn esc_collapses_an_expanded_feed_before_closing() {
    let mut surface = SubAgentsSurface::new();
    surface.handle_key(SurfaceKey::Enter, 4);
    assert_eq!(surface.expanded, Some(0));
    let action = surface.handle_key(SurfaceKey::Esc, 4);
    assert_eq!(action, SurfaceAction::Idle);
    assert_eq!(surface.expanded, None);
    let action = surface.handle_key(SurfaceKey::Esc, 4);
    assert_eq!(action, SurfaceAction::CloseOverlay);
}

#[test]
fn quit_and_palette_keys_return_their_actions() {
    let mut surface = SubAgentsSurface::new();
    assert_eq!(surface.handle_key(SurfaceKey::Char('q'), 4), SurfaceAction::Quit);
    assert_eq!(
        surface.handle_key(SurfaceKey::Char('p'), 4),
        SurfaceAction::OpenOverlay(SurfaceId::Palette)
    );
}

#[test]
fn tab_keys_switch_to_adjacent_surfaces() {
    let mut surface = SubAgentsSurface::new();
    assert_eq!(surface.handle_key(SurfaceKey::Tab, 4), SurfaceAction::Switch(SurfaceId::PlanReview));
    assert_eq!(surface.handle_key(SurfaceKey::BackTab, 4), SurfaceAction::Switch(SurfaceId::Workspace));
}

#[test]
fn empty_state_renders_without_panicking() {
    let out = screen(&SubAgentsSurface::new(), &[], 6);
    assert!(out.contains("No sub-agents running"), "empty copy missing:\n{out}");
    assert!(out.contains("0 running"), "empty summary missing:\n{out}");
}

#[test]
fn empty_state_is_honest_about_being_a_read_only_monitor_d035() {
    let out = screen(&SubAgentsSurface::new(), &[], 6);
    assert!(out.contains("read-only monitor"), "empty state must flag the tab as read-only:\n{out}");
    assert!(out.contains("spawn sub-agents"), "empty state must point the user at how to start parallelism:\n{out}");
}

#[test]
fn failed_sub_agent_is_counted_and_labelled() {
    let agents = vec![
        agent("scout", SubAgentStatus::Running, 2, 500),
        agent("probe", SubAgentStatus::Failed, 1, 200),
    ];
    let out = screen(&SubAgentsSurface::new(), &agents, 6);
    assert!(out.contains("1 failed"), "failed tally missing:\n{out}");
    assert!(out.contains("FAILED"), "failed label missing:\n{out}");
}
