//! The ambient agent strip: the one-row summary above the composer.
//!
//! Its content is decided here, as a row of styled text segments; drawing
//! them is the terminal layer's business. Five states: steady (counts and
//! a `last:` tail), failures promoted first, spawning, all done
//! (`completed in …`), and the first-spawn expanded hint. Staleness is
//! computed on demand: a running agent whose last event is more than ten
//! minutes old counts as stale, never as running. Time is caller-supplied
//! monotonic milliseconds.

use vstd::prelude::*;
use crate::agents::glow::{glowing, GlowFader};
use crate::agents::model::{OnboardingState, SubAgentStatus, SubAgentView};
use crate::channels::dedupe::sat_sub;
use crate::segment::{append_segs, lit, push_seg, seg, Segment, Tone};
use crate::text::{append_str, chars_of, decimal, owned, push_char, string_from, u64_decimal};

verus! {

/// A running agent silent for longer than this (ms) is stale.
pub const STALE_THRESHOLD_MS: u64 = 600_000;
/// How long the all-done glow lasts (ms).
pub const ALL_DONE_TTL_MS: u64 = 30_000;
/// How long the first-spawn expanded hint shows (ms).
pub const FIRST_SPAWN_HINT_WINDOW_MS: u64 = 5_000;
/// How long the strip flashes on the first failure (ms).
pub const FAILED_FLASH_WINDOW_MS: u64 = 250;
/// Names in the `last:` tail are cut to this many characters.
pub const TAIL_NAME_MAX: usize = 24;

/// Counts of agents by status. Running excludes stale agents, which are
/// counted only as stale.
#[derive(Debug, Default, Clone, Copy, PartialEq, Eq, Structural)]
pub struct StripCounts {
    pub running: usize,
    pub done: usize,
    pub failed: usize,
    pub stale: usize,
}

// --- last events ----------------------------------------------------------

/// The last event of agent `id` in `events` (the first pair for `id`).
pub open spec fn event_of(events: Seq<(String, u64)>, id: Seq<char>) -> Option<u64>
    decreases events.len(),
{
    if events.len() == 0 {
        None
    } else if events[0].0@ == id {
        Some(events[0].1)
    } else {
        event_of(events.drop_first(), id)
    }
}

/// The last event of `id`, if any.
pub fn last_event(events: &[(String, u64)], id: &String) -> (r: Option<u64>)
    ensures
        r == event_of(events@, id@),
{
    let mut i: usize = 0;
    assert(events@.skip(0) =~= events@);
    while i < events.len()
        invariant
            i <= events.len(),
            event_of(events@, id@) == event_of(events@.skip(i as int), id@),
        decreases events.len() - i,
    {
        assert(events@.skip(i as int).drop_first() =~= events@.skip(i + 1));
        if events[i].0 == *id {
            return Some(events[i].1);
        }
        i += 1;
    }
    None
}

// --- counts ---------------------------------------------------------------

/// Agent `a` is running but silent for longer than the stale threshold.
pub open spec fn is_stale(a: SubAgentView, events: Seq<(String, u64)>, now: u64) -> bool {
    a.status == SubAgentStatus::Running && match event_of(events, a.id@) {
        Some(t) => sat_sub(now, t) > STALE_THRESHOLD_MS,
        None => false,
    }
}

/// `(running, done, failed, stale)` over `agents`.
pub open spec fn counts_of(agents: Seq<SubAgentView>, events: Seq<(String, u64)>, now: u64) -> (nat, nat, nat, nat)
    decreases agents.len(),
{
    if agents.len() == 0 {
        (0, 0, 0, 0)
    } else {
        let (r, d, f, s) = counts_of(agents.drop_last(), events, now);
        let a = agents.last();
        match a.status {
            SubAgentStatus::Running => if is_stale(a, events, now) { (r, d, f, s + 1) } else { (r + 1, d, f, s) },
            SubAgentStatus::Done => (r, d + 1, f, s),
            SubAgentStatus::Failed => (r, d, f + 1, s),
        }
    }
}

/// Every agent is counted exactly once: running, done, failed and stale
/// add up to the number of agents.
pub proof fn law_counts_partition_agents(agents: Seq<SubAgentView>, events: Seq<(String, u64)>, now: u64)
    ensures
        ({
            let (r, d, f, s) = counts_of(agents, events, now);
            r + d + f + s == agents.len()
        }),
    decreases agents.len(),
{
    if agents.len() > 0 {
        law_counts_partition_agents(agents.drop_last(), events, now);
    }
}

/// The counts as a [`StripCounts`].
pub open spec fn strip_counts_of(agents: Seq<SubAgentView>, events: Seq<(String, u64)>, now: u64) -> StripCounts {
    let (r, d, f, s) = counts_of(agents, events, now);
    StripCounts { running: r as usize, done: d as usize, failed: f as usize, stale: s as usize }
}

// --- the most recent terminal agent ---------------------------------------

pub open spec fn is_terminal(s: SubAgentStatus) -> bool {
    s == SubAgentStatus::Done || s == SubAgentStatus::Failed
}

/// The index and last event of the terminal agent with the latest last
/// event (the later one in `agents` on a tie), among those with an event.
pub open spec fn last_terminal(agents: Seq<SubAgentView>, events: Seq<(String, u64)>) -> Option<(int, u64)>
    decreases agents.len(),
{
    if agents.len() == 0 {
        None
    } else {
        let prev = last_terminal(agents.drop_last(), events);
        let a = agents.last();
        let i = agents.len() - 1;
        if is_terminal(a.status) && event_of(events, a.id@) is Some {
            let t = event_of(events, a.id@)->0;
            match prev {
                None => Some((i, t)),
                Some((j, u)) => if t >= u { Some((i, t)) } else { prev },
            }
        } else {
            prev
        }
    }
}

proof fn lemma_last_terminal_in_range(agents: Seq<SubAgentView>, events: Seq<(String, u64)>)
    ensures
        last_terminal(agents, events) matches Some((i, t)) ==> 0 <= i < agents.len(),
    decreases agents.len(),
{
    if agents.len() > 0 {
        lemma_last_terminal_in_range(agents.drop_last(), events);
    }
}

/// The earliest last event among `agents` that have one.
pub open spec fn earliest_event(agents: Seq<SubAgentView>, events: Seq<(String, u64)>) -> Option<u64>
    decreases agents.len(),
{
    if agents.len() == 0 {
        None
    } else {
        let prev = earliest_event(agents.drop_last(), events);
        match event_of(events, agents.last().id@) {
            None => prev,
            Some(t) => match prev {
                None => Some(t),
                Some(u) => if t < u { Some(t) } else { prev },
            },
        }
    }
}

fn earliest_last_event(agents: &[SubAgentView], events: &[(String, u64)]) -> (r: Option<u64>)
    ensures
        r == earliest_event(agents@, events@),
{
    let mut best: Option<u64> = None;
    let mut i: usize = 0;
    while i < agents.len()
        invariant
            i <= agents.len(),
            best == earliest_event(agents@.take(i as int), events@),
        decreases agents.len() - i,
    {
        assert(agents@.take(i + 1).drop_last() =~= agents@.take(i as int));
        match last_event(events, &agents[i].id) {
            None => {},
            Some(t) => {
                match best {
                    None => { best = Some(t); },
                    Some(u) => { if t < u { best = Some(t); } },
                }
            },
        }
        i += 1;
    }
    assert(agents@.take(agents.len() as int) =~= agents@);
    best
}

// --- text pieces ----------------------------------------------------------

/// The topology label for `n` agents.
pub open spec fn topology_of(n: nat) -> Seq<char> {
    if n <= 5 {
        "Spawn"@
    } else if n <= 20 {
        "Swarm"@
    } else if n <= 50 {
        "Mesh"@
    } else {
        "Fleet"@
    }
}

/// Topology label by agent count.
pub fn topology_label(n: usize) -> (r: &'static str)
    ensures
        r@ == topology_of(n as nat),
{
    if n <= 5 {
        "Spawn"
    } else if n <= 20 {
        "Swarm"
    } else if n <= 50 {
        "Mesh"
    } else {
        "Fleet"
    }
}

/// An elapsed time of `secs` seconds: `Ns` under a minute, `NmNs` under an
/// hour, `NhNm` from an hour on.
pub open spec fn duration_text(secs: u64) -> Seq<char> {
    if secs < 60 {
        decimal(secs as nat) + seq!['s']
    } else if secs < 3600 {
        decimal((secs / 60) as nat) + seq!['m'] + decimal((secs % 60) as nat) + seq!['s']
    } else {
        decimal((secs / 3600) as nat) + seq!['h'] + decimal(((secs % 3600) / 60) as nat) + seq!['m']
    }
}

/// Formats an elapsed time given in whole seconds.
pub fn format_duration(secs: u64) -> (r: String)
    ensures
        r@ == duration_text(secs),
{
    if secs < 60 {
        let mut s = u64_decimal(secs);
        push_char(&mut s, 's');
        s
    } else if secs < 3600 {
        let mut s = u64_decimal(secs / 60);
        push_char(&mut s, 'm');
        let t = u64_decimal(secs % 60);
        append_str(&mut s, t.as_str());
        push_char(&mut s, 's');
        s
    } else {
        let mut s = u64_decimal(secs / 3600);
        push_char(&mut s, 'h');
        let t = u64_decimal((secs % 3600) / 60);
        append_str(&mut s, t.as_str());
        push_char(&mut s, 'm');
        s
    }
}

/// `name` cut to `max` characters, the last replaced by `…` when cut.
pub open spec fn truncated(name: Seq<char>, max: nat) -> Seq<char> {
    if name.len() <= max {
        name
    } else {
        name.take(if max >= 1 { max - 1 } else { 0 }) + seq!['…']
    }
}

/// Truncates `name` to at most `max_chars` characters, ending in `…` when
/// cut.
pub fn truncate_name(name: &str, max_chars: usize) -> (r: String)
    ensures
        r@ == truncated(name@, max_chars as nat),
{
    let cs = chars_of(name);
    if cs.len() <= max_chars {
        owned(name)
    } else {
        let keep: usize = if max_chars >= 1 { max_chars - 1 } else { 0 };
        let mut out = string_from(crate::text::slice_vec(cs.as_slice(), 0, keep).as_slice());
        push_char(&mut out, '…');
        out
    }
}


// --- the row's content ----------------------------------------------------

/// The strip's row: segments flush left, a hint flush right, the column
/// widths of the two areas, and whether the failure flash tints the row.
#[derive(Debug, Clone)]
pub struct StripLayout {
    pub left: Vec<Segment>,
    pub right: Vec<Segment>,
    pub left_width: u16,
    pub right_width: u16,
    pub flash: bool,
}

pub open spec fn separator() -> (Seq<char>, Tone, bool) {
    seg(" · "@, Tone::Muted)
}

/// `parts` with a separator between each two.
pub open spec fn joined(parts: Seq<(Seq<char>, Tone, bool)>) -> Seq<(Seq<char>, Tone, bool)>
    decreases parts.len(),
{
    if parts.len() <= 1 {
        parts
    } else {
        joined(parts.drop_last()) + seq![separator(), parts.last()]
    }
}

pub open spec fn when_some(b: bool, x: (Seq<char>, Tone, bool)) -> Seq<(Seq<char>, Tone, bool)> {
    if b { seq![x] } else { Seq::empty() }
}

pub open spec fn failed_text(f: nat) -> Seq<char> {
    "⚠ "@ + decimal(f) + " failed"@
}

/// The glyph for a status.
pub open spec fn glyph_of(s: SubAgentStatus) -> Seq<char> {
    match s {
        SubAgentStatus::Done => "✓"@,
        SubAgentStatus::Failed => "✗"@,
        SubAgentStatus::Running => "◐"@,
    }
}

/// The glyph's role: a done glyph glows for thirty seconds, then dims.
pub open spec fn glyph_tone(s: SubAgentStatus, elapsed_ms: u64) -> Tone {
    match s {
        SubAgentStatus::Done => if elapsed_ms < ALL_DONE_TTL_MS { Tone::OrangeMuted } else { Tone::Dim },
        SubAgentStatus::Failed => Tone::Error,
        SubAgentStatus::Running => Tone::Running,
    }
}

/// The `last: <name> <glyph> <duration>` tail of the steady state.
pub open spec fn tail_of(agents: Seq<SubAgentView>, events: Seq<(String, u64)>, now: u64) -> Seq<(Seq<char>, Tone, bool)> {
    match last_terminal(agents, events) {
        None => Seq::empty(),
        Some((i, t)) => {
            let a = agents[i];
            let dur = sat_sub(now, t);
            seq![
                seg("   last: "@, Tone::Muted),
                seg(truncated(a.name@, TAIL_NAME_MAX as nat), Tone::Muted),
                seg(" "@, Tone::Plain),
                seg(glyph_of(a.status), glyph_tone(a.status, dur)),
                seg(" "@, Tone::Plain),
                seg(duration_text(dur / 1000), Tone::Muted),
            ]
        },
    }
}

/// The steady state: failures first, then running, done and stale
/// counts, then the tail.
pub open spec fn steady_of(c: StripCounts, agents: Seq<SubAgentView>, events: Seq<(String, u64)>, now: u64) -> Seq<(Seq<char>, Tone, bool)> {
    joined(
        when_some(c.failed > 0, seg(failed_text(c.failed as nat), Tone::Error))
            + when_some(c.running > 0, seg(decimal(c.running as nat) + " running"@, Tone::Muted))
            + when_some(c.done > 0, seg(decimal(c.done as nat) + " done"@, Tone::Muted))
            + when_some(c.stale > 0, seg(decimal(c.stale as nat) + " stale"@, Tone::Muted)),
    ) + tail_of(agents, events, now)
}

/// The all-done state: failures, done count, and the time since the
/// earliest last event.
pub open spec fn all_done_of(c: StripCounts, agents: Seq<SubAgentView>, events: Seq<(String, u64)>, now: u64) -> Seq<(Seq<char>, Tone, bool)> {
    (if c.failed > 0 {
        seq![seg(failed_text(c.failed as nat), Tone::Error)] + when_some(c.done > 0, separator())
    } else {
        Seq::empty()
    }) + when_some(c.done > 0, (decimal(c.done as nat) + " done"@, Tone::OrangeMuted, true))
        + match earliest_event(agents, events) {
        Some(t) => seq![seg("   completed in "@ + duration_text(sat_sub(now, t) / 1000), Tone::Muted)],
        None => Seq::empty(),
    }
}

/// The spawning state: the agent count, pulsing.
pub open spec fn spawning_of(total: nat, pulse: bool) -> Seq<(Seq<char>, Tone, bool)> {
    seq![
        seg("spawning "@, Tone::Muted),
        (decimal(total), if pulse { Tone::Orange } else { Tone::OrangeMuted }, true),
        seg("…"@, Tone::Muted),
    ]
}

/// No failure or staleness yet, nothing done: the agents are spawning.
pub open spec fn is_spawning(c: StripCounts, total: nat) -> bool {
    total > 0 && c.done == 0 && c.failed == 0 && c.stale == 0
}

/// Every agent has reached a terminal status.
pub open spec fn is_all_done(c: StripCounts, total: nat) -> bool {
    total > 0 && c.running == 0 && c.stale == 0
}

/// The left-hand content (before the gutter).
pub open spec fn left_of(agents: Seq<SubAgentView>, events: Seq<(String, u64)>, now: u64, pulse: bool) -> Seq<(Seq<char>, Tone, bool)> {
    let c = strip_counts_of(agents, events, now);
    let total = agents.len();
    seq![seg(topology_of(total), Tone::Orange), seg("   "@, Tone::Plain)] + if is_spawning(c, total) {
        spawning_of(total, pulse)
    } else if is_all_done(c, total) {
        all_done_of(c, agents, events, now)
    } else {
        steady_of(c, agents, events, now)
    }
}

pub open spec fn compact_hint() -> Seq<(Seq<char>, Tone, bool)> {
    seq![seg("⌥A"@, Tone::Orange), seg(" list"@, Tone::Muted)]
}

pub open spec fn expanded_hint() -> Seq<(Seq<char>, Tone, bool)> {
    seq![
        seg("⌥A"@, Tone::Orange),
        seg(" — open agent list · "@, Tone::Muted),
        seg("⏎"@, Tone::Orange),
        seg(" open · "@, Tone::Muted),
        seg("⎋"@, Tone::Orange),
        seg(" back"@, Tone::Muted),
    ]
}

/// The first spawn was seen less than five seconds ago.
pub open spec fn first_spawn_active(o: OnboardingState, now: u64) -> bool {
    match o.first_spawn_seen {
        Some(t) => sat_sub(now, t) < FIRST_SPAWN_HINT_WINDOW_MS,
        None => false,
    }
}

/// The total number of characters of `segs`.
pub open spec fn text_width(segs: Seq<(Seq<char>, Tone, bool)>) -> nat
    decreases segs.len(),
{
    if segs.len() == 0 { 0 } else { text_width(segs.drop_last()) + segs.last().0.len() }
}

/// The failure flash's start after a frame with `failed` failures, given
/// the previous frame's count and start: a 0→1 transition restarts it.
pub open spec fn flash_start(prev_failed: usize, prev_at: Option<u64>, failed: usize, now: u64) -> Option<u64> {
    if failed > 0 && prev_failed == 0 { Some(now) } else { prev_at }
}

/// `l` is the strip's row for these agents on a `width`-column area.
pub open spec fn is_layout_for(
    l: StripLayout,
    agents: Seq<SubAgentView>,
    events: Seq<(String, u64)>,
    onboarding: OnboardingState,
    now: u64,
    pulse: bool,
    width: u16,
    flash_at: Option<u64>,
) -> bool {
    let right = if first_spawn_active(onboarding, now) { expanded_hint() } else { compact_hint() };
    let rw = if text_width(right) < width { text_width(right) } else { width as nat };
    let lw = width - rw;
    let left = left_of(agents, events, now, pulse);
    &&& l.right@.map_values(|s: Segment| s@) == right
    &&& l.right_width == rw
    &&& l.left_width == lw
    &&& l.left@.map_values(|s: Segment| s@) == if lw > 2 { seq![seg("  "@, Tone::Plain)] + left } else { left }
    &&& l.flash == match flash_at {
        Some(t) => sat_sub(now, t) < FAILED_FLASH_WINDOW_MS,
        None => false,
    }
}


/// `n` followed by `word`.
fn count_text(n: usize, word: &str) -> (r: String)
    ensures
        r@ == decimal(n as nat) + word@,
{
    let mut s = u64_decimal(n as u64);
    append_str(&mut s, word);
    s
}

fn failed_segment(f: usize) -> (r: Segment)
    ensures
        r@ == seg(failed_text(f as nat), Tone::Error),
{
    let mut s = owned("⚠ ");
    let d = u64_decimal(f as u64);
    append_str(&mut s, d.as_str());
    append_str(&mut s, " failed");
    Segment { text: s, tone: Tone::Error, bold: false }
}

/// `parts` with a separator between each two.
fn join_parts(parts: Vec<Segment>) -> (r: Vec<Segment>)
    ensures
        r@.map_values(|x: Segment| x@) == joined(parts@.map_values(|x: Segment| x@)),
{
    let ghost p = parts@.map_values(|x: Segment| x@);
    let n = parts.len();
    let mut rest = parts;
    let mut out: Vec<Segment> = Vec::new();
    let mut k: usize = 0;
    assert(p.skip(0) =~= p);
    assert(out@.map_values(|x: Segment| x@) =~= joined(p.take(0)));
    while rest.len() > 0
        invariant
            n == p.len(),
            k + rest@.len() == p.len(),
            rest@.map_values(|x: Segment| x@) == p.skip(k as int),
            out@.map_values(|x: Segment| x@) == joined(p.take(k as int)),
        decreases rest@.len(),
    {
        let ghost r0 = rest@;
        let ghost rv = r0.map_values(|x: Segment| x@);
        let s = rest.remove(0);
        assert(rest@ == r0.remove(0));
        assert(s@ == rv[0]);
        assert(rv[0] == p[k as int]);
        let ghost rm = rest@.map_values(|x: Segment| x@);
        assert forall|j: int| 0 <= j < rest@.len() implies #[trigger] rm[j] == p.skip(k + 1)[j] by {
            assert(rest@[j] == r0[j + 1]);
            assert(rv[j + 1] == p.skip(k as int)[j + 1]);
        }
        assert(rest@.map_values(|x: Segment| x@) =~= p.skip(k + 1));
        assert(p.take(k + 1).drop_last() =~= p.take(k as int));
        if k > 0 {
            push_seg(&mut out, lit(" · ", Tone::Muted));
        } else {
            assert(p.take(1) =~= seq![p[0]]);
            assert(p.take(0) =~= Seq::<(Seq<char>, Tone, bool)>::empty());
        }
        push_seg(&mut out, s);
        k += 1;
    }
    assert(p.take(k as int) =~= p);
    out
}

fn when_push(v: &mut Vec<Segment>, b: bool, s: Segment)
    ensures
        final(v)@.map_values(|x: Segment| x@) == old(v)@.map_values(|x: Segment| x@) + when_some(b, s@),
{
    if b {
        push_seg(v, s);
        assert(old(v)@.map_values(|x: Segment| x@).push(s@) =~= old(v)@.map_values(|x: Segment| x@) + when_some(b, s@));
    } else {
        assert(old(v)@.map_values(|x: Segment| x@) + when_some(b, s@) =~= old(v)@.map_values(|x: Segment| x@));
    }
}

fn glyph(s: SubAgentStatus) -> (r: &'static str)
    ensures
        r@ == glyph_of(s),
{
    match s {
        SubAgentStatus::Done => "✓",
        SubAgentStatus::Failed => "✗",
        SubAgentStatus::Running => "◐",
    }
}

fn tail_segments(agents: &[SubAgentView], events: &[(String, u64)], now_ms: u64) -> (r: Vec<Segment>)
    ensures
        r@.map_values(|x: Segment| x@) == tail_of(agents@, events@, now_ms),
{
    let mut out: Vec<Segment> = Vec::new();
    match AgentStrip::last_terminal_agent(agents, events) {
        None => {
            assert(out@.map_values(|x: Segment| x@) =~= Seq::<(Seq<char>, Tone, bool)>::empty());
        },
        Some((i, t)) => {
            let a = &agents[i];
            let dur = if now_ms >= t { now_ms - t } else { 0 };
            let tone = match a.status {
                SubAgentStatus::Done => if dur < ALL_DONE_TTL_MS { Tone::OrangeMuted } else { Tone::Dim },
                SubAgentStatus::Failed => Tone::Error,
                SubAgentStatus::Running => Tone::Running,
            };
            push_seg(&mut out, lit("   last: ", Tone::Muted));
            push_seg(&mut out, Segment { text: truncate_name(a.name.as_str(), TAIL_NAME_MAX), tone: Tone::Muted, bold: false });
            push_seg(&mut out, lit(" ", Tone::Plain));
            push_seg(&mut out, lit(glyph(a.status), tone));
            push_seg(&mut out, lit(" ", Tone::Plain));
            push_seg(&mut out, Segment { text: format_duration(dur / 1000), tone: Tone::Muted, bold: false });
        },
    }
    out
}

fn steady_segments(c: StripCounts, agents: &[SubAgentView], events: &[(String, u64)], now_ms: u64) -> (r: Vec<Segment>)
    ensures
        r@.map_values(|x: Segment| x@) == steady_of(c, agents@, events@, now_ms),
{
    let mut parts: Vec<Segment> = Vec::new();
    assert(parts@.map_values(|x: Segment| x@) =~= Seq::<(Seq<char>, Tone, bool)>::empty());
    when_push(&mut parts, c.failed > 0, failed_segment(c.failed));
    when_push(&mut parts, c.running > 0, Segment { text: count_text(c.running, " running"), tone: Tone::Muted, bold: false });
    when_push(&mut parts, c.done > 0, Segment { text: count_text(c.done, " done"), tone: Tone::Muted, bold: false });
    when_push(&mut parts, c.stale > 0, Segment { text: count_text(c.stale, " stale"), tone: Tone::Muted, bold: false });
    let mut out = join_parts(parts);
    append_segs(&mut out, tail_segments(agents, events, now_ms));
    out
}

fn all_done_segments(c: StripCounts, agents: &[SubAgentView], events: &[(String, u64)], now_ms: u64) -> (r: Vec<Segment>)
    ensures
        r@.map_values(|x: Segment| x@) == all_done_of(c, agents@, events@, now_ms),
{
    let mut out: Vec<Segment> = Vec::new();
    assert(out@.map_values(|x: Segment| x@) =~= Seq::<(Seq<char>, Tone, bool)>::empty());
    if c.failed > 0 {
        push_seg(&mut out, failed_segment(c.failed));
        when_push(&mut out, c.done > 0, lit(" · ", Tone::Muted));
    }
    when_push(&mut out, c.done > 0, Segment { text: count_text(c.done, " done"), tone: Tone::OrangeMuted, bold: true });
    let ghost mid = out@.map_values(|x: Segment| x@);
    match earliest_last_event(agents, events) {
        Some(t) => {
            let dur = if now_ms >= t { now_ms - t } else { 0 };
            let mut text = owned("   completed in ");
            let d = format_duration(dur / 1000);
            append_str(&mut text, d.as_str());
            push_seg(&mut out, Segment { text, tone: Tone::Muted, bold: false });
        },
        None => {
            assert(mid + Seq::<(Seq<char>, Tone, bool)>::empty() =~= mid);
        },
    }
    out
}

fn spawning_segments(total: usize, pulse: bool) -> (r: Vec<Segment>)
    ensures
        r@.map_values(|x: Segment| x@) == spawning_of(total as nat, pulse),
{
    let mut out: Vec<Segment> = Vec::new();
    push_seg(&mut out, lit("spawning ", Tone::Muted));
    let tone = if pulse { Tone::Orange } else { Tone::OrangeMuted };
    push_seg(&mut out, Segment { text: u64_decimal(total as u64), tone, bold: true });
    push_seg(&mut out, lit("…", Tone::Muted));
    out
}

fn hint_segments(expanded: bool) -> (r: Vec<Segment>)
    ensures
        r@.map_values(|x: Segment| x@) == if expanded { expanded_hint() } else { compact_hint() },
{
    let mut out: Vec<Segment> = Vec::new();
    push_seg(&mut out, lit("⌥A", Tone::Orange));
    if expanded {
        push_seg(&mut out, lit(" — open agent list · ", Tone::Muted));
        push_seg(&mut out, lit("⏎", Tone::Orange));
        push_seg(&mut out, lit(" open · ", Tone::Muted));
        push_seg(&mut out, lit("⎋", Tone::Orange));
        push_seg(&mut out, lit(" back", Tone::Muted));
    } else {
        push_seg(&mut out, lit(" list", Tone::Muted));
    }
    out
}

/// The character width of `segs`, capped at `cap`.
fn capped_width(segs: &Vec<Segment>, cap: u16) -> (r: u16)
    ensures
        r == (if text_width(segs@.map_values(|x: Segment| x@)) < cap {
            text_width(segs@.map_values(|x: Segment| x@))
        } else {
            cap as nat
        }),
{
    let ghost v = segs@.map_values(|x: Segment| x@);
    let mut acc: u16 = 0;
    let mut i: usize = 0;
    while i < segs.len()
        invariant
            i <= segs.len(),
            v == segs@.map_values(|x: Segment| x@),
            acc == (if text_width(v.take(i as int)) < cap { text_width(v.take(i as int)) } else { cap as nat }),
        decreases segs.len() - i,
    {
        assert(v.take(i + 1).drop_last() =~= v.take(i as int));
        assert(v.take(i + 1).last() == v[i as int]);
        let n = chars_of(segs[i].text.as_str()).len();
        if n >= (cap - acc) as usize {
            acc = cap;
        } else {
            acc = acc + n as u16;
        }
        i += 1;
    }
    assert(v.take(segs.len() as int) =~= v);
    acc
}

// --- the strip ------------------------------------------------------------

/// The agent strip's state carried from frame to frame.
#[derive(Debug, Default)]
pub struct AgentStrip {
    /// The last tick `should_render` was evaluated on.
    pub last_should_render_tick: u64,
    /// The value cached for that tick.
    pub last_should_render_value: bool,
    /// The failed count seen on the previous frame.
    pub failed_count: usize,
    /// When the most recent 0→1 failure transition happened.
    pub failed_flash_at: Option<u64>,
}

impl AgentStrip {
    /// A strip with nothing cached and no failure seen.
    pub fn new() -> (r: Self)
        ensures
            r.last_should_render_tick == 0,
            !r.last_should_render_value,
            r.failed_count == 0,
            r.failed_flash_at is None,
    {
        AgentStrip { last_should_render_tick: 0, last_should_render_value: false, failed_count: 0, failed_flash_at: None }
    }

    /// Whether the strip takes a row this frame: some sub-agent exists or
    /// a done-glow is still showing. Evaluated once per tick: a repeated
    /// non-zero tick answers from the cache.
    pub fn should_render(&mut self, agents: &[SubAgentView], glow: &GlowFader, now_ms: u64, tick: u64) -> (r: bool)
        requires
            glow.wf(),
        ensures
            (tick == old(self).last_should_render_tick && tick != 0) ==> r == old(self).last_should_render_value
                && *final(self) == *old(self),
            !(tick == old(self).last_should_render_tick && tick != 0) ==> {
                &&& r == (agents@.len() > 0 || exists|k: Seq<char>| #[trigger] glow.map().dom().contains(k) && glowing(glow.map()[k], now_ms))
                &&& final(self).last_should_render_tick == tick
                &&& final(self).last_should_render_value == r
                &&& final(self).failed_count == old(self).failed_count
                &&& final(self).failed_flash_at == old(self).failed_flash_at
            },
    {
        if tick == self.last_should_render_tick && tick != 0 {
            return self.last_should_render_value;
        }
        let v = agents.len() > 0 || glow.any_active(now_ms);
        self.last_should_render_tick = tick;
        self.last_should_render_value = v;
        v
    }

    /// Decides the strip's row for a `width` × `height` area (an empty
    /// area yields nothing and leaves the strip as it was). `pulse` is the
    /// animation phase of the spawning count. Records the failed count, and
    /// restarts the failure flash on a 0→1 transition.
    pub fn layout(
        &mut self,
        agents: &[SubAgentView],
        events: &[(String, u64)],
        onboarding: &OnboardingState,
        now_ms: u64,
        pulse: bool,
        width: u16,
        height: u16,
    ) -> (r: Option<StripLayout>)
        ensures
            (width == 0 || height == 0) ==> r is None && *final(self) == *old(self),
            !(width == 0 || height == 0) ==> ({
                let c = strip_counts_of(agents@, events@, now_ms);
                let at = flash_start(old(self).failed_count, old(self).failed_flash_at, c.failed, now_ms);
                &&& r matches Some(l) && is_layout_for(l, agents@, events@, *onboarding, now_ms, pulse, width, at)
                &&& final(self).failed_count == c.failed
                &&& final(self).failed_flash_at == at
                &&& final(self).last_should_render_tick == old(self).last_should_render_tick
                &&& final(self).last_should_render_value == old(self).last_should_render_value
            }),
    {
        if width == 0 || height == 0 {
            return None;
        }
        let c = Self::count_by_status(agents, events, now_ms);
        if c.failed > 0 && self.failed_count == 0 {
            self.failed_flash_at = Some(now_ms);
        }
        self.failed_count = c.failed;
        let flash = match self.failed_flash_at {
            Some(t) => {
                let e = if now_ms >= t { now_ms - t } else { 0 };
                e < FAILED_FLASH_WINDOW_MS
            },
            None => false,
        };
        let total = agents.len();
        let first_spawn = match onboarding.first_spawn_seen {
            Some(t) => {
                let e = if now_ms >= t { now_ms - t } else { 0 };
                e < FIRST_SPAWN_HINT_WINDOW_MS
            },
            None => false,
        };
        let spawning = total > 0 && c.done == 0 && c.failed == 0 && c.stale == 0;
        let all_done = total > 0 && c.running == 0 && c.stale == 0;
        let right = hint_segments(first_spawn);

        let mut left: Vec<Segment> = Vec::new();
        assert(left@.map_values(|x: Segment| x@) =~= Seq::<(Seq<char>, Tone, bool)>::empty());
        push_seg(&mut left, lit(topology_label(total), Tone::Orange));
        push_seg(&mut left, lit("   ", Tone::Plain));
        assert(left@.map_values(|x: Segment| x@) =~= seq![seg(topology_of(total as nat), Tone::Orange), seg("   "@, Tone::Plain)]);
        let body = if spawning {
            spawning_segments(total, pulse)
        } else if all_done {
            all_done_segments(c, agents, events, now_ms)
        } else {
            steady_segments(c, agents, events, now_ms)
        };
        append_segs(&mut left, body);
        assert(left@.map_values(|x: Segment| x@) =~= left_of(agents@, events@, now_ms, pulse));

        let right_width = capped_width(&right, width);
        let left_width = width - right_width;
        let left = if left_width > 2 {
            let mut g: Vec<Segment> = Vec::new();
            assert(g@.map_values(|x: Segment| x@) =~= Seq::<(Seq<char>, Tone, bool)>::empty());
            push_seg(&mut g, lit("  ", Tone::Plain));
            assert(g@.map_values(|x: Segment| x@) =~= seq![seg("  "@, Tone::Plain)]);
            append_segs(&mut g, left);
            g
        } else {
            left
        };
        Some(StripLayout { left, right, left_width, right_width, flash })
    }

    /// Counts agents by status; a running agent is stale when its last
    /// event is more than ten minutes before `now_ms`, and fresh when it
    /// has none.
    pub fn count_by_status(agents: &[SubAgentView], events: &[(String, u64)], now_ms: u64) -> (c: StripCounts)
        ensures
            c == strip_counts_of(agents@, events@, now_ms),
    {
        let mut c = StripCounts { running: 0, done: 0, failed: 0, stale: 0 };
        let mut i: usize = 0;
        while i < agents.len()
            invariant
                i <= agents.len(),
                c == strip_counts_of(agents@.take(i as int), events@, now_ms),
                ({
                    let (r, d, f, s) = counts_of(agents@.take(i as int), events@, now_ms);
                    r + d + f + s == i
                }),
            decreases agents.len() - i,
        {
            assert(agents@.take(i + 1).drop_last() =~= agents@.take(i as int));
            proof { law_counts_partition_agents(agents@.take(i as int), events@, now_ms); }
            let a = &agents[i];
            match a.status {
                SubAgentStatus::Running => {
                    let stale = match last_event(events, &a.id) {
                        Some(t) => {
                            let elapsed = if now_ms >= t { now_ms - t } else { 0 };
                            elapsed > STALE_THRESHOLD_MS
                        },
                        None => false,
                    };
                    if stale {
                        c.stale = c.stale + 1;
                    } else {
                        c.running = c.running + 1;
                    }
                },
                SubAgentStatus::Done => { c.done = c.done + 1; },
                SubAgentStatus::Failed => { c.failed = c.failed + 1; },
            }
            i += 1;
        }
        assert(agents@.take(agents.len() as int) =~= agents@);
        c
    }

    /// The terminal (done or failed) agent whose last event is the most
    /// recent, with that event; the later agent wins a tie.
    pub fn last_terminal_agent(agents: &[SubAgentView], events: &[(String, u64)]) -> (r: Option<(usize, u64)>)
        ensures
            match r {
                Some((i, t)) => last_terminal(agents@, events@) == Some((i as int, t)) && i < agents.len(),
                None => last_terminal(agents@, events@) is None,
            },
    {
        let mut best: Option<(usize, u64)> = None;
        let mut i: usize = 0;
        while i < agents.len()
            invariant
                i <= agents.len(),
                match best {
                    Some((j, t)) => last_terminal(agents@.take(i as int), events@) == Some((j as int, t)) && j < i,
                    None => last_terminal(agents@.take(i as int), events@) is None,
                },
            decreases agents.len() - i,
        {
            let ghost pre = agents@.take(i + 1);
            assert(pre.drop_last() =~= agents@.take(i as int));
            assert(pre.last() == agents@[i as int]);
            let a = &agents[i];
            let terminal = match a.status {
                SubAgentStatus::Done => true,
                SubAgentStatus::Failed => true,
                SubAgentStatus::Running => false,
            };
            if terminal {
                match last_event(events, &a.id) {
                    Some(t) => {
                        match best {
                            None => { best = Some((i, t)); },
                            Some((_, u)) => { if t >= u { best = Some((i, t)); } },
                        }
                    },
                    None => {},
                }
            }
            i += 1;
        }
        assert(agents@.take(agents.len() as int) =~= agents@);
        best
    }
}

} // verus!
