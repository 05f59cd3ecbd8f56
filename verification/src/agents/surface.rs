//! The sub-agents surface: a read-only live monitor of spawned sub-agents.
//!
//! It shows only what is real: per agent a name, a status, a turn count, a
//! token count and a live feed; one card at a time can be expanded to read
//! its feed. This module holds the surface's cursor state, its key
//! handling, and the content of its rows; drawing them is the terminal
//! layer's business.

use vstd::prelude::*;
use crate::agents::model::{SubAgentStatus, SubAgentView};
use crate::segment::{append_segs, lit, push_seg, seg, Segment, Tone};
use crate::text::{append_str, decimal, owned, u64_decimal};

verus! {

/// The interface's surfaces that this one routes to.
#[derive(Debug, Clone, Copy, PartialEq, Eq, Structural)]
pub enum SurfaceId {
    Workspace,
    SubAgents,
    PlanReview,
    Palette,
}

/// What a surface asks the router to do after a key.
#[derive(Debug, Clone, Copy, PartialEq, Eq, Structural)]
pub enum SurfaceAction {
    Idle,
    CloseOverlay,
    Quit,
    OpenOverlay(SurfaceId),
    Switch(SurfaceId),
}

/// The keys the surface reacts to.
#[derive(Debug, Clone, Copy, PartialEq, Eq, Structural)]
pub enum SurfaceKey {
    Down,
    Up,
    Enter,
    Esc,
    Tab,
    BackTab,
    Char(char),
    Other,
}

/// The tab after the sub-agents tab.
pub const NEXT_TAB: SurfaceId = SurfaceId::PlanReview;
/// The tab before the sub-agents tab.
pub const PREV_TAB: SurfaceId = SurfaceId::Workspace;

/// The sub-agents surface's view state: the selection cursor (stored
/// unclamped) and the expanded card, if any.
#[derive(Debug, Clone, Copy, PartialEq, Eq)]
pub struct SubAgentsSurface {
    pub selected: usize,
    pub expanded: Option<usize>,
}

/// The selection clamped into `0..len` (`0` for an empty list).
pub open spec fn clamp_selection(selected: usize, len: usize) -> usize {
    if len == 0 { 0 } else if selected < len - 1 { selected } else { (len - 1) as usize }
}

/// The surface after `key` on a list of `len` agents, and the action
/// returned.
pub open spec fn key_outcome(s: SubAgentsSurface, key: SurfaceKey, len: usize) -> (SubAgentsSurface, SurfaceAction) {
    let cur = clamp_selection(s.selected, len);
    match key {
        SurfaceKey::Down | SurfaceKey::Char('j') => if len > 0 {
            (SubAgentsSurface { selected: ((cur + 1) % (len as int)) as usize, ..s }, SurfaceAction::Idle)
        } else {
            (s, SurfaceAction::Idle)
        },
        SurfaceKey::Up | SurfaceKey::Char('k') => if len > 0 {
            (SubAgentsSurface { selected: ((cur + len - 1) % (len as int)) as usize, ..s }, SurfaceAction::Idle)
        } else {
            (s, SurfaceAction::Idle)
        },
        SurfaceKey::Enter => if len > 0 {
            (SubAgentsSurface { expanded: if s.expanded == Some(cur) { None } else { Some(cur) }, ..s }, SurfaceAction::Idle)
        } else {
            (s, SurfaceAction::Idle)
        },
        SurfaceKey::Esc => if s.expanded is Some {
            (SubAgentsSurface { expanded: None, ..s }, SurfaceAction::Idle)
        } else {
            (s, SurfaceAction::CloseOverlay)
        },
        SurfaceKey::Char('q') => (s, SurfaceAction::Quit),
        SurfaceKey::Char('p') => (s, SurfaceAction::OpenOverlay(SurfaceId::Palette)),
        SurfaceKey::Tab => (s, SurfaceAction::Switch(NEXT_TAB)),
        SurfaceKey::BackTab => (s, SurfaceAction::Switch(PREV_TAB)),
        _ => (s, SurfaceAction::Idle),
    }
}

impl SubAgentsSurface {
    /// The first card selected, none expanded.
    pub fn new() -> (r: Self)
        ensures
            r.selected == 0,
            r.expanded is None,
    {
        SubAgentsSurface { selected: 0, expanded: None }
    }

    /// This surface's id.
    pub fn id(&self) -> (r: SurfaceId)
        ensures
            r == SurfaceId::SubAgents,
    {
        SurfaceId::SubAgents
    }

    /// The selection clamped into `0..len`, or `0` when the list is empty,
    /// so a list that shrank can never yield an out-of-bounds index.
    pub fn clamped_selection(&self, len: usize) -> (r: usize)
        ensures
            r == clamp_selection(self.selected, len),
            len > 0 ==> r < len,
    {
        if len == 0 {
            0
        } else if self.selected < len - 1 {
            self.selected
        } else {
            len - 1
        }
    }

    /// Handles a key on a list of `len` agents: arrows (and `j`/`k`) move
    /// the selection with wrap-around, `Enter` toggles the selected card's
    /// feed, `Esc` collapses a feed or else asks to close, `q` quits, `p`
    /// opens the palette, `Tab`/`BackTab` switch to the adjacent tabs.
    pub fn handle_key(&mut self, key: SurfaceKey, len: usize) -> (r: SurfaceAction)
        ensures
            (*final(self), r) == key_outcome(*old(self), key, len),
    {
        let is_down = match key {
            SurfaceKey::Down => true,
            SurfaceKey::Char(c) => c == 'j',
            _ => false,
        };
        let is_up = match key {
            SurfaceKey::Up => true,
            SurfaceKey::Char(c) => c == 'k',
            _ => false,
        };
        if is_down {
            if len > 0 {
                let cur = self.clamped_selection(len);
                self.selected = (cur + 1) % len;
            }
            return SurfaceAction::Idle;
        }
        if is_up {
            if len > 0 {
                let cur = self.clamped_selection(len);
                self.selected = if cur == 0 { len - 1 } else { cur - 1 };
                assert((cur + len - 1) % (len as int) == if cur == 0 { len - 1 } else { cur - 1 }) by (nonlinear_arith)
                    requires cur < len, len > 0;
            }
            return SurfaceAction::Idle;
        }
        match key {
            SurfaceKey::Enter => {
                if len > 0 {
                    let cur = self.clamped_selection(len);
                    self.expanded = if self.expanded == Some(cur) { None } else { Some(cur) };
                }
                SurfaceAction::Idle
            },
            SurfaceKey::Esc => {
                if self.expanded.is_some() {
                    self.expanded = None;
                    SurfaceAction::Idle
                } else {
                    SurfaceAction::CloseOverlay
                }
            },
            SurfaceKey::Char(c) => {
                if c == 'q' {
                    SurfaceAction::Quit
                } else if c == 'p' {
                    SurfaceAction::OpenOverlay(SurfaceId::Palette)
                } else {
                    SurfaceAction::Idle
                }
            },
            SurfaceKey::Tab => SurfaceAction::Switch(NEXT_TAB),
            SurfaceKey::BackTab => SurfaceAction::Switch(PREV_TAB),
            _ => SurfaceAction::Idle,
        }
    }
}

impl Default for SubAgentsSurface {
    fn default() -> (r: Self)
        ensures
            r.selected == 0,
            r.expanded is None,
    {
        Self::new()
    }
}

// --- rows -----------------------------------------------------------------

/// The number of `agents` with status `s`.
pub open spec fn count_with(agents: Seq<SubAgentView>, s: SubAgentStatus) -> nat
    decreases agents.len(),
{
    if agents.len() == 0 {
        0
    } else {
        count_with(agents.drop_last(), s) + if agents.last().status == s { 1nat } else { 0 }
    }
}

fn count_status(agents: &[SubAgentView], s: SubAgentStatus) -> (r: usize)
    ensures
        r == count_with(agents@, s),
{
    let mut n: usize = 0;
    let mut i: usize = 0;
    while i < agents.len()
        invariant
            i <= agents.len(),
            n == count_with(agents@.take(i as int), s),
            n <= i,
        decreases agents.len() - i,
    {
        assert(agents@.take(i + 1).drop_last() =~= agents@.take(i as int));
        if agents[i].status == s {
            n = n + 1;
        }
        i += 1;
    }
    assert(agents@.take(agents.len() as int) =~= agents@);
    n
}

/// The summary bar: total, running and done tallies, and failures when
/// there are any. No progress aggregate exists, so none is shown.
pub open spec fn summary_of(agents: Seq<SubAgentView>) -> Seq<(Seq<char>, Tone, bool)> {
    let running = count_with(agents, SubAgentStatus::Running);
    let done = count_with(agents, SubAgentStatus::Done);
    let failed = count_with(agents, SubAgentStatus::Failed);
    seq![
        (" SUB-AGENTS · LIVE  "@, Tone::Text, true),
        seg(decimal(agents.len()) + " spawned   "@, Tone::Dim),
        seg("● "@ + decimal(running) + " running"@, Tone::Orange),
        seg("   "@, Tone::Plain),
        seg("● "@ + decimal(done) + " done"@, Tone::Success),
    ] + if failed > 0 {
        seq![seg("   "@, Tone::Plain), seg("● "@ + decimal(failed) + " failed"@, Tone::Error)]
    } else {
        Seq::empty()
    }
}

/// `prefix`, the number `n`, then `suffix`.
fn framed_count(prefix: &str, n: usize, suffix: &str) -> (r: String)
    ensures
        r@ == prefix@ + decimal(n as nat) + suffix@,
{
    let mut s = owned(prefix);
    let d = u64_decimal(n as u64);
    append_str(&mut s, d.as_str());
    append_str(&mut s, suffix);
    s
}

/// The summary bar's segments.
pub fn summary_segments(agents: &[SubAgentView]) -> (r: Vec<Segment>)
    ensures
        r@.map_values(|x: Segment| x@) == summary_of(agents@),
{
    let running = count_status(agents, SubAgentStatus::Running);
    let done = count_status(agents, SubAgentStatus::Done);
    let failed = count_status(agents, SubAgentStatus::Failed);
    let mut out: Vec<Segment> = Vec::new();
    push_seg(&mut out, Segment { text: owned(" SUB-AGENTS · LIVE  "), tone: Tone::Text, bold: true });
    push_seg(&mut out, Segment { text: framed_count("", agents.len(), " spawned   "), tone: Tone::Dim, bold: false });
    proof {
        reveal_strlit("");
        assert(""@ + decimal(agents@.len()) =~= decimal(agents@.len()));
    }
    push_seg(&mut out, Segment { text: framed_count("● ", running, " running"), tone: Tone::Orange, bold: false });
    push_seg(&mut out, lit("   ", Tone::Plain));
    push_seg(&mut out, Segment { text: framed_count("● ", done, " done"), tone: Tone::Success, bold: false });
    let ghost five = out@.map_values(|x: Segment| x@);
    if failed > 0 {
        push_seg(&mut out, lit("   ", Tone::Plain));
        push_seg(&mut out, Segment { text: framed_count("● ", failed, " failed"), tone: Tone::Error, bold: false });
    } else {
        assert(five + Seq::<(Seq<char>, Tone, bool)>::empty() =~= five);
    }
    out
}

/// The upper-case label of a status.
pub open spec fn status_label_of(s: SubAgentStatus) -> Seq<char> {
    match s {
        SubAgentStatus::Running => "RUNNING"@,
        SubAgentStatus::Done => "DONE"@,
        SubAgentStatus::Failed => "FAILED"@,
    }
}

/// A short, upper-cased status label for a card header.
pub fn status_label(s: SubAgentStatus) -> (r: &'static str)
    ensures
        r@ == status_label_of(s),
{
    match s {
        SubAgentStatus::Running => "RUNNING",
        SubAgentStatus::Done => "DONE",
        SubAgentStatus::Failed => "FAILED",
    }
}

/// The accent role of a status.
pub open spec fn accent_of(s: SubAgentStatus) -> Tone {
    match s {
        SubAgentStatus::Running => Tone::Orange,
        SubAgentStatus::Done => Tone::Success,
        SubAgentStatus::Failed => Tone::Error,
    }
}

fn accent(s: SubAgentStatus) -> (r: Tone)
    ensures
        r == accent_of(s),
{
    match s {
        SubAgentStatus::Running => Tone::Orange,
        SubAgentStatus::Done => Tone::Success,
        SubAgentStatus::Failed => Tone::Error,
    }
}

/// One card: its border role and its lines.
#[derive(Debug, Clone)]
pub struct Card {
    pub border: Tone,
    pub lines: Vec<Vec<Segment>>,
}

/// The rows of an expanded feed: the most recent lines, as many as the
/// card's `inner_height` leaves below its three fixed rows (at least one).
pub open spec fn feed_window(feed: Seq<Seq<char>>, inner_height: u16) -> Seq<Seq<char>> {
    let budget: int = if inner_height >= 3 { inner_height - 3 } else { 0 };
    let keep: int = if budget >= 1 { budget } else { 1 };
    let start: int = if feed.len() >= keep { feed.len() - keep } else { 0 };
    feed.skip(start)
}

/// The lines of a card for `agent`, with its token count already
/// rendered as `tokens_text`.
pub open spec fn card_lines_of(
    agent: SubAgentView,
    tokens_text: Seq<char>,
    expanded: bool,
    inner_height: u16,
) -> Seq<Seq<(Seq<char>, Tone, bool)>> {
    let a = accent_of(agent.status);
    let feed = agent.feed@.map_values(|l: String| l@);
    let header = seq![
        seg("● "@, a),
        (agent.name@, Tone::Text, true),
        seg("   "@, Tone::Plain),
        seg(status_label_of(agent.status), a),
        seg("   "@, Tone::Plain),
        seg("turn "@ + decimal(agent.turns as nat) + " · "@ + tokens_text, Tone::Muted),
    ];
    let latest = if feed.len() > 0 { feed.last() } else { "waiting for first action…"@ };
    let sub = seq![seg("  "@ + latest, Tone::Dim)];
    seq![header, sub] + if expanded {
        seq![seq![("  LIVE FEED · ChannelSink"@, Tone::Muted, true)]] + if feed.len() == 0 {
            seq![seq![seg("  (no feed lines yet)"@, Tone::Muted)]]
        } else {
            feed_window(feed, inner_height).map_values(|l: Seq<char>| seq![seg("  "@ + l, Tone::Dim)])
        }
    } else {
        Seq::empty()
    }
}

/// The plain value of rows of segments.
pub open spec fn rows_view(v: Seq<Vec<Segment>>) -> Seq<Seq<(Seq<char>, Tone, bool)>> {
    v.map_values(|row: Vec<Segment>| row@.map_values(|x: Segment| x@))
}

/// `"  "` followed by `s`, as a dim row.
fn indented_row(s: &str) -> (r: Vec<Segment>)
    ensures
        r@.map_values(|x: Segment| x@) == seq![seg("  "@ + s@, Tone::Dim)],
{
    let mut t = owned("  ");
    append_str(&mut t, s);
    let mut row: Vec<Segment> = Vec::new();
    push_seg(&mut row, Segment { text: t, tone: Tone::Dim, bold: false });
    assert(row@.map_values(|x: Segment| x@) =~= seq![seg("  "@ + s@, Tone::Dim)]);
    row
}

/// The card for `agent`: a status-tinted border when selected, a header
/// (`● name   STATUS   turn N · <tokens>`), the latest feed line (or a
/// placeholder), and when expanded the feed itself.
pub fn card(agent: &SubAgentView, tokens_text: &str, selected: bool, expanded: bool, inner_height: u16) -> (r: Card)
    ensures
        r.border == if selected { accent_of(agent.status) } else { Tone::Border },
        rows_view(r.lines@) == card_lines_of(*agent, tokens_text@, expanded, inner_height),
{
    let a = accent(agent.status);
    let ghost feed = agent.feed@.map_values(|l: String| l@);
    let mut header: Vec<Segment> = Vec::new();
    push_seg(&mut header, lit("● ", a));
    push_seg(&mut header, Segment { text: owned(agent.name.as_str()), tone: Tone::Text, bold: true });
    push_seg(&mut header, lit("   ", Tone::Plain));
    push_seg(&mut header, lit(status_label(agent.status), a));
    push_seg(&mut header, lit("   ", Tone::Plain));
    let mut t = framed_count("turn ", agent.turns, " · ");
    append_str(&mut t, tokens_text);
    push_seg(&mut header, Segment { text: t, tone: Tone::Muted, bold: false });
    let n = agent.feed.len();
    let sub = if n > 0 {
        assert(feed.last() == agent.feed@[n - 1]@);
        indented_row(agent.feed[n - 1].as_str())
    } else {
        indented_row("waiting for first action…")
    };
    let mut lines: Vec<Vec<Segment>> = Vec::new();
    let ghost hv = header@.map_values(|x: Segment| x@);
    let ghost sv = sub@.map_values(|x: Segment| x@);
    lines.push(header);
    lines.push(sub);
    assert(rows_view(lines@) =~= seq![hv, sv]);
    proof {
        let a = accent_of(agent.status);
        assert(hv =~= seq![
            seg("● "@, a),
            (agent.name@, Tone::Text, true),
            seg("   "@, Tone::Plain),
            seg(status_label_of(agent.status), a),
            seg("   "@, Tone::Plain),
            seg("turn "@ + decimal(agent.turns as nat) + " · "@ + tokens_text@, Tone::Muted),
        ]);
        let latest = if feed.len() > 0 { feed.last() } else { "waiting for first action…"@ };
        assert(sv == seq![seg("  "@ + latest, Tone::Dim)]);
        assert(feed == agent.feed@.map_values(|l: String| l@));
    }
    if expanded {
        let mut title: Vec<Segment> = Vec::new();
        push_seg(&mut title, Segment { text: owned("  LIVE FEED · ChannelSink"), tone: Tone::Muted, bold: true });
        let ghost before = rows_view(lines@);
        let ghost tv = title@.map_values(|x: Segment| x@);
        lines.push(title);
        assert(rows_view(lines@) =~= before.push(tv));
        assert(tv =~= seq![("  LIVE FEED · ChannelSink"@, Tone::Muted, true)]);
        if n == 0 {
            let mut none: Vec<Segment> = Vec::new();
            push_seg(&mut none, lit("  (no feed lines yet)", Tone::Muted));
            let ghost b2 = rows_view(lines@);
            let ghost nv = none@.map_values(|x: Segment| x@);
            lines.push(none);
            assert(rows_view(lines@) =~= b2.push(nv));
            assert(nv =~= seq![seg("  (no feed lines yet)"@, Tone::Muted)]);
            assert(rows_view(lines@) =~= seq![hv, sv] + (seq![tv] + seq![nv]));
            assert(rows_view(lines@) =~= card_lines_of(*agent, tokens_text@, expanded, inner_height));
        } else {
            let budget: usize = if inner_height >= 3 { (inner_height - 3) as usize } else { 0 };
            let keep: usize = if budget >= 1 { budget } else { 1 };
            let start: usize = if n >= keep { n - keep } else { 0 };
            let ghost w = feed_window(feed, inner_height);
            let ghost base = rows_view(lines@);
            assert(w =~= feed.skip(start as int));
            let mut i: usize = start;
            while i < n
                invariant
                    start <= i <= n,
                    n == agent.feed@.len(),
                    feed == agent.feed@.map_values(|l: String| l@),
                    w == feed.skip(start as int),
                    rows_view(lines@) == base + w.take(i - start).map_values(|l: Seq<char>| seq![seg("  "@ + l, Tone::Dim)]),
                decreases n - i,
            {
                let row = indented_row(agent.feed[i].as_str());
                let ghost before = rows_view(lines@);
                let ghost rv = row@.map_values(|x: Segment| x@);
                lines.push(row);
                assert(rows_view(lines@) =~= before.push(rv));
                assert(w.take(i + 1 - start) =~= w.take(i - start).push(feed[i as int]));
                assert(w.take(i + 1 - start).map_values(|l: Seq<char>| seq![seg("  "@ + l, Tone::Dim)])
                    =~= w.take(i - start).map_values(|l: Seq<char>| seq![seg("  "@ + l, Tone::Dim)]).push(rv));
                i += 1;
            }
            assert(w.take(n - start) =~= w);
            assert(rows_view(lines@) =~= seq![hv, sv] + (seq![tv] + w.map_values(|l: Seq<char>| seq![seg("  "@ + l, Tone::Dim)])));
            assert(rows_view(lines@) =~= card_lines_of(*agent, tokens_text@, expanded, inner_height));
        }
    } else {
        assert(seq![hv, sv] + Seq::<Seq<(Seq<char>, Tone, bool)>>::empty() =~= seq![hv, sv]);
        assert(rows_view(lines@) =~= card_lines_of(*agent, tokens_text@, expanded, inner_height));
    }
    Card { border: if selected { a } else { Tone::Border }, lines }
}

/// The empty state, shown when no sub-agent has been spawned: a blank
/// line, then a dim note that the tab only monitors, then a muted pointer
/// to how agents get spawned.
pub fn empty_state() -> (r: Vec<Vec<Segment>>)
    ensures
        rows_view(r@) == seq![
            Seq::<(Seq<char>, Tone, bool)>::empty(),
            seq![seg(EMPTY_NOTE@, Tone::Dim)],
            seq![seg(EMPTY_HOWTO@, Tone::Muted)],
        ],
{
    let mut rows: Vec<Vec<Segment>> = Vec::new();
    rows.push(Vec::new());
    let mut note: Vec<Segment> = Vec::new();
    push_seg(&mut note, lit(EMPTY_NOTE, Tone::Dim));
    let mut howto: Vec<Segment> = Vec::new();
    push_seg(&mut howto, lit(EMPTY_HOWTO, Tone::Muted));
    let ghost nv = note@.map_values(|x: Segment| x@);
    let ghost hv = howto@.map_values(|x: Segment| x@);
    rows.push(note);
    rows.push(howto);
    assert(rows@[0]@.map_values(|x: Segment| x@) =~= Seq::<(Seq<char>, Tone, bool)>::empty());
    assert(rows_view(rows@) =~= seq![Seq::<(Seq<char>, Tone, bool)>::empty(), nv, hv]);
    rows
}

/// The first line of the empty state.
pub const EMPTY_NOTE: &'static str = "  No sub-agents running. This tab is a read-only monitor.";

/// The second line of the empty state.
pub const EMPTY_HOWTO: &'static str = "  To run agents in parallel, ask the main agent to spawn sub-agents (e.g. \"spawn 3 agents to...\"). They appear here live while they run.";

/// The key-hint footer: key names in orange, their meaning muted.
pub fn hint_segments() -> (r: Vec<Segment>)
    ensures
        r@.map_values(|x: Segment| x@) == seq![
            seg(" ↑↓ "@, Tone::Orange), seg("select   "@, Tone::Muted),
            seg("⏎ "@, Tone::Orange), seg("expand feed   "@, Tone::Muted),
            seg("Esc "@, Tone::Orange), seg("collapse"@, Tone::Muted),
        ],
{
    let mut v: Vec<Segment> = Vec::new();
    push_seg(&mut v, lit(" ↑↓ ", Tone::Orange));
    push_seg(&mut v, lit("select   ", Tone::Muted));
    push_seg(&mut v, lit("⏎ ", Tone::Orange));
    push_seg(&mut v, lit("expand feed   ", Tone::Muted));
    push_seg(&mut v, lit("Esc ", Tone::Orange));
    push_seg(&mut v, lit("collapse", Tone::Muted));
    v
}

} // verus!
