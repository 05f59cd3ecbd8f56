//! Tool cards: the status glyph, the status chip, the one-line summary of
//! a tool call's arguments, and the two card layouts: a compact single
//! line, and a bordered card with the formatter's detail and a footer.

use vstd::prelude::*;
use crate::formatters::{detail_of, formatter_for, kind_for_key, dispatch_key, summary_of, Figures};
use crate::json::{json_field, json_str_field};
use crate::segment::{lit, push_seg, seg, Segment, Tone};
use crate::text::{append_str, chars_of, collapse_whitespace, collapse_ws, is_word, owned, push_char, slice_vec, string_from, trim, trim_chars};

verus! {

/// The lifecycle of a tool call.
#[derive(Debug, Clone, Copy, PartialEq, Eq, Structural)]
pub enum ToolCardStatus {
    AwaitingApproval,
    Running,
    Done,
    Failed,
    Cancelled,
}

/// The status glyph: `◐` running, `●` done, `○` cancelled, `⊘` awaiting
/// approval, `✗` failed.
pub open spec fn icon_of(s: ToolCardStatus) -> Seq<char> {
    match s {
        ToolCardStatus::Done => "●"@,
        ToolCardStatus::Failed => "✗"@,
        ToolCardStatus::Running => "◐"@,
        ToolCardStatus::AwaitingApproval => "⊘"@,
        ToolCardStatus::Cancelled => "○"@,
    }
}

/// The status glyph of a card.
pub fn status_icon(status: ToolCardStatus) -> (r: &'static str)
    ensures
        r@ == icon_of(status),
{
    match status {
        ToolCardStatus::Done => "●",
        ToolCardStatus::Failed => "✗",
        ToolCardStatus::Running => "◐",
        ToolCardStatus::AwaitingApproval => "⊘",
        ToolCardStatus::Cancelled => "○",
    }
}

/// The glyph when the stream may have stalled: a stalled running card is
/// `◑`; anything else keeps its status glyph.
pub fn status_icon_stalled(status: ToolCardStatus, stalled: bool) -> (r: &'static str)
    ensures
        r@ == if status == ToolCardStatus::Running && stalled { "◑"@ } else { icon_of(status) },
{
    match status {
        ToolCardStatus::Running => if stalled { "◑" } else { status_icon(status) },
        _ => status_icon(status),
    }
}

/// The accent role of a status.
pub fn status_tone(status: ToolCardStatus) -> (r: Tone)
    ensures
        r == match status {
            ToolCardStatus::AwaitingApproval => Tone::Warning,
            ToolCardStatus::Running => Tone::Orange,
            ToolCardStatus::Done => Tone::Success,
            ToolCardStatus::Failed => Tone::Error,
            ToolCardStatus::Cancelled => Tone::Muted,
        },
{
    match status {
        ToolCardStatus::AwaitingApproval => Tone::Warning,
        ToolCardStatus::Running => Tone::Orange,
        ToolCardStatus::Done => Tone::Success,
        ToolCardStatus::Failed => Tone::Error,
        ToolCardStatus::Cancelled => Tone::Muted,
    }
}

/// The status chip's text.
pub open spec fn chip_of(s: ToolCardStatus) -> Seq<char> {
    match s {
        ToolCardStatus::AwaitingApproval => "awaiting approval"@,
        ToolCardStatus::Running => "running"@,
        ToolCardStatus::Done => "done"@,
        ToolCardStatus::Failed => "error"@,
        ToolCardStatus::Cancelled => "cancelled"@,
    }
}

/// The short status chip shown on a card.
pub fn status_chip(status: ToolCardStatus) -> (r: String)
    ensures
        r@ == chip_of(status),
{
    match status {
        ToolCardStatus::AwaitingApproval => owned("awaiting approval"),
        ToolCardStatus::Running => owned("running"),
        ToolCardStatus::Done => owned("done"),
        ToolCardStatus::Failed => owned("error"),
        ToolCardStatus::Cancelled => owned("cancelled"),
    }
}

/// The one-line summary of a call's arguments on a `width`-column
/// terminal: nothing for empty, `{}` or `null` arguments; otherwise the
/// whitespace runs collapsed to single spaces, cut to a third of the width
/// (at least eight characters) with a trailing `…`.
pub open spec fn args_summary_of(input_pretty: Seq<char>, width: u16) -> Seq<char> {
    let t = trim(input_pretty);
    let max: nat = if width / 3 >= 8 { (width / 3) as nat } else { 8 };
    let c = collapse_ws(t);
    if t.len() == 0 || t == "{}"@ || t == "null"@ {
        Seq::empty()
    } else if c.len() <= max {
        c
    } else {
        c.take(max - 1) + seq!['…']
    }
}

/// Summarizes a call's pretty-printed arguments for a compact card.
pub fn args_summary(input_pretty: &str, terminal_width: u16) -> (r: String)
    ensures
        r@ == args_summary_of(input_pretty@, terminal_width),
{
    let t = trim_chars(chars_of(input_pretty).as_slice());
    if t.len() == 0 || is_word(t.as_slice(), "{}") || is_word(t.as_slice(), "null") {
        return String::new();
    }
    let third = (terminal_width / 3) as usize;
    let max: usize = if third >= 8 { third } else { 8 };
    let c = collapse_whitespace(t.as_slice());
    if c.len() <= max {
        string_from(c.as_slice())
    } else {
        let mut s = string_from(slice_vec(c.as_slice(), 0, max - 1).as_slice());
        push_char(&mut s, '…');
        s
    }
}

/// The payload text a card hands its formatter: its output, or the empty
/// text (read as JSON `null`) before there is one.
pub open spec fn payload_of(output: Option<Seq<char>>) -> Seq<char> {
    match output {
        Some(o) => o,
        None => Seq::empty(),
    }
}

/// The compact card: `<icon> <name>(<args>) · <summary>` on one line.
pub open spec fn compact_of(
    name: Seq<char>,
    status: ToolCardStatus,
    input_pretty: Seq<char>,
    width: u16,
    output: Option<Seq<char>>,
    f: (Seq<char>, Seq<char>, Option<Seq<char>>),
) -> Seq<(Seq<char>, Tone, bool)> {
    seq![
        seg(icon_of(status) + " "@, tone_of(status)),
        (name, Tone::Text, true),
        seg("("@ + args_summary_of(input_pretty, width) + ")"@, Tone::Dim),
        seg(" · "@, Tone::Muted),
        seg(summary_of(kind_for_key(dispatch_key(name)), payload_of(output), f), Tone::Dim),
    ]
}

/// The accent role of a status.
pub open spec fn tone_of(s: ToolCardStatus) -> Tone {
    match s {
        ToolCardStatus::AwaitingApproval => Tone::Warning,
        ToolCardStatus::Running => Tone::Orange,
        ToolCardStatus::Done => Tone::Success,
        ToolCardStatus::Failed => Tone::Error,
        ToolCardStatus::Cancelled => Tone::Muted,
    }
}

/// The compact card of a tool call on a `width`-column terminal.
pub fn compact_line(
    tool_name: &str,
    status: ToolCardStatus,
    input_pretty: &str,
    width: u16,
    output: Option<&str>,
    figures: &Figures,
) -> (r: Vec<Segment>)
    ensures
        r@.map_values(|x: Segment| x@) == compact_of(
            tool_name@, status, input_pretty@, width,
            match output { Some(o) => Some(o@), None => None }, figures@,
        ),
{
    let mut v: Vec<Segment> = Vec::new();
    let mut icon = owned(status_icon(status));
    append_str(&mut icon, " ");
    push_seg(&mut v, Segment { text: icon, tone: status_tone(status), bold: false });
    push_seg(&mut v, Segment { text: owned(tool_name), tone: Tone::Text, bold: true });
    let mut args = owned("(");
    let a = args_summary(input_pretty, width);
    append_str(&mut args, a.as_str());
    append_str(&mut args, ")");
    push_seg(&mut v, Segment { text: args, tone: Tone::Dim, bold: false });
    push_seg(&mut v, lit(" · ", Tone::Muted));
    let payload: &str = match output {
        Some(o) => o,
        None => {
            proof { reveal_strlit(""); }
            ""
        },
    };
    assert(payload@ == payload_of(match output { Some(o) => Some(o@), None => None }));
    let summary = formatter_for(tool_name).summary_line(payload, figures);
    push_seg(&mut v, Segment { text: summary, tone: Tone::Dim, bold: false });
    assert(v@.map_values(|x: Segment| x@) =~= compact_of(
        tool_name@, status, input_pretty@, width,
        match output { Some(o) => Some(o@), None => None }, figures@,
    ));
    v
}

/// The bordered card: its border role and its lines inside the border.
pub struct FullCard {
    pub border: Tone,
    pub lines: Vec<Vec<Segment>>,
}

/// The footer of a bordered card: the status chip, then the payload's
/// `provider` (else its `url`) when it has one.
pub open spec fn footer_of(status: ToolCardStatus, payload: Seq<char>) -> Seq<(Seq<char>, Tone, bool)> {
    let extra = match json_str_field(payload, "provider"@) {
        Some(p) => Some(p),
        None => json_str_field(payload, "url"@),
    };
    match extra {
        Some(x) => seq![seg(chip_of(status), Tone::Muted), seg(" · "@, Tone::Muted), seg(x, Tone::Muted)],
        None => seq![seg(chip_of(status), Tone::Muted)],
    }
}

/// The plain value of a list of lines.
pub open spec fn card_rows(v: Seq<Vec<Segment>>) -> Seq<Seq<(Seq<char>, Tone, bool)>> {
    v.map_values(|l: Vec<Segment>| l@.map_values(|x: Segment| x@))
}

/// The bordered card for an area with `inner_height` rows inside the
/// border: the header `<icon> <name>`, the formatter's detail rows cut to
/// leave room for the footer (`inner_height - 2` rows), and the footer
/// when a row is left for it. A running or awaiting card has the accent
/// border; a finished one recedes into the chrome border.
pub open spec fn full_of(
    name: Seq<char>,
    status: ToolCardStatus,
    output: Option<Seq<char>>,
    inner_height: u16,
) -> (Tone, Seq<Seq<(Seq<char>, Tone, bool)>>) {
    let p = payload_of(output);
    let border = match status {
        ToolCardStatus::Running | ToolCardStatus::AwaitingApproval => Tone::Orange,
        _ => Tone::Border,
    };
    let header = seq![seg(icon_of(status) + " "@, tone_of(status)), (name, Tone::Text, true)];
    let budget: nat = if inner_height >= 2 { (inner_height - 2) as nat } else { 0 };
    let detail = detail_of(kind_for_key(dispatch_key(name)), p);
    let body = seq![header] + (if detail.len() > budget { detail.take(budget as int) } else { detail })
        .map_values(|d: (Seq<char>, Tone, bool)| seq![d]);
    let lines = if inner_height == 0 {
        Seq::empty()
    } else if inner_height > body.len() {
        body.push(footer_of(status, p))
    } else {
        body
    };
    (border, lines)
}

fn footer(status: ToolCardStatus, payload: &str) -> (r: Vec<Segment>)
    ensures
        r@.map_values(|x: Segment| x@) == footer_of(status, payload@),
{
    let mut v: Vec<Segment> = Vec::new();
    push_seg(&mut v, Segment { text: status_chip(status), tone: Tone::Muted, bold: false });
    let extra = match json_field(payload, "provider") {
        Some(p) => Some(p),
        None => json_field(payload, "url"),
    };
    match extra {
        Some(x) => {
            push_seg(&mut v, lit(" · ", Tone::Muted));
            push_seg(&mut v, Segment { text: x, tone: Tone::Muted, bold: false });
        },
        None => {},
    }
    v
}

/// The bordered card of a tool call.
pub fn full_card(tool_name: &str, status: ToolCardStatus, output: Option<&str>, inner_height: u16) -> (r: FullCard)
    ensures
        (r.border, card_rows(r.lines@)) == full_of(tool_name@, status, match output { Some(o) => Some(o@), None => None }, inner_height),
{
    let border = match status {
        ToolCardStatus::Running | ToolCardStatus::AwaitingApproval => Tone::Orange,
        _ => Tone::Border,
    };
    let mut lines: Vec<Vec<Segment>> = Vec::new();
    if inner_height == 0 {
        assert(card_rows(lines@) =~= Seq::<Seq<(Seq<char>, Tone, bool)>>::empty());
        return FullCard { border, lines };
    }
    let payload: &str = match output {
        Some(o) => o,
        None => {
            proof { reveal_strlit(""); }
            ""
        },
    };
    assert(payload@ == payload_of(match output { Some(o) => Some(o@), None => None }));
    let mut header: Vec<Segment> = Vec::new();
    let mut icon = owned(status_icon(status));
    append_str(&mut icon, " ");
    push_seg(&mut header, Segment { text: icon, tone: status_tone(status), bold: false });
    push_seg(&mut header, Segment { text: owned(tool_name), tone: Tone::Text, bold: true });
    let ghost hv = header@.map_values(|x: Segment| x@);
    lines.push(header);
    let budget: usize = if inner_height >= 2 { (inner_height - 2) as usize } else { 0 };
    let mut detail = formatter_for(tool_name).detail_lines(payload);
    let ghost dv = detail@.map_values(|x: Segment| x@);
    detail.truncate(budget);
    let ghost cut = detail@.map_values(|x: Segment| x@);
    assert(cut =~= if dv.len() > budget { dv.take(budget as int) } else { dv });
    let mut i: usize = 0;
    while i < detail.len()
        invariant
            i <= detail.len(),
            cut == detail@.map_values(|x: Segment| x@),
            card_rows(lines@) == seq![hv] + cut.take(i as int).map_values(|d: (Seq<char>, Tone, bool)| seq![d]),
        decreases detail.len() - i,
    {
        let mut row: Vec<Segment> = Vec::new();
        let d = &detail[i];
        push_seg(&mut row, Segment { text: owned(d.text.as_str()), tone: d.tone, bold: d.bold });
        assert(row@.map_values(|x: Segment| x@) =~= seq![cut[i as int]]);
        let ghost before = card_rows(lines@);
        lines.push(row);
        assert(card_rows(lines@) =~= before.push(seq![cut[i as int]]));
        assert(cut.take(i + 1).map_values(|d: (Seq<char>, Tone, bool)| seq![d])
            =~= cut.take(i as int).map_values(|d: (Seq<char>, Tone, bool)| seq![d]).push(seq![cut[i as int]]));
        i += 1;
    }
    assert(cut.take(detail.len() as int) =~= cut);
    proof {
        assert(hv =~= seq![seg(icon_of(status) + " "@, tone_of(status)), (tool_name@, Tone::Text, true)]);
        assert(card_rows(lines@).len() == 1 + cut.len());
    }
    if (inner_height as usize) > lines.len() {
        let f = footer(status, payload);
        let ghost before = card_rows(lines@);
        let ghost fv = f@.map_values(|x: Segment| x@);
        lines.push(f);
        assert(card_rows(lines@) =~= before.push(fv));
    }
    FullCard { border, lines }
}

} // verus!
