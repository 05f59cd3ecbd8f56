//! The text of the permission cards for three tools: file edits, monitors,
//! and the fallback for any tool without a card of its own. A card is an
//! icon, a title, a body and a key row; a bare Enter approves once.

use vstd::prelude::*;
use crate::diff::{diff_rows, row_text, text_diff, DiffKind};
use crate::json::{json_field, json_str_field};
use crate::segment::{lit, push_seg, seg, Segment, Tone};
use crate::text::{
    append_str, chars_of, decimal, lines_of, owned, split_lines, string_from, trim, trim_chars,
    u64_decimal,
};

verus! {

/// What a bare Enter does on a card.
#[derive(Debug, Clone, Copy, PartialEq, Eq, Structural)]
pub enum ApprovalAction {
    /// Approve this one call.
    ApproveOnce,
    /// Approve and remember an allow-rule.
    ApproveAlways,
    /// Deny the call.
    Deny,
}

// --- outside calls ----------------------------------------------------------

/// The final component of the path `p`, as `std::path::Path::file_name`
/// finds it (`None` for a path ending in `..`, or for the root).
pub uninterp spec fn path_file_name(p: Seq<char>) -> Option<Seq<char>>;

/// `std::path::Path::file_name`, as text.
#[verifier::external_body]
pub(crate) fn file_name(path: &str) -> (r: Option<String>)
    ensures
        match r {
            Some(v) => path_file_name(path@) == Some(v@),
            None => path_file_name(path@) is None,
        },
{
    std::path::Path::new(path).file_name().and_then(|n| n.to_str()).map(|s| s.to_string())
}

/// `path` relative to `base`, as `std::path::Path::strip_prefix` finds it
/// (whole components; `None` when `base` is not a prefix).
pub uninterp spec fn path_strip_prefix(path: Seq<char>, base: Seq<char>) -> Option<Seq<char>>;

/// `std::path::Path::strip_prefix`, as text (`None` also when the rest is
/// not valid UTF-8, which text never lacks).
#[verifier::external_body]
fn strip_prefix(path: &str, base: &str) -> (r: Option<String>)
    ensures
        match r {
            Some(v) => path_strip_prefix(path@, base@) == Some(v@),
            None => path_strip_prefix(path@, base@) is None,
        },
{
    std::path::Path::new(path).strip_prefix(base).ok().and_then(|p| p.to_str()).map(|s| s.to_string())
}

/// `path` relative to the working directory `cwd` when it lies under it
/// (and is not the directory itself); otherwise `path` unchanged.
pub open spec fn cwd_relative_of(path: Seq<char>, cwd: Option<Seq<char>>) -> Seq<char> {
    match cwd {
        Some(c) => match path_strip_prefix(path, c) {
            Some(rel) => if rel.len() > 0 { rel } else { path },
            None => path,
        },
        None => path,
    }
}

/// The path shown under an edit title: relative to the working directory
/// when it can be.
pub fn cwd_relative(path: &str, cwd: Option<&str>) -> (r: String)
    ensures
        r@ == cwd_relative_of(path@, match cwd { Some(c) => Some(c@), None => None }),
{
    match cwd {
        Some(c) => match strip_prefix(path, c) {
            Some(rel) => if rel.as_str().is_empty() { owned(path) } else { rel },
            None => owned(path),
        },
        None => owned(path),
    }
}

// --- shared pieces ----------------------------------------------------------

/// `… (N more lines · ctrl+f to expand)`.
pub open spec fn more_lines_text(n: nat) -> Seq<char> {
    "… ("@ + decimal(n) + " more lines · ctrl+f to expand)"@
}

/// The note closing a clamped body that hides `remaining` lines.
pub fn more_lines_note(remaining: usize) -> (r: String)
    ensures
        r@ == more_lines_text(remaining as nat),
{
    let mut s = owned("… (");
    let d = u64_decimal(remaining as u64);
    append_str(&mut s, d.as_str());
    append_str(&mut s, " more lines · ctrl+f to expand)");
    s
}

/// How many of `total` body lines a card shows under a clamp of `limit`,
/// and how many it hides: all of them when expanded or within the clamp.
pub fn clamp_count(total: usize, limit: usize, expanded: bool) -> (r: (usize, usize))
    ensures
        r == (if expanded || total <= limit { (total, 0usize) } else { (limit, (total - limit) as usize) }),
{
    if expanded || total <= limit {
        (total, 0)
    } else {
        (limit, total - limit)
    }
}

/// `ls` clamped to `limit` lines and closed by the expand note, unless
/// expanded or already short enough.
pub open spec fn clamped(ls: Seq<Seq<char>>, limit: nat, expanded: bool) -> Seq<Seq<char>> {
    if expanded || ls.len() <= limit {
        ls
    } else {
        ls.take(limit as int).push(more_lines_text((ls.len() - limit) as nat))
    }
}

/// Clamps a body to `limit` lines with the expand note.
pub fn clamp_lines(lines: Vec<String>, limit: usize, expanded: bool) -> (r: Vec<String>)
    ensures
        r@.map_values(|s: String| s@) == clamped(lines@.map_values(|s: String| s@), limit as nat, expanded),
{
    if expanded || lines.len() <= limit {
        return lines;
    }
    let total = lines.len();
    let ghost lv = lines@.map_values(|s: String| s@);
    let mut out = lines;
    out.truncate(limit);
    assert(out@.map_values(|s: String| s@) =~= lv.take(limit as int));
    out.push(more_lines_note(total - limit));
    assert(out@.map_values(|s: String| s@) =~= lv.take(limit as int).push(more_lines_text((total - limit) as nat)));
    out
}

/// The `[ctrl+f]` key label.
pub open spec fn expand_label(expanded: bool) -> Seq<char> {
    if expanded { "[ctrl+f] collapse"@ } else { "[ctrl+f] expand"@ }
}

fn expand_key(expanded: bool) -> (r: &'static str)
    ensures
        r@ == expand_label(expanded),
{
    if expanded { "[ctrl+f] collapse" } else { "[ctrl+f] expand" }
}

/// `line`, trimmed, when that is not empty.
pub open spec fn nonblank(line: Option<Seq<char>>) -> Option<Seq<char>> {
    match line {
        Some(t) => if trim(t).len() > 0 { Some(trim(t)) } else { None },
        None => None,
    }
}

fn trimmed(s: &str) -> (r: String)
    ensures
        r@ == trim(s@),
{
    string_from(trim_chars(chars_of(s).as_slice()).as_slice())
}

// --- file edits -------------------------------------------------------------

/// The file-edit card.
#[derive(Debug, Clone, Copy)]
pub struct FileEditComponent;

/// A file-edit body longer than this is clamped.
pub const EDIT_CLAMP: usize = 12;

/// The display name of an edit target: its file name, else the whole
/// path, else `file` for an empty path.
pub open spec fn basename_of(path: Seq<char>) -> Seq<char> {
    match path_file_name(path) {
        Some(n) => if n.len() > 0 { n } else if path.len() == 0 { "file"@ } else { path },
        None => if path.len() == 0 { "file"@ } else { path },
    }
}

/// The display name of an edit target.
pub fn basename(path: &str) -> (r: String)
    ensures
        r@ == basename_of(path@),
{
    match file_name(path) {
        Some(n) => {
            if n.as_str().is_empty() {
                if path.is_empty() { owned("file") } else { owned(path) }
            } else {
                n
            }
        },
        None => if path.is_empty() { owned("file") } else { owned(path) },
    }
}

/// The edit target from a preview path and the args.
pub open spec fn edit_path_of(preview_path: Option<Seq<char>>, input_pretty: Seq<char>) -> Seq<char> {
    match preview_path {
        Some(p) if p.len() > 0 => p,
        _ => match json_str_field(input_pretty, "file_path"@) {
            Some(f) => f,
            None => Seq::empty(),
        },
    }
}

/// The file-edit body for a preview `(old, new)`.
pub open spec fn edit_body_of(preview: Option<(Seq<char>, Seq<char>)>, expanded: bool) -> Seq<Seq<char>> {
    match preview {
        Some((o, n)) => clamped(
            text_diff(o, n).map_values(|l: (DiffKind, Seq<char>)| row_text(l)),
            EDIT_CLAMP as nat,
            expanded,
        ),
        None => seq!["(no preview)"@],
    }
}

impl FileEditComponent {
    pub fn icon(&self) -> (r: &'static str)
        ensures
            r@ == "✎"@,
    {
        "✎"
    }

    pub fn default_action(&self) -> (r: ApprovalAction)
        ensures
            r == ApprovalAction::ApproveOnce,
    {
        ApprovalAction::ApproveOnce
    }

    /// The edit target: the preview's path when it has one, else the
    /// `file_path` field of the args, else empty.
    pub fn edit_path(preview_path: Option<&str>, input_pretty: &str) -> (r: String)
        ensures
            r@ == edit_path_of(match preview_path { Some(p) => Some(p@), None => None }, input_pretty@),
    {
        match preview_path {
            Some(p) => {
                if !p.is_empty() {
                    return owned(p);
                }
            },
            None => {},
        }
        match json_field(input_pretty, "file_path") {
            Some(f) => f,
            None => {
                proof { reveal_strlit(""); }
                owned("")
            },
        }
    }

    /// The body: the rows of the preview diff, clamped to [`EDIT_CLAMP`]
    /// unless expanded, or a single `(no preview)` note without one.
    pub fn body(preview: Option<(&str, &str)>, expanded: bool) -> (r: Vec<String>)
        ensures
            r@.map_values(|s: String| s@) == edit_body_of(
                match preview { Some((o, n)) => Some((o@, n@)), None => None },
                expanded,
            ),
    {
        match preview {
            Some((old, new)) => clamp_lines(diff_rows(old, new), EDIT_CLAMP, expanded),
            None => {
                let mut v: Vec<String> = Vec::new();
                v.push(owned("(no preview)"));
                assert(v@.map_values(|s: String| s@) =~= seq!["(no preview)"@]);
                v
            },
        }
    }

    /// The title line: `Make this edit to <name>` in bold, then the dim
    /// path relative to the working directory `cwd`.
    pub fn title(&self, path: &str, cwd: Option<&str>) -> (r: Vec<Segment>)
        ensures
            r@.map_values(|x: Segment| x@) == seq![
                ("Make this edit to "@ + basename_of(path@), Tone::Text, true),
                seg("  "@ + cwd_relative_of(path@, match cwd { Some(c) => Some(c@), None => None }), Tone::Dim),
            ],
    {
        let mut v: Vec<Segment> = Vec::new();
        push_seg(&mut v, Segment { text: self.title_text(path), tone: Tone::Text, bold: true });
        let mut rel = owned("  ");
        let r = cwd_relative(path, cwd);
        append_str(&mut rel, r.as_str());
        push_seg(&mut v, Segment { text: rel, tone: Tone::Dim, bold: false });
        v
    }

    /// `Make this edit to <name>`.
    pub fn title_text(&self, path: &str) -> (r: String)
        ensures
            r@ == "Make this edit to "@ + basename_of(path@),
    {
        let mut s = owned("Make this edit to ");
        let b = basename(path);
        append_str(&mut s, b.as_str());
        s
    }

    /// The key row; `[a] always` shows only when allow-rules may be added.
    pub fn keys_text(&self, always_allow_available: bool, expanded: bool) -> (r: String)
        ensures
            r@ == "[enter/y] approve"@ + (if always_allow_available { "   [a] always for this tool"@ } else { Seq::empty() })
                + "   [n] deny   [esc] cancel   "@ + expand_label(expanded),
    {
        let mut s = owned("[enter/y] approve");
        let ghost s0 = s@;
        if always_allow_available {
            append_str(&mut s, "   [a] always for this tool");
        } else {
            assert(s0 + Seq::<char>::empty() =~= s0);
        }
        append_str(&mut s, "   [n] deny   [esc] cancel   ");
        append_str(&mut s, expand_key(expanded));
        s
    }
}

// --- monitors ---------------------------------------------------------------

/// The monitor card.
#[derive(Debug, Clone, Copy)]
pub struct MonitorComponent;

/// The watched target: the args' `target` field when it is not blank,
/// else the card summary, trimmed.
pub open spec fn monitor_target_of(input_pretty: Seq<char>, summary: Seq<char>) -> Seq<char> {
    match nonblank(json_str_field(input_pretty, "target"@)) {
        Some(t) => t,
        None => trim(summary),
    }
}

impl MonitorComponent {
    pub fn icon(&self) -> (r: &'static str)
        ensures
            r@ == "◉"@,
    {
        "◉"
    }

    pub fn default_action(&self) -> (r: ApprovalAction)
        ensures
            r == ApprovalAction::ApproveOnce,
    {
        ApprovalAction::ApproveOnce
    }

    /// The watched target, from the args or the summary.
    pub fn target(input_pretty: &str, summary: &str) -> (r: String)
        ensures
            r@ == monitor_target_of(input_pretty@, summary@),
    {
        match json_field(input_pretty, "target") {
            Some(t) => {
                let tt = trimmed(t.as_str());
                if tt.as_str().is_empty() { trimmed(summary) } else { tt }
            },
            None => trimmed(summary),
        }
    }

    /// The polling cadence from the args, when present and not blank.
    pub fn cadence(input_pretty: &str) -> (r: Option<String>)
        ensures
            match r {
                Some(c) => nonblank(json_str_field(input_pretty@, "cadence"@)) == Some(c@),
                None => nonblank(json_str_field(input_pretty@, "cadence"@)) is None,
            },
    {
        match json_field(input_pretty, "cadence") {
            Some(c) => {
                let t = trimmed(c.as_str());
                if t.as_str().is_empty() { None } else { Some(t) }
            },
            None => None,
        }
    }

    /// The body: the target in primary text when there is one, then the
    /// cadence as a muted note when there is one.
    pub fn body(input_pretty: &str, summary: &str) -> (r: Vec<Segment>)
        ensures
            r@.map_values(|x: Segment| x@) ==
                (if monitor_target_of(input_pretty@, summary@).len() > 0 {
                    seq![seg(monitor_target_of(input_pretty@, summary@), Tone::Text)]
                } else {
                    Seq::empty()
                }) + match nonblank(json_str_field(input_pretty@, "cadence"@)) {
                    Some(c) => seq![seg(c, Tone::Muted)],
                    None => Seq::empty(),
                },
    {
        let mut out: Vec<Segment> = Vec::new();
        let t = Self::target(input_pretty, summary);
        if !t.as_str().is_empty() {
            push_seg(&mut out, lit(t.as_str(), Tone::Text));
        }
        let ghost head = out@.map_values(|x: Segment| x@);
        match Self::cadence(input_pretty) {
            Some(c) => {
                push_seg(&mut out, lit(c.as_str(), Tone::Muted));
            },
            None => {
                assert(head + Seq::<(Seq<char>, Tone, bool)>::empty() =~= head);
            },
        }
        proof {
            if monitor_target_of(input_pretty@, summary@).len() == 0 {
                assert(head =~= Seq::<(Seq<char>, Tone, bool)>::empty());
            }
        }
        out
    }

    /// `Monitor <target>`, or `Monitor` without one.
    pub fn title_text(target: &str) -> (r: String)
        ensures
            r@ == if target@.len() == 0 { "Monitor"@ } else { "Monitor "@ + target@ },
    {
        if target.is_empty() {
            owned("Monitor")
        } else {
            let mut s = owned("Monitor ");
            append_str(&mut s, target);
            s
        }
    }

    /// The key row.
    pub fn keys_text(&self) -> (r: String)
        ensures
            r@ == "[enter/y] approve   [a] always for this tool   [n] deny   [esc] cancel"@,
    {
        owned("[enter/y] approve   [a] always for this tool   [n] deny   [esc] cancel")
    }
}

// --- the fallback -----------------------------------------------------------

/// The card for a tool without one of its own.
#[derive(Debug, Clone, Copy)]
pub struct FallbackComponent;

/// A fallback body longer than this is clamped.
pub const FALLBACK_CLAMP: usize = 10;

/// The fallback body: the trimmed args, line by line, clamped unless
/// expanded, then the approval reason when it is not blank.
pub open spec fn fallback_body_of(input_pretty: Seq<char>, reason: Seq<char>, expanded: bool) -> Seq<Seq<char>> {
    let ls = lines_of(trim(input_pretty));
    (if expanded || ls.len() <= FALLBACK_CLAMP {
        ls
    } else {
        ls.take(FALLBACK_CLAMP as int).push(more_lines_text((ls.len() - FALLBACK_CLAMP) as nat))
    }) + if trim(reason).len() > 0 { seq![reason] } else { Seq::empty() }
}

impl FallbackComponent {
    pub fn icon(&self) -> (r: &'static str)
        ensures
            r@ == "⊘"@,
    {
        "⊘"
    }

    pub fn default_action(&self) -> (r: ApprovalAction)
        ensures
            r == ApprovalAction::ApproveOnce,
    {
        ApprovalAction::ApproveOnce
    }

    /// `Allow <tool>`.
    pub fn title_text(tool_name: &str) -> (r: String)
        ensures
            r@ == "Allow "@ + tool_name@,
    {
        let mut s = owned("Allow ");
        append_str(&mut s, tool_name);
        s
    }

    /// The body lines: never a raw dump of more than ten argument lines
    /// unless expanded.
    pub fn body_lines(input_pretty: &str, approval_reason: &str, expanded: bool) -> (r: Vec<String>)
        ensures
            r@.map_values(|s: String| s@) == fallback_body_of(input_pretty@, approval_reason@, expanded),
    {
        let t = trim_chars(chars_of(input_pretty).as_slice());
        let ls = split_lines(t.as_slice());
        let ghost lv = ls@.map_values(|x: Vec<char>| x@);
        let (shown, remaining) = clamp_count(ls.len(), FALLBACK_CLAMP, expanded);
        let mut out: Vec<String> = Vec::new();
        let mut i: usize = 0;
        while i < shown
            invariant
                i <= shown <= ls.len(),
                lv == ls@.map_values(|x: Vec<char>| x@),
                out@.map_values(|s: String| s@) == lv.take(i as int),
            decreases shown - i,
        {
            let line = string_from(ls[i].as_slice());
            let ghost before = out@.map_values(|s: String| s@);
            out.push(line);
            assert(out@.map_values(|s: String| s@) =~= before.push(lv[i as int]));
            assert(lv.take(i + 1) =~= lv.take(i as int).push(lv[i as int]));
            i += 1;
        }
        let ghost head = out@.map_values(|s: String| s@);
        if shown < ls.len() {
            out.push(more_lines_note(remaining));
            assert(out@.map_values(|s: String| s@) =~= head.push(more_lines_text(remaining as nat)));
        } else {
            assert(lv.take(shown as int) =~= lv);
        }
        let ghost body = out@.map_values(|s: String| s@);
        let rt = trim_chars(chars_of(approval_reason).as_slice());
        if rt.len() > 0 {
            out.push(owned(approval_reason));
            assert(out@.map_values(|s: String| s@) =~= body + seq![approval_reason@]);
        } else {
            assert(body + Seq::<Seq<char>>::empty() =~= body);
        }
        out
    }

    /// The key row.
    pub fn keys_text(&self, expanded: bool) -> (r: String)
        ensures
            r@ == "[enter/y] approve   [a] always for this tool   [n] deny   [esc] cancel   "@ + expand_label(expanded),
    {
        let mut s = owned("[enter/y] approve   [a] always for this tool   [n] deny   [esc] cancel   ");
        append_str(&mut s, expand_key(expanded));
        s
    }
}

} // verus!
