//! The user-defined status line: its settings-file-only configuration, the
//! last-good cache the status bar reads, and the sanitizer that keeps a
//! command's output to one line of printable text.

use vstd::prelude::*;
use crate::text::{chars_of, is_control, is_ctrl, lines_of, push_char, split_lines};

verus! {

/// Settings-file-only configuration: the user's shell command, or `None`
/// for the default bar.
#[derive(Debug, Clone, Default)]
pub struct StatusLineConfig {
    pub command: Option<String>,
}

/// The last-good status line and when it was refreshed (monotonic ms).
#[derive(Debug, Clone, Default)]
pub struct StatusLineCache {
    pub line: Option<String>,
    pub updated_at: Option<u64>,
}

impl StatusLineCache {
    /// An empty cache: nothing published yet.
    pub fn new() -> (r: Self)
        ensures
            r.line is None,
            r.updated_at is None,
    {
        StatusLineCache { line: None, updated_at: None }
    }

    /// Records a freshly sanitized line.
    pub fn publish(&mut self, line: String, now_ms: u64)
        ensures
            final(self).line == Some(line),
            final(self).updated_at == Some(now_ms),
    {
        self.line = Some(line);
        self.updated_at = Some(now_ms);
    }
}

/// The characters of `s` that are not control characters.
pub open spec fn printable(s: Seq<char>) -> Seq<char>
    decreases s.len(),
{
    if s.len() == 0 {
        Seq::empty()
    } else if is_ctrl(s.last()) {
        printable(s.drop_last())
    } else {
        printable(s.drop_last()).push(s.last())
    }
}

/// The first line of `raw` (empty when there is none), without control
/// characters.
pub open spec fn sanitized(raw: Seq<char>) -> Seq<char> {
    let ls = lines_of(raw);
    printable(if ls.len() > 0 { ls[0] } else { Seq::empty() })
}

/// Keeps only the first line of a status command's output and drops every
/// control character (ESC, CSI, BEL, tab and the other C0/C1 controls), so
/// the command cannot inject escapes or move the cursor.
pub fn sanitize_status_output(raw: &str) -> (r: String)
    ensures
        r@ == sanitized(raw@),
{
    let cs = chars_of(raw);
    let ls = split_lines(cs.as_slice());
    let ghost lv = ls@.map_values(|x: Vec<char>| x@);
    let mut out = String::new();
    if ls.len() == 0 {
        return out;
    }
    let first = &ls[0];
    assert(lv[0] == first@);
    let mut i: usize = 0;
    while i < first.len()
        invariant
            i <= first.len(),
            out@ == printable(first@.take(i as int)),
        decreases first.len() - i,
    {
        assert(first@.take(i + 1).drop_last() =~= first@.take(i as int));
        let c = first[i];
        if !is_control(c) {
            push_char(&mut out, c);
        }
        i += 1;
    }
    assert(first@.take(first.len() as int) =~= first@);
    out
}

/// Sanitizing is idempotent: a sanitized line is one printable line.
pub proof fn law_printable_idempotent(s: Seq<char>)
    ensures
        printable(printable(s)) == printable(s),
        forall|i: int| 0 <= i < printable(s).len() ==> !is_ctrl(#[trigger] printable(s)[i]),
    decreases s.len(),
{
    if s.len() > 0 {
        law_printable_idempotent(s.drop_last());
        let p = printable(s.drop_last());
        if !is_ctrl(s.last()) {
            assert(p.push(s.last()).drop_last() =~= p);
        }
    }
}

/// A line with no control character is its own only line.
proof fn lemma_lines_of_plain(s: Seq<char>)
    requires
        forall|i: int| 0 <= i < s.len() ==> !is_ctrl(#[trigger] s[i]),
    ensures
        s.len() > 0 ==> lines_of(s) == seq![s],
        s.len() == 0 ==> lines_of(s).len() == 0,
{
    if s.len() > 0 {
        crate::text::lemma_first_where(s, |c: char| c == '\n', s.len() as int);
        assert(s.len() == 0 || !(s.last() == '\r'));
    }
}

/// Sanitizing is idempotent: a sanitized status line comes back
/// unchanged.
pub proof fn law_sanitize_idempotent(raw: Seq<char>)
    ensures
        sanitized(sanitized(raw)) == sanitized(raw),
{
    let once = sanitized(raw);
    let ls = lines_of(raw);
    law_printable_idempotent(if ls.len() > 0 { ls[0] } else { Seq::empty() });
    lemma_lines_of_plain(once);
    if once.len() > 0 {
        assert(lines_of(once)[0] == once);
    } else {
        assert(printable(Seq::<char>::empty()) == Seq::<char>::empty());
    }
}

} // verus!
