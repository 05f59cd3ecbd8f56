//! Streaming-safe markdown split point.
//!
//! When markdown streams in chunks, rendering a partial buffer mid-fence
//! or mid-link flickers. [`last_safe_split_point`] walks the bytes as a
//! small state machine and returns the offset just after the last newline
//! at which every tracked construct (fenced code, inline code, link text,
//! link url, table row) is closed.

use vstd::prelude::*;
use vstd::string::StringSliceAdditionalSpecFns;

verus! {

/// Where the scanner stands inside a markdown link.
#[derive(Clone, Copy, PartialEq, Eq, Structural, Debug)]
pub enum LinkState {
    Closed,
    InText,
    InUrl,
}

/// The scanner's state between bytes.
pub struct ScanState {
    pub fence_open: bool,
    /// The byte (`` ` `` or `~`) that opened the fence.
    pub fence_char: u8,
    pub inline_code_open: bool,
    pub link: LinkState,
    pub table_line_open: bool,
    /// Only whitespace seen on the current line so far.
    pub at_line_start: bool,
    /// Offset just after the last newline where everything was closed.
    pub last_safe: nat,
}

/// The state before the first byte.
pub open spec fn initial() -> ScanState {
    ScanState {
        fence_open: false,
        fence_char: 0,
        inline_code_open: false,
        link: LinkState::Closed,
        table_line_open: false,
        at_line_start: true,
        last_safe: 0,
    }
}

/// The first position at or after `i` whose byte is not `c`.
pub open spec fn run_end(b: Seq<u8>, i: int, c: u8) -> int
    decreases b.len() - i,
{
    if 0 <= i < b.len() && b[i] == c { run_end(b, i + 1, c) } else { i }
}

/// One scanner step at position `i`: the next position and state.
pub open spec fn step(b: Seq<u8>, i: int, st: ScanState) -> (int, ScanState) {
    let c = b[i];
    let n = b.len();
    if st.fence_open {
        if c == 10 {
            (i + 1, ScanState { at_line_start: true, ..st })
        } else if st.at_line_start && (c == 32 || c == 9) {
            (i + 1, st)
        } else if st.at_line_start && c == st.fence_char && run_end(b, i, c) - i >= 3 {
            (run_end(b, i, c), ScanState { fence_open: false, fence_char: 0, at_line_start: false, ..st })
        } else {
            (i + 1, ScanState { at_line_start: false, ..st })
        }
    } else if st.inline_code_open {
        if c == 96 {
            (i + 1, ScanState { inline_code_open: false, ..st })
        } else if c == 10 {
            (i + 1, ScanState { at_line_start: true, ..st })
        } else {
            (i + 1, ScanState { at_line_start: false, ..st })
        }
    } else if c == 10 {
        let safe = st.link == LinkState::Closed;
        (i + 1, ScanState {
            table_line_open: false,
            at_line_start: true,
            last_safe: if safe { (i + 1) as nat } else { st.last_safe },
            ..st
        })
    } else if st.at_line_start && (c == 32 || c == 9 || c == 13) {
        (i + 1, st)
    } else if st.at_line_start && (c == 96 || c == 126) {
        if run_end(b, i, c) - i >= 3 {
            (run_end(b, i, c), ScanState { fence_open: true, fence_char: c, at_line_start: false, ..st })
        } else if c == 96 {
            (i + 1, ScanState { inline_code_open: true, at_line_start: false, ..st })
        } else {
            (i + 1, ScanState { at_line_start: false, ..st })
        }
    } else if st.at_line_start && c == 124 {
        (i + 1, ScanState { table_line_open: true, at_line_start: false, ..st })
    } else if c == 96 {
        (i + 1, ScanState { inline_code_open: true, at_line_start: false, ..st })
    } else if st.link == LinkState::Closed && c == 91 {
        (i + 1, ScanState { link: LinkState::InText, at_line_start: false, ..st })
    } else if st.link == LinkState::InText && c == 93 {
        if i + 1 < n && b[i + 1] == 40 {
            (i + 2, ScanState { link: LinkState::InUrl, at_line_start: false, ..st })
        } else {
            (i + 1, ScanState { link: LinkState::Closed, at_line_start: false, ..st })
        }
    } else if st.link == LinkState::InUrl && c == 41 {
        (i + 1, ScanState { link: LinkState::Closed, at_line_start: false, ..st })
    } else {
        (i + 1, ScanState { at_line_start: false, ..st })
    }
}

/// The scanner's state after running from position `i` to the end.
pub open spec fn scan(b: Seq<u8>, i: int, st: ScanState) -> ScanState
    decreases b.len() - i,
{
    if i < 0 || i >= b.len() {
        st
    } else {
        let (j, st2) = step(b, i, st);
        if i < j <= b.len() { scan(b, j, st2) } else { st }
    }
}

/// Every tracked construct is closed.
pub open spec fn all_closed(st: ScanState) -> bool {
    !st.fence_open && !st.inline_code_open && st.link == LinkState::Closed && !st.table_line_open
}

/// The split point of the UTF-8 bytes `b`: the whole length when the end
/// is safe, else the last safe newline boundary (0 when there is none).
pub open spec fn split_point_of(b: Seq<u8>) -> nat {
    if b.len() == 0 {
        0
    } else {
        let f = scan(b, 0, initial());
        if all_closed(f) { b.len() } else { f.last_safe }
    }
}

proof fn lemma_run_end(b: Seq<u8>, i: int, c: u8)
    requires
        0 <= i <= b.len(),
    ensures
        i <= run_end(b, i, c) <= b.len(),
        forall|k: int| i <= k < run_end(b, i, c) ==> b[k] == c,
    decreases b.len() - i,
{
    if i < b.len() && b[i] == c {
        lemma_run_end(b, i + 1, c);
    }
}

/// An open fence was opened by a backtick or a tilde.
spec fn fence_ok(st: ScanState) -> bool {
    st.fence_open ==> (st.fence_char == 96 || st.fence_char == 126)
}

/// The recorded safe point lies behind position `i`, and when it lies
/// exactly at `i` every construct is closed.
spec fn safe_inv(i: int, st: ScanState) -> bool {
    &&& st.last_safe <= i
    &&& (st.last_safe == i && i > 0 ==> all_closed(st))
}

proof fn lemma_step_facts(b: Seq<u8>, i: int, st: ScanState)
    requires
        0 <= i < b.len(),
        fence_ok(st),
        safe_inv(i, st),
    ensures
        i < step(b, i, st).0 <= b.len(),
        fence_ok(step(b, i, st).1),
        safe_inv(step(b, i, st).0, step(b, i, st).1),
        step(b, i, st).1.last_safe == st.last_safe || step(b, i, st).1.last_safe == i + 1,
{
    lemma_run_end(b, i, b[i]);
    lemma_run_end(b, i + 1, b[i]);
}

/// Scanning on only moves the safe point forward, past the start.
proof fn lemma_scan_safe_point(b: Seq<u8>, i: int, st: ScanState)
    requires
        0 <= i <= b.len(),
        fence_ok(st),
        safe_inv(i, st),
    ensures
        scan(b, i, st).last_safe == st.last_safe || scan(b, i, st).last_safe > i,
    decreases b.len() - i,
{
    if i < b.len() {
        lemma_step_facts(b, i, st);
        let (j, st2) = step(b, i, st);
        lemma_scan_safe_point(b, j, st2);
    }
}

/// A run of a non-newline byte stops before a newline at `r - 1`, the same
/// in `b` and in its first `r` bytes.
proof fn lemma_run_end_prefix(b: Seq<u8>, r: int, i: int, c: u8)
    requires
        0 <= i < r <= b.len(),
        b[r - 1] == 10,
        c != 10,
    ensures
        run_end(b.subrange(0, r), i, c) == run_end(b, i, c),
        run_end(b, i, c) < r,
    decreases r - i,
{
    let p = b.subrange(0, r);
    assert(p[i] == b[i]);
    if b[i] == c {
        lemma_run_end_prefix(b, r, i + 1, c);
    }
}

/// Up to a newline boundary `r`, scanning `b` and scanning its first `r`
/// bytes go through the same states; the state reached at `r` is returned.
proof fn lemma_prefix_scan(b: Seq<u8>, r: int, i: int, st: ScanState) -> (at_r: ScanState)
    requires
        0 <= i <= r < b.len(),
        0 < r,
        b[r - 1] == 10,
        fence_ok(st),
        safe_inv(i, st),
    ensures
        scan(b, i, st) == scan(b, r, at_r),
        scan(b.subrange(0, r), i, st) == at_r,
        fence_ok(at_r),
        safe_inv(r, at_r),
    decreases r - i,
{
    let p = b.subrange(0, r);
    if i == r {
        st
    } else {
        lemma_step_facts(b, i, st);
        let c = b[i];
        assert(p[i] == c);
        if i + 1 < r {
            assert(p[i + 1] == b[i + 1]);
        }
        if c != 10 {
            lemma_run_end_prefix(b, r, i, c);
        }
        assert(step(p, i, st) == step(b, i, st));
        let (j, st2) = step(b, i, st);
        assert(j <= r);
        lemma_prefix_scan(b, r, j, st2)
    }
}

/// Law: the safe prefix renders whole. Cutting the bytes at their split
/// point leaves a prefix whose own split point is its full length.
pub proof fn law_safe_prefix_is_whole(b: Seq<u8>)
    ensures
        split_point_of(b.subrange(0, split_point_of(b) as int)) == split_point_of(b),
{
    let r = split_point_of(b) as int;
    if b.len() == 0 {
    } else {
        let f = scan(b, 0, initial());
        if all_closed(f) {
            assert(b.subrange(0, b.len() as int) == b);
        } else if r == 0 {
            assert(b.subrange(0, 0).len() == 0);
        } else {
            lemma_last_safe_is_newline(b, 0, initial());
            lemma_scan_safe_point(b, 0, initial());
            let at_r = lemma_prefix_scan(b, r, 0, initial());
            lemma_scan_safe_point(b, r, at_r);
            assert(at_r.last_safe == r);
        }
    }
}

/// The final safe point is either untouched or just after a newline.
proof fn lemma_last_safe_is_newline(b: Seq<u8>, i: int, st: ScanState)
    requires
        0 <= i <= b.len(),
        st.last_safe <= i,
        st.last_safe == 0 || (st.last_safe <= b.len() && b[st.last_safe - 1] == 10),
        fence_ok(st),
        safe_inv(i, st),
    ensures
        scan(b, i, st).last_safe <= b.len(),
        scan(b, i, st).last_safe == 0 || b[scan(b, i, st).last_safe - 1] == 10,
        safe_inv(b.len() as int, scan(b, i, st)),
    decreases b.len() - i,
{
    if i < b.len() {
        lemma_step_facts(b, i, st);
        let (j, st2) = step(b, i, st);
        lemma_last_safe_is_newline(b, j, st2);
    }
}

/// `b` holds the byte `c` at no position from `lo` on other than `except`.
pub open spec fn byte_absent(b: Seq<u8>, c: u8, lo: int, except: int) -> bool {
    forall|q: int| lo <= q < b.len() && q != except ==> #[trigger] b[q] != c
}

proof fn lemma_scan_unfold(b: Seq<u8>, i: int, st: ScanState)
    requires
        0 <= i < b.len(),
        fence_ok(st),
        safe_inv(i, st),
    ensures
        scan(b, i, st) == scan(b, step(b, i, st).0, step(b, i, st).1),
{
    lemma_step_facts(b, i, st);
}

/// With no backtick from `i` on, an open inline code span stays open and
/// no later safe point is recorded.
proof fn lemma_code_stays_open(b: Seq<u8>, i: int, st: ScanState)
    requires
        0 <= i <= b.len(),
        st.inline_code_open,
        !st.fence_open,
        safe_inv(i, st),
        byte_absent(b, 96, i, -1),
    ensures
        scan(b, i, st).inline_code_open,
        scan(b, i, st).last_safe == st.last_safe,
    decreases b.len() - i,
{
    if i < b.len() {
        lemma_scan_unfold(b, i, st);
        let (j, st2) = step(b, i, st);
        lemma_step_facts(b, i, st);
        lemma_code_stays_open(b, j, st2);
    }
}

proof fn lemma_code_opens_at(b: Seq<u8>, i: int, p: int, st: ScanState)
    requires
        0 <= i <= p < b.len(),
        b[p] == 96,
        byte_absent(b, 96, 0, p),
        byte_absent(b, 126, 0, -1),
        !st.fence_open,
        !st.inline_code_open,
        safe_inv(i, st),
    ensures
        scan(b, i, st).inline_code_open,
        scan(b, i, st).last_safe <= p,
    decreases p - i,
{
    lemma_scan_unfold(b, i, st);
    lemma_step_facts(b, i, st);
    let (j, st2) = step(b, i, st);
    if i == p {
        lemma_run_end(b, p + 1, 96);
        assert(run_end(b, p, 96) == run_end(b, p + 1, 96));
        if p + 1 < b.len() {
            assert(b[p + 1] != 96);
        }
        assert(st2.inline_code_open && j == p + 1);
        lemma_code_stays_open(b, j, st2);
    } else {
        assert(b[i] != 96 && b[i] != 126);
        if i + 1 < b.len() && i + 1 != p {
            assert(b[i + 1] != 96);
        }
        if j == i + 2 {
            assert(b[i + 1] == 40);
        }
        assert(j <= p);
        lemma_code_opens_at(b, j, p, st2);
    }
}

/// An inline-code backtick that is never closed makes every offset after
/// it unsafe: when `p` holds the only backtick and no tilde occurs (so no
/// fence can open and nothing else opens or closes inline code), the split
/// point is at most `p`, whatever newlines follow.
pub proof fn law_unclosed_inline_code_is_unsafe(b: Seq<u8>, p: int)
    requires
        0 <= p < b.len(),
        b[p] == 96,
        byte_absent(b, 96, 0, p),
        byte_absent(b, 126, 0, -1),
    ensures
        split_point_of(b) <= p,
{
    lemma_code_opens_at(b, 0, p, initial());
}

/// With no `]` from `i` on, open link text stays open and no later safe
/// point is recorded.
proof fn lemma_link_stays_open(b: Seq<u8>, i: int, st: ScanState)
    requires
        0 <= i <= b.len(),
        st.link == LinkState::InText,
        !st.fence_open,
        !st.inline_code_open,
        safe_inv(i, st),
        byte_absent(b, 93, i, -1),
        byte_absent(b, 96, 0, -1),
        byte_absent(b, 126, 0, -1),
    ensures
        scan(b, i, st).link == LinkState::InText,
        scan(b, i, st).last_safe == st.last_safe,
    decreases b.len() - i,
{
    if i < b.len() {
        lemma_scan_unfold(b, i, st);
        let (j, st2) = step(b, i, st);
        lemma_step_facts(b, i, st);
        lemma_link_stays_open(b, j, st2);
    }
}

proof fn lemma_link_opens_at(b: Seq<u8>, i: int, p: int, st: ScanState)
    requires
        0 <= i <= p < b.len(),
        b[p] == 91,
        byte_absent(b, 91, 0, p),
        byte_absent(b, 93, p, -1),
        byte_absent(b, 96, 0, -1),
        byte_absent(b, 126, 0, -1),
        !st.fence_open,
        !st.inline_code_open,
        st.link == LinkState::Closed,
        safe_inv(i, st),
    ensures
        scan(b, i, st).link == LinkState::InText,
        scan(b, i, st).last_safe <= p,
    decreases p - i,
{
    lemma_scan_unfold(b, i, st);
    lemma_step_facts(b, i, st);
    let (j, st2) = step(b, i, st);
    if i == p {
        assert(st2.link == LinkState::InText && j == p + 1);
        lemma_link_stays_open(b, j, st2);
    } else {
        assert(b[i] != 96 && b[i] != 126 && b[i] != 91);
        assert(j == i + 1);
        lemma_link_opens_at(b, j, p, st2);
    }
}

/// Link text that is never closed makes every offset after it unsafe:
/// when `p` holds the only `[`, no `]` follows it and no backtick or tilde
/// occurs, the split point is at most `p`.
pub proof fn law_unclosed_link_text_is_unsafe(b: Seq<u8>, p: int)
    requires
        0 <= p < b.len(),
        b[p] == 91,
        byte_absent(b, 91, 0, p),
        byte_absent(b, 93, p, -1),
        byte_absent(b, 96, 0, -1),
        byte_absent(b, 126, 0, -1),
    ensures
        split_point_of(b) <= p,
{
    lemma_link_opens_at(b, 0, p, initial());
}

proof fn lemma_plain_stays_closed(b: Seq<u8>, i: int, st: ScanState)
    requires
        0 <= i <= b.len(),
        !st.fence_open,
        !st.inline_code_open,
        st.link == LinkState::Closed,
        !st.table_line_open,
        safe_inv(i, st),
        byte_absent(b, 96, 0, -1),
        byte_absent(b, 126, 0, -1),
        byte_absent(b, 91, 0, -1),
        byte_absent(b, 124, 0, -1),
    ensures
        all_closed(scan(b, i, st)),
    decreases b.len() - i,
{
    if i < b.len() {
        lemma_scan_unfold(b, i, st);
        let (j, st2) = step(b, i, st);
        lemma_step_facts(b, i, st);
        assert(b[i] != 96 && b[i] != 126 && b[i] != 91 && b[i] != 124);
        lemma_plain_stays_closed(b, j, st2);
    }
}

/// Text with no backtick, tilde, `[` or `|` opens no construct, so all of
/// it is safe to render: the split point is its whole length.
pub proof fn law_plain_text_is_all_safe(b: Seq<u8>)
    requires
        byte_absent(b, 96, 0, -1),
        byte_absent(b, 126, 0, -1),
        byte_absent(b, 91, 0, -1),
        byte_absent(b, 124, 0, -1),
    ensures
        split_point_of(b) == b.len(),
{
    if b.len() > 0 {
        lemma_plain_stays_closed(b, 0, initial());
    }
}

/// Scanning up to `p` through bytes with no backtick or tilde opens no
/// fence and no inline code; at `p` the scanner stands at a line start when
/// `p` begins a line.
proof fn lemma_reach(b: Seq<u8>, i: int, p: int, st: ScanState) -> (stp: ScanState)
    requires
        0 <= i <= p < b.len(),
        forall|q: int| i <= q < p ==> #[trigger] b[q] != 96 && b[q] != 126,
        b[p] != 40,
        !st.fence_open,
        !st.inline_code_open,
        safe_inv(i, st),
        i == p ==> ((p == 0 || b[p - 1] == 10) ==> st.at_line_start),
    ensures
        scan(b, i, st) == scan(b, p, stp),
        !stp.fence_open,
        !stp.inline_code_open,
        safe_inv(p, stp),
        (p == 0 || b[p - 1] == 10) ==> stp.at_line_start,
    decreases p - i,
{
    if i == p {
        st
    } else {
        lemma_scan_unfold(b, i, st);
        lemma_step_facts(b, i, st);
        let (j, st2) = step(b, i, st);
        assert(b[i] != 96 && b[i] != 126);
        if j == i + 2 {
            assert(b[i + 1] == 40);
        }
        assert(j <= p);
        lemma_reach(b, j, p, st2)
    }
}

proof fn lemma_fence_stays_open(b: Seq<u8>, i: int, st: ScanState)
    requires
        0 <= i <= b.len(),
        st.fence_open,
        st.fence_char == 96,
        safe_inv(i, st),
        byte_absent(b, 96, i, -1),
    ensures
        scan(b, i, st).fence_open,
        scan(b, i, st).last_safe == st.last_safe,
    decreases b.len() - i,
{
    if i < b.len() {
        lemma_scan_unfold(b, i, st);
        let (j, st2) = step(b, i, st);
        lemma_step_facts(b, i, st);
        lemma_fence_stays_open(b, j, st2);
    }
}

/// A backtick fence that is never closed makes every offset after it
/// unsafe: when a line starts at `p` with three backticks, no other
/// backtick and no tilde occurs, the split point is at most `p`.
pub proof fn law_unclosed_fence_is_unsafe(b: Seq<u8>, p: int)
    requires
        0 <= p,
        p + 2 < b.len(),
        p == 0 || b[p - 1] == 10,
        b[p] == 96 && b[p + 1] == 96 && b[p + 2] == 96,
        forall|q: int| 0 <= q < b.len() && (q < p || q > p + 2) ==> #[trigger] b[q] != 96,
        byte_absent(b, 126, 0, -1),
    ensures
        split_point_of(b) <= p,
{
    let stp = lemma_reach(b, 0, p, initial());
    lemma_scan_unfold(b, p, stp);
    lemma_step_facts(b, p, stp);
    lemma_run_end(b, p, 96);
    assert(run_end(b, p, 96) == run_end(b, p + 3, 96)) by {
        assert(run_end(b, p, 96) == run_end(b, p + 1, 96));
        assert(run_end(b, p + 1, 96) == run_end(b, p + 2, 96));
        assert(run_end(b, p + 2, 96) == run_end(b, p + 3, 96));
    }
    if p + 3 < b.len() {
        assert(b[p + 3] != 96);
    }
    assert(run_end(b, p + 3, 96) == p + 3);
    let (j, st2) = step(b, p, stp);
    assert(st2.fence_open && st2.fence_char == 96 && j == p + 3);
    lemma_fence_stays_open(b, j, st2);
}

proof fn lemma_table_stays_open(b: Seq<u8>, i: int, st: ScanState)
    requires
        0 <= i <= b.len(),
        st.table_line_open,
        !st.fence_open,
        !st.inline_code_open,
        safe_inv(i, st),
        byte_absent(b, 10, i, -1),
        byte_absent(b, 96, 0, -1),
        byte_absent(b, 126, 0, -1),
    ensures
        scan(b, i, st).table_line_open,
        scan(b, i, st).last_safe == st.last_safe,
    decreases b.len() - i,
{
    if i < b.len() {
        lemma_scan_unfold(b, i, st);
        let (j, st2) = step(b, i, st);
        lemma_step_facts(b, i, st);
        assert(b[i] != 10 && b[i] != 96 && b[i] != 126);
        lemma_table_stays_open(b, j, st2);
    }
}

/// A table row that has not ended yet is unsafe: when a line starts at `p`
/// with `|` and no newline follows, while no backtick or tilde occurs, the
/// split point is at most `p`.
pub proof fn law_open_table_row_is_unsafe(b: Seq<u8>, p: int)
    requires
        0 <= p < b.len(),
        p == 0 || b[p - 1] == 10,
        b[p] == 124,
        byte_absent(b, 10, p, -1),
        byte_absent(b, 96, 0, -1),
        byte_absent(b, 126, 0, -1),
    ensures
        split_point_of(b) <= p,
{
    let stp = lemma_reach(b, 0, p, initial());
    lemma_scan_unfold(b, p, stp);
    lemma_step_facts(b, p, stp);
    let (j, st2) = step(b, p, stp);
    assert(st2.table_line_open && j == p + 1);
    lemma_table_stays_open(b, j, st2);
}

/// The end of the run of `c` that starts at `i`.
fn run_from(b: &[u8], i: usize, c: u8) -> (j: usize)
    requires
        i <= b@.len(),
    ensures
        j == run_end(b@, i as int, c),
{
    let mut j = i;
    while j < b.len() && b[j] == c
        invariant
            i <= j <= b@.len(),
            run_end(b@, j as int, c) == run_end(b@, i as int, c),
        decreases b@.len() - j,
    {
        j += 1;
    }
    j
}

/// The byte offset of the last safe split point in `src`: `src.len()`
/// when the whole string is safely renderable, otherwise the offset just
/// after the last newline where every construct was closed, or `0` when
/// there is none (e.g. the input is one open fence).
pub fn last_safe_split_point(src: &str) -> (r: usize)
    ensures
        r == split_point_of(src.spec_bytes()),
        r <= src.spec_bytes().len(),
        r == 0 || r == src.spec_bytes().len() || src.spec_bytes()[r - 1] == 10,
{
    let bytes = src.as_bytes();
    let n = bytes.len();
    if n == 0 {
        return 0;
    }
    let ghost b = bytes@;
    let mut fence_open = false;
    let mut fence_char: u8 = 0;
    let mut inline_code_open = false;
    let mut link_state = LinkState::Closed;
    let mut table_line_open = false;
    let mut at_line_start = true;
    let mut last_safe: usize = 0;
    let mut i: usize = 0;
    while i < n
        invariant
            b == bytes@,
            n == b.len(),
            i <= n,
            last_safe <= i,
            last_safe == 0 || b[last_safe - 1] == 10,
            scan(b, i as int, ScanState {
                fence_open, fence_char, inline_code_open, link: link_state,
                table_line_open, at_line_start, last_safe: last_safe as nat,
            }) == scan(b, 0, initial()),
        decreases n - i,
    {
        let ghost st = ScanState {
            fence_open, fence_char, inline_code_open, link: link_state,
            table_line_open, at_line_start, last_safe: last_safe as nat,
        };
        let c = bytes[i];
        if fence_open {
            if c == 10 {
                at_line_start = true;
                i += 1;
                continue;
            }
            if at_line_start && (c == 32 || c == 9) {
                i += 1;
                continue;
            }
            if at_line_start && c == fence_char {
                let j = run_from(bytes, i, fence_char);
                proof {
                    lemma_run_end(b, i as int, c);
                }
                if j - i >= 3 {
                    fence_open = false;
                    fence_char = 0;
                    at_line_start = false;
                    i = j;
                    continue;
                }
            }
            at_line_start = false;
            i += 1;
            continue;
        }
        if inline_code_open {
            if c == 96 {
                inline_code_open = false;
                i += 1;
                continue;
            }
            if c == 10 {
                at_line_start = true;
                i += 1;
                continue;
            }
            at_line_start = false;
            i += 1;
            continue;
        }
        if c == 10 {
            table_line_open = false;
            if link_state == LinkState::Closed {
                last_safe = i + 1;
            }
            at_line_start = true;
            i += 1;
            continue;
        }
        if at_line_start && (c == 32 || c == 9 || c == 13) {
            i += 1;
            continue;
        }
        if at_line_start && (c == 96 || c == 126) {
            let j = run_from(bytes, i, c);
            proof {
                lemma_run_end(b, i as int, c);
            }
            if j - i >= 3 {
                fence_open = true;
                fence_char = c;
                at_line_start = false;
                i = j;
                continue;
            }
            if c == 96 {
                inline_code_open = true;
                at_line_start = false;
                i += 1;
                continue;
            }
            at_line_start = false;
            i += 1;
            continue;
        }
        if at_line_start && c == 124 {
            table_line_open = true;
            at_line_start = false;
            i += 1;
            continue;
        }
        if c == 96 {
            inline_code_open = true;
            at_line_start = false;
            i += 1;
            continue;
        }
        match link_state {
            LinkState::Closed => {
                if c == 91 {
                    link_state = LinkState::InText;
                    at_line_start = false;
                    i += 1;
                    continue;
                }
            },
            LinkState::InText => {
                if c == 93 {
                    if i + 1 < n && bytes[i + 1] == 40 {
                        link_state = LinkState::InUrl;
                        at_line_start = false;
                        i += 2;
                        continue;
                    }
                    link_state = LinkState::Closed;
                    at_line_start = false;
                    i += 1;
                    continue;
                }
            },
            LinkState::InUrl => {
                if c == 41 {
                    link_state = LinkState::Closed;
                    at_line_start = false;
                    i += 1;
                    continue;
                }
            },
        }
        at_line_start = false;
        i += 1;
    }
    if !fence_open && !inline_code_open && link_state == LinkState::Closed && !table_line_open {
        return n;
    }
    last_safe
}

} // verus!
