//! Streaming reasoning-tag filter.
//!
//! Open-weights models emit private reasoning inline, wrapped in
//! `<think>…</think>`, `<thinking>…</thinking>` or `<reasoning>…</reasoning>`
//! (case-insensitive). [`ReasoningFilter`] strips those blocks from the
//! visible stream, even when a tag straddles two chunks, and captures the
//! reasoning text for end-of-stream emission. Other tags pass through, a
//! nested same-name block deepens the block, attributes are accepted in an
//! opening tag, a self-closing `<think/>` is dropped, and an unclosed block
//! eats to the end of the stream.

use vstd::prelude::*;
use crate::text::{push_char, trim, collapse_ws, first_occurrence, has_prefix, utf8_len, utf8_width, char_width, lemma_utf8_len_push};
use crate::segment::{lit, push_seg, seg, Segment, Tone};
use crate::text::{append_str, decimal, lines_of, owned, split_lines, string_from, u64_decimal, chars_of};

verus! {

/// The longest tag prefix (in UTF-8 bytes) buffered before giving up and
/// treating it as text.
pub const MAX_TAG_BUFFER: usize = 256;

/// State of the filter's parse.
#[derive(Debug, Clone, Copy, PartialEq, Eq, Structural)]
pub enum FilterState {
    /// Characters pass through.
    Text,
    /// Saw `<` in text; buffering until it is known whether a tag starts.
    MaybeOpenTag,
    /// Inside a reasoning block `depth` levels deep; characters are captured.
    InThinking { depth: u32 },
    /// Inside a block, saw `<`; buffering to tell a close, a nested open,
    /// or neither.
    MaybeCloseTag { depth: u32 },
}

/// What a buffered tag body turned out to be.
#[derive(Debug, Clone, Copy, PartialEq, Eq, Structural)]
pub enum TagClass {
    /// Could still grow into a recognised tag.
    Prefix,
    /// A complete recognised tag.
    Complete { self_closing: bool },
}

/// What a buffered `<…` in text means.
#[derive(Debug, Clone, Copy, PartialEq, Eq, Structural)]
pub enum OpenClass {
    CompleteOpen { self_closing: bool },
    Prefix,
    NotATag,
}

/// What a buffered `<…` inside a block means.
#[derive(Debug, Clone, Copy, PartialEq, Eq, Structural)]
pub enum InsideClass {
    CompleteClose,
    CompleteOpen { self_closing: bool },
    Prefix,
    NotATag,
}

/// `char::is_ascii_whitespace`: space, tab, line feed, form feed, return.
pub open spec fn is_ascii_ws(c: char) -> bool {
    c == ' ' || c == '\t' || c == '\n' || c == '\x0C' || c == '\r'
}

/// ASCII letters.
pub open spec fn is_ascii_alpha(c: char) -> bool {
    ('a' <= c && c <= 'z') || ('A' <= c && c <= 'Z')
}

/// ASCII lowering of one character.
pub open spec fn lower(c: char) -> char {
    if 'A' <= c && c <= 'Z' { ((c as u32) + 32) as char } else { c }
}

/// The tracked tag names.
pub open spec fn tag_names() -> Seq<Seq<char>> {
    seq![seq!['t', 'h', 'i', 'n', 'k'], seq!['t', 'h', 'i', 'n', 'k', 'i', 'n', 'g'],
        seq!['r', 'e', 'a', 's', 'o', 'n', 'i', 'n', 'g']]
}

/// `name` (already lowered) is a tracked tag name.
pub open spec fn is_tag_name(name: Seq<char>) -> bool {
    exists|i: int| 0 <= i < 3 && tag_names()[i] == name
}

/// `name` (already lowered) begins some tracked tag name.
pub open spec fn is_tag_name_prefix(name: Seq<char>) -> bool {
    exists|i: int| 0 <= i < 3 && name.len() <= tag_names()[i].len()
        && tag_names()[i].subrange(0, name.len() as int) == name
}

/// Length of the leading run of ASCII letters of `s` from `i` on.
pub open spec fn alpha_run(s: Seq<char>, i: int) -> int
    decreases s.len() - i,
{
    if 0 <= i < s.len() && is_ascii_alpha(s[i]) { alpha_run(s, i + 1) } else { i }
}

/// Scan an attribute area from position `k` for the closing `>` (or `/>`).
pub open spec fn find_close(rest: Seq<char>, k: int) -> Option<TagClass>
    decreases rest.len() - k,
{
    if k < 0 || k >= rest.len() {
        Some(TagClass::Prefix)
    } else if rest[k] == '>' {
        Some(TagClass::Complete { self_closing: false })
    } else if rest[k] == '/' {
        if k + 1 < rest.len() {
            if rest[k + 1] == '>' {
                Some(TagClass::Complete { self_closing: true })
            } else {
                find_close(rest, k + 1)
            }
        } else {
            Some(TagClass::Prefix)
        }
    } else {
        find_close(rest, k + 1)
    }
}

/// Classify the text after `<` (and after `/` for a close).
pub open spec fn classify_tag_body(body: Seq<char>, expect_close: bool) -> Option<TagClass> {
    let name_end = alpha_run(body, 0);
    let name_lower = body.subrange(0, name_end).map_values(|c: char| lower(c));
    if name_end >= body.len() {
        if name_lower.len() == 0 || is_tag_name_prefix(name_lower) {
            Some(TagClass::Prefix)
        } else {
            None
        }
    } else if !is_tag_name(name_lower) {
        None
    } else {
        let term = body[name_end];
        if term == '>' {
            Some(TagClass::Complete { self_closing: false })
        } else if term == '/' {
            if name_end + 1 >= body.len() {
                Some(TagClass::Prefix)
            } else if body[name_end + 1] == '>' {
                if expect_close { None } else { Some(TagClass::Complete { self_closing: true }) }
            } else {
                None
            }
        } else if is_ascii_ws(term) {
            find_close(body.subrange(name_end, body.len() as int), 0)
        } else {
            None
        }
    }
}

/// Classify a buffer `<…` seen in text.
pub open spec fn classify_open(buf: Seq<char>) -> OpenClass {
    let body = buf.drop_first();
    if body.len() == 0 {
        OpenClass::Prefix
    } else if body[0] == '/' {
        OpenClass::NotATag
    } else {
        match classify_tag_body(body, false) {
            Some(TagClass::Prefix) => OpenClass::Prefix,
            Some(TagClass::Complete { self_closing }) => OpenClass::CompleteOpen { self_closing },
            None => OpenClass::NotATag,
        }
    }
}

/// Classify a buffer `<…` seen inside a reasoning block.
pub open spec fn classify_inside(buf: Seq<char>) -> InsideClass {
    let body = buf.drop_first();
    if body.len() == 0 {
        InsideClass::Prefix
    } else if body[0] == '/' {
        match classify_tag_body(body.drop_first(), true) {
            Some(TagClass::Prefix) => InsideClass::Prefix,
            Some(TagClass::Complete { .. }) => InsideClass::CompleteClose,
            None => InsideClass::NotATag,
        }
    } else {
        match classify_tag_body(body, false) {
            Some(TagClass::Prefix) => InsideClass::Prefix,
            Some(TagClass::Complete { self_closing }) => InsideClass::CompleteOpen { self_closing },
            None => InsideClass::NotATag,
        }
    }
}

fn is_ascii_whitespace(c: char) -> (r: bool)
    ensures
        r == is_ascii_ws(c),
{
    c == ' ' || c == '\t' || c == '\n' || c == '\x0C' || c == '\r'
}

fn is_ascii_alphabetic(c: char) -> (r: bool)
    ensures
        r == is_ascii_alpha(c),
{
    ('a' <= c && c <= 'z') || ('A' <= c && c <= 'Z')
}

fn lower_char(c: char) -> (r: char)
    ensures
        r == lower(c),
{
    crate::text::to_ascii_lower(c)
}

/// The name of tracked tag `i`.
fn tag_name(i: usize) -> (r: Vec<char>)
    requires
        i < 3,
    ensures
        r@ == tag_names()[i as int],
{
    if i == 0 {
        vec!['t', 'h', 'i', 'n', 'k']
    } else if i == 1 {
        vec!['t', 'h', 'i', 'n', 'k', 'i', 'n', 'g']
    } else {
        vec!['r', 'e', 'a', 's', 'o', 'n', 'i', 'n', 'g']
    }
}

/// `name` spells a tracked tag (exact) or begins one (`prefix`).
fn match_tag_name(name: &[char], prefix: bool) -> (r: bool)
    ensures
        r == if prefix { is_tag_name_prefix(name@) } else { is_tag_name(name@) },
{
    let mut i: usize = 0;
    while i < 3
        invariant
            i <= 3,
            forall|j: int| 0 <= j < i ==> !(if prefix {
                name@.len() <= tag_names()[j].len() && tag_names()[j].subrange(0, name@.len() as int) == name@
            } else {
                tag_names()[j] == name@
            }),
        decreases 3 - i,
    {
        let t = tag_name(i);
        let hit = if prefix {
            crate::text::starts_with(&t, name)
        } else {
            t.len() == name.len() && crate::text::starts_with(&t, name)
        };
        proof {
            if !prefix && t@.len() == name@.len() {
                assert(t@.subrange(0, name@.len() as int) == t@);
            }
        }
        if hit {
            return true;
        }
        i += 1;
    }
    false
}

fn find_close_exec(rest: &[char]) -> (r: Option<TagClass>)
    ensures
        r == find_close(rest@, 0),
{
    let mut k: usize = 0;
    while k < rest.len()
        invariant
            k <= rest@.len(),
            find_close(rest@, k as int) == find_close(rest@, 0),
        decreases rest@.len() - k,
    {
        if rest[k] == '>' {
            return Some(TagClass::Complete { self_closing: false });
        }
        if rest[k] == '/' {
            if k + 1 < rest.len() {
                if rest[k + 1] == '>' {
                    return Some(TagClass::Complete { self_closing: true });
                }
            } else {
                return Some(TagClass::Prefix);
            }
        }
        k += 1;
    }
    Some(TagClass::Prefix)
}

proof fn lemma_alpha_run(s: Seq<char>, i: int)
    requires
        0 <= i <= s.len(),
    ensures
        i <= alpha_run(s, i) <= s.len(),
        forall|k: int| i <= k < alpha_run(s, i) ==> is_ascii_alpha(s[k]),
        alpha_run(s, i) < s.len() ==> !is_ascii_alpha(s[alpha_run(s, i)]),
    decreases s.len() - i,
{
    if i < s.len() && is_ascii_alpha(s[i]) {
        lemma_alpha_run(s, i + 1);
    }
}

fn classify_tag_body_exec(body: &[char], expect_close: bool) -> (r: Option<TagClass>)
    ensures
        r == classify_tag_body(body@, expect_close),
{
    let mut name_end: usize = 0;
    while name_end < body.len() && is_ascii_alphabetic(body[name_end])
        invariant
            name_end <= body@.len(),
            alpha_run(body@, name_end as int) == alpha_run(body@, 0),
        decreases body@.len() - name_end,
    {
        name_end += 1;
    }
    proof {
        lemma_alpha_run(body@, 0);
    }
    let mut name_lower: Vec<char> = Vec::new();
    let mut i: usize = 0;
    while i < name_end
        invariant
            i <= name_end <= body@.len(),
            name_lower@ == body@.subrange(0, i as int).map_values(|c: char| lower(c)),
        decreases name_end - i,
    {
        name_lower.push(lower_char(body[i]));
        i += 1;
        assert(body@.subrange(0, i as int).map_values(|c: char| lower(c))
            =~= body@.subrange(0, i - 1).map_values(|c: char| lower(c)).push(lower(body@[i - 1])));
    }
    if name_end >= body.len() {
        if name_lower.len() == 0 || match_tag_name(&name_lower, true) {
            return Some(TagClass::Prefix);
        }
        return None;
    }
    if !match_tag_name(&name_lower, false) {
        return None;
    }
    let term = body[name_end];
    if term == '>' {
        Some(TagClass::Complete { self_closing: false })
    } else if term == '/' {
        if name_end + 1 >= body.len() {
            Some(TagClass::Prefix)
        } else if body[name_end + 1] == '>' {
            if expect_close { None } else { Some(TagClass::Complete { self_closing: true }) }
        } else {
            None
        }
    } else if is_ascii_whitespace(term) {
        let rest = crate::text::slice_vec(body, name_end, body.len());
        find_close_exec(&rest)
    } else {
        None
    }
}

fn classify_open_exec(buf: &[char]) -> (r: OpenClass)
    requires
        buf@.len() >= 1,
    ensures
        r == classify_open(buf@),
{
    let body = crate::text::slice_vec(buf, 1, buf.len());
    assert(body@ == buf@.drop_first());
    if body.len() == 0 {
        return OpenClass::Prefix;
    }
    if body[0] == '/' {
        return OpenClass::NotATag;
    }
    match classify_tag_body_exec(&body, false) {
        Some(TagClass::Prefix) => OpenClass::Prefix,
        Some(TagClass::Complete { self_closing }) => OpenClass::CompleteOpen { self_closing },
        None => OpenClass::NotATag,
    }
}

fn classify_inside_exec(buf: &[char]) -> (r: InsideClass)
    requires
        buf@.len() >= 1,
    ensures
        r == classify_inside(buf@),
{
    let body = crate::text::slice_vec(buf, 1, buf.len());
    assert(body@ == buf@.drop_first());
    if body.len() == 0 {
        return InsideClass::Prefix;
    }
    if body[0] == '/' {
        let close_body = crate::text::slice_vec(&body, 1, body.len());
        assert(close_body@ == body@.drop_first());
        return match classify_tag_body_exec(&close_body, true) {
            Some(TagClass::Prefix) => InsideClass::Prefix,
            Some(TagClass::Complete { .. }) => InsideClass::CompleteClose,
            None => InsideClass::NotATag,
        };
    }
    match classify_tag_body_exec(&body, false) {
        Some(TagClass::Prefix) => InsideClass::Prefix,
        Some(TagClass::Complete { self_closing }) => InsideClass::CompleteOpen { self_closing },
        None => InsideClass::NotATag,
    }
}


/// The filter's abstract state.
pub struct FilterModel {
    pub state: FilterState,
    /// Buffered characters of an undecided tag.
    pub pending: Seq<char>,
    /// Reasoning text captured so far.
    pub captured: Seq<char>,
    /// The most recent block has closed (the next one is set off by `\n`).
    pub prev_committed: bool,
}

/// A filter that has seen nothing.
pub open spec fn fresh_model() -> FilterModel {
    FilterModel { state: FilterState::Text, pending: Seq::empty(), captured: Seq::empty(), prev_committed: true }
}

/// Feed one character: the next state and the visible output it yields.
pub open spec fn feed(m: FilterModel, ch: char) -> (FilterModel, Seq<char>) {
    match m.state {
        FilterState::Text => {
            if ch == '<' {
                (FilterModel { state: FilterState::MaybeOpenTag, pending: seq!['<'], ..m }, Seq::empty())
            } else {
                (m, seq![ch])
            }
        },
        FilterState::MaybeOpenTag => {
            let p = m.pending.push(ch);
            match classify_open(p) {
                OpenClass::CompleteOpen { self_closing } => {
                    if self_closing {
                        (FilterModel { state: FilterState::Text, pending: Seq::empty(), ..m }, Seq::empty())
                    } else {
                        let cap = if m.prev_committed && m.captured.len() > 0 { m.captured.push('\n') } else { m.captured };
                        (FilterModel {
                            state: FilterState::InThinking { depth: 1 },
                            pending: Seq::empty(),
                            captured: cap,
                            prev_committed: false,
                        }, Seq::empty())
                    }
                },
                OpenClass::Prefix => {
                    if utf8_len(p) >= MAX_TAG_BUFFER {
                        (FilterModel { state: FilterState::Text, pending: Seq::empty(), ..m }, p)
                    } else {
                        (FilterModel { pending: p, ..m }, Seq::empty())
                    }
                },
                OpenClass::NotATag => {
                    if p.last() == '<' {
                        (FilterModel { state: FilterState::MaybeOpenTag, pending: seq!['<'], ..m }, p.drop_last())
                    } else {
                        (FilterModel { state: FilterState::Text, pending: Seq::empty(), ..m }, p)
                    }
                },
            }
        },
        FilterState::InThinking { depth } => {
            if ch == '<' {
                (FilterModel { state: FilterState::MaybeCloseTag { depth }, pending: seq!['<'], ..m }, Seq::empty())
            } else {
                (FilterModel { captured: m.captured.push(ch), ..m }, Seq::empty())
            }
        },
        FilterState::MaybeCloseTag { depth } => {
            let p = m.pending.push(ch);
            match classify_inside(p) {
                InsideClass::CompleteClose => {
                    if depth <= 1 {
                        (FilterModel { state: FilterState::Text, pending: Seq::empty(), prev_committed: true, ..m }, Seq::empty())
                    } else {
                        (FilterModel { state: FilterState::InThinking { depth: (depth - 1) as u32 }, pending: Seq::empty(), ..m }, Seq::empty())
                    }
                },
                InsideClass::CompleteOpen { self_closing } => {
                    let d = if self_closing { depth } else { (depth + 1) as u32 };
                    (FilterModel { state: FilterState::InThinking { depth: d }, pending: Seq::empty(), ..m }, Seq::empty())
                },
                InsideClass::Prefix => {
                    if utf8_len(p) >= MAX_TAG_BUFFER {
                        (FilterModel { state: FilterState::InThinking { depth }, pending: Seq::empty(), captured: m.captured + p, ..m }, Seq::empty())
                    } else {
                        (FilterModel { pending: p, ..m }, Seq::empty())
                    }
                },
                InsideClass::NotATag => {
                    if p.last() == '<' {
                        (FilterModel {
                            state: FilterState::MaybeCloseTag { depth },
                            pending: seq!['<'],
                            captured: m.captured + p.drop_last(),
                            ..m
                        }, Seq::empty())
                    } else {
                        (FilterModel { state: FilterState::InThinking { depth }, pending: Seq::empty(), captured: m.captured + p, ..m }, Seq::empty())
                    }
                },
            }
        },
    }
}

/// Feed a whole character sequence, left to right: the final state and the
/// concatenated visible output.
pub open spec fn feed_all(m: FilterModel, s: Seq<char>) -> (FilterModel, Seq<char>)
    decreases s.len(),
{
    if s.len() == 0 {
        (m, Seq::empty())
    } else {
        let (m1, o1) = feed_all(m, s.drop_last());
        let (m2, o2) = feed(m1, s.last());
        (m2, o1 + o2)
    }
}

/// Law: chunk boundaries do not matter. Feeding `a` and then `b` yields the
/// same final state, and the same output joined, as feeding `a + b`.
pub proof fn law_chunking_invariant(m: FilterModel, a: Seq<char>, b: Seq<char>)
    ensures
        ({
            let (ma, oa) = feed_all(m, a);
            let (mb, ob) = feed_all(ma, b);
            feed_all(m, a + b) == (mb, oa + ob)
        }),
    decreases b.len(),
{
    if b.len() == 0 {
        assert(a + b =~= a);
        let (ma, oa) = feed_all(m, a);
        assert(oa + Seq::<char>::empty() =~= oa);
    } else {
        let b0 = b.drop_last();
        law_chunking_invariant(m, a, b0);
        assert((a + b).drop_last() =~= a + b0);
        assert((a + b).last() == b.last());
        let (ma, oa) = feed_all(m, a);
        let (mb0, ob0) = feed_all(ma, b0);
        let (m2, o2) = feed(mb0, b.last());
        assert(oa + ob0 + o2 =~= oa + (ob0 + o2));
    }
}

/// Law: text without `<` passes through a filter in the text state
/// untouched, leaving the state as it was.
pub proof fn law_plain_text_passes_through(m: FilterModel, s: Seq<char>)
    requires
        m.state == FilterState::Text,
        forall|i: int| 0 <= i < s.len() ==> s[i] != '<',
    ensures
        feed_all(m, s) == (m, s),
    decreases s.len(),
{
    if s.len() > 0 {
        law_plain_text_passes_through(m, s.drop_last());
        assert(s.drop_last() + seq![s.last()] =~= s);
    }
}

/// Feeding `ch` in `m` would take the nesting depth past the largest
/// `u32`: a nested, non-self-closing open tag completes at the deepest
/// level a `u32` counts.
pub open spec fn overflows(m: FilterModel, ch: char) -> bool {
    &&& m.state == (FilterState::MaybeCloseTag { depth: u32::MAX })
    &&& classify_inside(m.pending.push(ch)) == (InsideClass::CompleteOpen { self_closing: false })
}

/// Feeding `s` from `m` never takes the nesting depth past the largest
/// `u32`.
pub open spec fn feed_safe(m: FilterModel, s: Seq<char>) -> bool
    decreases s.len(),
{
    s.len() == 0 || (feed_safe(m, s.drop_last()) && !overflows(feed_all(m, s.drop_last()).0, s.last()))
}

/// The most the nesting depth can reach from `st` before another `<` is
/// read: the depth, one more while a tag is being read.
pub open spec fn depth_reach(st: FilterState) -> nat {
    match st {
        FilterState::InThinking { depth } => depth as nat,
        FilterState::MaybeCloseTag { depth } => depth as nat + 1,
        FilterState::MaybeOpenTag => 1,
        FilterState::Text => 0,
    }
}

/// The number of `<` in `s`.
pub open spec fn open_count(s: Seq<char>) -> nat
    decreases s.len(),
{
    if s.len() == 0 { 0 } else { open_count(s.drop_last()) + if s.last() == '<' { 1nat } else { 0 } }
}

proof fn lemma_feed_reach(m: FilterModel, ch: char)
    requires
        !overflows(m, ch),
    ensures
        depth_reach(feed(m, ch).0.state) <= depth_reach(m.state) + if ch == '<' { 1nat } else { 0 },
{
}

/// Feeding `s` from `m` raises the reachable depth by at most the number
/// of `<` in `s`; so with that sum within a `u32`, the feed is safe.
pub proof fn lemma_depth_grows_by_opens(m: FilterModel, s: Seq<char>)
    ensures
        depth_reach(m.state) + open_count(s) <= u32::MAX ==> feed_safe(m, s),
        feed_safe(m, s) ==> depth_reach(feed_all(m, s).0.state) <= depth_reach(m.state) + open_count(s),
    decreases s.len(),
{
    if s.len() > 0 {
        let init = s.drop_last();
        lemma_depth_grows_by_opens(m, init);
        let mi = feed_all(m, init).0;
        if depth_reach(m.state) + open_count(s) <= u32::MAX {
            assert(depth_reach(mi.state) <= depth_reach(m.state) + open_count(init));
            assert(!overflows(mi, s.last()));
        }
        if feed_safe(m, s) {
            lemma_feed_reach(mi, s.last());
        }
    }
}

/// Law: a feed is safe as a whole exactly when it is safe chunk by chunk.
pub proof fn law_safe_feeds_split(m: FilterModel, a: Seq<char>, b: Seq<char>)
    ensures
        feed_safe(m, a + b) == (feed_safe(m, a) && feed_safe(feed_all(m, a).0, b)),
    decreases b.len(),
{
    if b.len() == 0 {
        assert(a + b =~= a);
    } else {
        let b0 = b.drop_last();
        law_safe_feeds_split(m, a, b0);
        law_chunking_invariant(m, a, b0);
        assert((a + b).drop_last() =~= a + b0);
        assert((a + b).last() == b.last());
    }
}

proof fn lemma_feed_safe_prefix(m: FilterModel, s: Seq<char>, i: int)
    requires
        feed_safe(m, s),
        0 <= i < s.len(),
    ensures
        feed_safe(m, s.take(i + 1)),
        !overflows(feed_all(m, s.take(i)).0, s[i]),
    decreases s.len(),
{
    if i + 1 < s.len() {
        lemma_feed_safe_prefix(m, s.drop_last(), i);
        assert(s.drop_last().take(i + 1) =~= s.take(i + 1));
        assert(s.drop_last().take(i) =~= s.take(i));
    } else {
        assert(s.take(i + 1) =~= s);
        assert(s.take(i) =~= s.drop_last());
    }
    assert(s.take(i + 1).drop_last() =~= s.take(i));
}

/// Append characters to a string.
fn append_chars(s: &mut String, v: &[char])
    ensures
        final(s)@ == old(s)@ + v@,
{
    let mut i: usize = 0;
    while i < v.len()
        invariant
            i <= v@.len(),
            s@ == old(s)@ + v@.subrange(0, i as int),
        decreases v@.len() - i,
    {
        push_char(s, v[i]);
        i += 1;
        assert(old(s)@ + v@.subrange(0, i as int) =~= old(s)@ + v@.subrange(0, i - 1) + seq![v@[i - 1]]);
    }
    assert(v@.subrange(0, v@.len() as int) =~= v@);
}

/// The streaming reasoning-tag filter.
#[derive(Debug)]
pub struct ReasoningFilter {
    state: FilterState,
    pending: Vec<char>,
    pending_bytes: usize,
    captured: String,
    prev_block_committed: bool,
}

impl ReasoningFilter {
    /// The filter's abstract state.
    pub closed spec fn model(&self) -> FilterModel {
        FilterModel {
            state: self.state,
            pending: self.pending@,
            captured: self.captured@,
            prev_committed: self.prev_block_committed,
        }
    }

    /// The byte count of the pending buffer is tracked and stays below the cap.
    pub closed spec fn wf(&self) -> bool {
        &&& self.pending_bytes == utf8_len(self.pending@)
        &&& self.pending_bytes < MAX_TAG_BUFFER
    }

    /// A filter in the text state with nothing buffered or captured.
    pub fn new() -> (f: Self)
        ensures
            f.wf(),
            f.model() == fresh_model(),
    {
        let f = ReasoningFilter {
            state: FilterState::Text,
            pending: Vec::new(),
            pending_bytes: 0,
            captured: String::new(),
            prev_block_committed: true,
        };
        proof {
            assert(f.pending@ =~= Seq::<char>::empty());
        }
        f
    }

    /// Drain the captured reasoning text. Blocks within one stream are
    /// joined by `\n`; after a drain the next captured block starts fresh.
    pub fn take_captured(&mut self) -> (r: String)
        requires
            old(self).wf(),
        ensures
            final(self).wf(),
            r@ == old(self).model().captured,
            final(self).model() == (FilterModel {
                captured: Seq::empty(),
                prev_committed: true,
                ..old(self).model()
            }),
    {
        self.prev_block_committed = true;
        let mut out = String::new();
        std::mem::swap(&mut out, &mut self.captured);
        out
    }

    /// Process the next chunk of streamed text and return its visible part
    /// (reasoning tags and their content stripped). The nesting depth is a
    /// `u32`: the chunk must not nest blocks past it.
    pub fn process(&mut self, chunk: &str) -> (r: String)
        requires
            old(self).wf(),
            feed_safe(old(self).model(), chunk@),
        ensures
            final(self).wf(),
            (final(self).model(), r@) == feed_all(old(self).model(), chunk@),
            depth_reach(final(self).model().state) <= depth_reach(old(self).model().state) + open_count(chunk@),
    {
        proof {
            lemma_depth_grows_by_opens(old(self).model(), chunk@);
        }
        let chars = crate::text::chars_of(chunk);
        let mut out = String::new();
        let mut i: usize = 0;
        while i < chars.len()
            invariant
                self.wf(),
                i <= chars@.len(),
                chars@ == chunk@,
                (self.model(), out@) == feed_all(old(self).model(), chars@.subrange(0, i as int)),
                feed_safe(old(self).model(), chunk@),
            decreases chars@.len() - i,
        {
            proof {
                assert(chars@.subrange(0, i + 1).drop_last() =~= chars@.subrange(0, i as int));
                lemma_feed_safe_prefix(old(self).model(), chars@, i as int);
                assert(chars@.take(i as int) =~= chars@.subrange(0, i as int));
            }
            self.feed_char(chars[i], &mut out);
            i += 1;
        }
        proof {
            assert(chars@.subrange(0, chars@.len() as int) =~= chars@);
        }
        out
    }

    /// Return to the initial state, dropping any buffered tag prefix and
    /// the captured reasoning.
    pub fn reset(&mut self)
        ensures
            final(self).wf(),
            final(self).model() == fresh_model(),
    {
        self.state = FilterState::Text;
        self.pending = Vec::new();
        self.pending_bytes = 0;
        self.captured = String::new();
        self.prev_block_committed = true;
        proof {
            assert(self.pending@ =~= Seq::<char>::empty());
        }
    }

    fn clear_pending(&mut self)
        ensures
            final(self).pending@ == Seq::<char>::empty(),
            final(self).pending_bytes == 0,
            final(self).pending_bytes == utf8_len(final(self).pending@),
            final(self).state == old(self).state,
            final(self).captured == old(self).captured,
            final(self).prev_block_committed == old(self).prev_block_committed,
    {
        self.pending = Vec::new();
        self.pending_bytes = 0;
        proof {
            assert(self.pending@ =~= Seq::<char>::empty());
        }
    }

    fn start_pending(&mut self)
        ensures
            final(self).pending@ == seq!['<'],
            final(self).pending_bytes == 1,
            final(self).pending_bytes == utf8_len(final(self).pending@),
            final(self).state == old(self).state,
            final(self).captured == old(self).captured,
            final(self).prev_block_committed == old(self).prev_block_committed,
    {
        self.pending = Vec::new();
        self.pending.push('<');
        self.pending_bytes = 1;
        proof {
            lemma_utf8_len_push(Seq::<char>::empty(), '<');
            assert(Seq::<char>::empty().push('<') =~= seq!['<']);
            assert(self.pending@ =~= seq!['<']);
        }
    }

    fn feed_char(&mut self, ch: char, out: &mut String)
        requires
            old(self).wf(),
            !overflows(old(self).model(), ch),
        ensures
            final(self).wf(),
            final(self).model() == feed(old(self).model(), ch).0,
            final(out)@ == old(out)@ + feed(old(self).model(), ch).1,
    {
        match self.state {
            FilterState::Text => self.feed_text(ch, out),
            FilterState::MaybeOpenTag => self.feed_open(ch, out),
            FilterState::InThinking { depth } => self.feed_thinking(ch, depth, out),
            FilterState::MaybeCloseTag { depth } => self.feed_close(ch, depth, out),
        }
    }

    fn feed_text(&mut self, ch: char, out: &mut String)
        requires
            old(self).wf(),
            !overflows(old(self).model(), ch),
            old(self).state == FilterState::Text,
        ensures
            final(self).wf(),
            final(self).model() == feed(old(self).model(), ch).0,
            final(out)@ == old(out)@ + feed(old(self).model(), ch).1,
    {
        let ghost m = self.model();
        if ch == '<' {
            self.state = FilterState::MaybeOpenTag;
            self.start_pending();
        } else {
            push_char(out, ch);
        }
        proof {
            if out@ == old(out)@ {
                assert(old(out)@ + Seq::<char>::empty() =~= old(out)@);
            }
        }
    }

    fn feed_open(&mut self, ch: char, out: &mut String)
        requires
            old(self).wf(),
            !overflows(old(self).model(), ch),
            old(self).state == FilterState::MaybeOpenTag,
        ensures
            final(self).wf(),
            final(self).model() == feed(old(self).model(), ch).0,
            final(out)@ == old(out)@ + feed(old(self).model(), ch).1,
    {
        let ghost m = self.model();
        self.pending.push(ch);
        self.pending_bytes = self.pending_bytes + char_width(ch);
        proof {
            lemma_utf8_len_push(m.pending, ch);
        }
        let ghost p = self.pending@;
        match classify_open_exec(&self.pending) {
            OpenClass::CompleteOpen { self_closing } => {
                self.clear_pending();
                if self_closing {
                    self.state = FilterState::Text;
                } else {
                    if self.prev_block_committed && !self.captured.as_str().is_empty() {
                        push_char(&mut self.captured, '\n');
                    }
                    self.prev_block_committed = false;
                    self.state = FilterState::InThinking { depth: 1 };
                }
            },
            OpenClass::Prefix => {
                if self.pending_bytes >= MAX_TAG_BUFFER {
                    append_chars(out, &self.pending);
                    self.clear_pending();
                    self.state = FilterState::Text;
                }
            },
            OpenClass::NotATag => {
                let n = self.pending.len();
                let last = self.pending[n - 1];
                let head = crate::text::slice_vec(&self.pending, 0, n - 1);
                proof {
                    assert(head@ == p.drop_last());
                }
                append_chars(out, &head);
                if last == '<' {
                    self.state = FilterState::MaybeOpenTag;
                    self.start_pending();
                } else {
                    push_char(out, last);
                    proof {
                        assert(p.drop_last().push(last) =~= p);
                        assert(old(out)@ + p.drop_last() + seq![last] =~= old(out)@ + p);
                    }
                    self.clear_pending();
                    self.state = FilterState::Text;
                }
            },
        }
        proof {
            if out@ == old(out)@ {
                assert(old(out)@ + Seq::<char>::empty() =~= old(out)@);
            }
        }
    }

    fn feed_thinking(&mut self, ch: char, depth: u32, out: &mut String)
        requires
            old(self).wf(),
            !overflows(old(self).model(), ch),
            old(self).state == (FilterState::InThinking { depth }),
        ensures
            final(self).wf(),
            final(self).model() == feed(old(self).model(), ch).0,
            final(out)@ == old(out)@ + feed(old(self).model(), ch).1,
    {
        let ghost m = self.model();
        if ch == '<' {
            self.state = FilterState::MaybeCloseTag { depth };
            self.start_pending();
        } else {
            push_char(&mut self.captured, ch);
        }
        proof {
            if out@ == old(out)@ {
                assert(old(out)@ + Seq::<char>::empty() =~= old(out)@);
            }
        }
    }

    fn feed_close(&mut self, ch: char, depth: u32, out: &mut String)
        requires
            old(self).wf(),
            !overflows(old(self).model(), ch),
            old(self).state == (FilterState::MaybeCloseTag { depth }),
        ensures
            final(self).wf(),
            final(self).model() == feed(old(self).model(), ch).0,
            final(out)@ == old(out)@ + feed(old(self).model(), ch).1,
    {
        let ghost m = self.model();
        self.pending.push(ch);
        self.pending_bytes = self.pending_bytes + char_width(ch);
        proof {
            lemma_utf8_len_push(m.pending, ch);
        }
        let ghost p = self.pending@;
        match classify_inside_exec(&self.pending) {
            InsideClass::CompleteClose => {
                self.clear_pending();
                if depth <= 1 {
                    self.prev_block_committed = true;
                    self.state = FilterState::Text;
                } else {
                    self.state = FilterState::InThinking { depth: depth - 1 };
                }
            },
            InsideClass::CompleteOpen { self_closing } => {
                self.clear_pending();
                if self_closing {
                    self.state = FilterState::InThinking { depth };
                } else {
                    self.state = FilterState::InThinking { depth: depth + 1 };
                }
            },
            InsideClass::Prefix => {
                if self.pending_bytes >= MAX_TAG_BUFFER {
                    append_chars(&mut self.captured, &self.pending);
                    self.clear_pending();
                    self.state = FilterState::InThinking { depth };
                }
            },
            InsideClass::NotATag => {
                let n = self.pending.len();
                let last = self.pending[n - 1];
                let head = crate::text::slice_vec(&self.pending, 0, n - 1);
                proof {
                    assert(head@ == p.drop_last());
                }
                append_chars(&mut self.captured, &head);
                if last == '<' {
                    self.state = FilterState::MaybeCloseTag { depth };
                    self.start_pending();
                } else {
                    push_char(&mut self.captured, last);
                    proof {
                        assert(p.drop_last().push(last) =~= p);
                assert((m.captured + p.drop_last()).push(last) =~= m.captured + p);
                    }
                    self.clear_pending();
                    self.state = FilterState::InThinking { depth };
                }
            },
        }
        proof {
            if out@ == old(out)@ {
                assert(old(out)@ + Seq::<char>::empty() =~= old(out)@);
            }
        }
    }

}

impl Default for ReasoningFilter {
    fn default() -> (f: Self)
        ensures
            f.wf(),
            f.model() == fresh_model(),
    {
        Self::new()
    }
}


/// Max characters of a collapsed reasoning title before it is cut.
pub const REASONING_TITLE_MAX: usize = 50;

/// A sentence terminator.
pub open spec fn is_terminator(c: char) -> bool {
    c == '.' || c == '!' || c == '?'
}

/// Position of the first sentence terminator of `s`, if any.
pub open spec fn first_terminator(s: Seq<char>) -> Option<int>
    decreases s.len(),
{
    if s.len() == 0 {
        None
    } else if is_terminator(s[0]) {
        Some(0)
    } else {
        match first_terminator(s.drop_first()) {
            Some(i) => Some(i + 1),
            None => None,
        }
    }
}

/// The text of `s` before its first sentence terminator (all of `s` when
/// it has none).
pub open spec fn first_sentence(s: Seq<char>) -> Seq<char> {
    match first_terminator(s) {
        Some(i) => s.subrange(0, i),
        None => s,
    }
}

/// The raw title: the first `**bold**` span when the trimmed summary opens
/// with one, else its first sentence.
pub open spec fn raw_title(summary: Seq<char>) -> Seq<char> {
    let t = trim(summary);
    if has_prefix(t, seq!['*', '*']) {
        let rest = t.subrange(2, t.len() as int);
        match first_occurrence(rest, seq!['*', '*']) {
            Some(e) => trim(rest.subrange(0, e)),
            None => first_sentence(t),
        }
    } else {
        first_sentence(t)
    }
}

/// The title of a reasoning summary: the raw title with whitespace runs
/// collapsed to single spaces and trimmed, cut to
/// [`REASONING_TITLE_MAX`] characters with a trailing `…` when longer.
pub open spec fn title_of(summary: Seq<char>) -> Seq<char> {
    let collapsed = trim(collapse_ws(raw_title(summary)));
    if collapsed.len() > REASONING_TITLE_MAX {
        collapsed.subrange(0, REASONING_TITLE_MAX - 1).push('…')
    } else {
        collapsed
    }
}

fn first_sentence_exec(s: &[char]) -> (r: Vec<char>)
    ensures
        r@ == first_sentence(s@),
{
    assert(s@.subrange(0, s@.len() as int) =~= s@);
    let mut i: usize = 0;
    while i < s.len()
        invariant
            i <= s@.len(),
            forall|j: int| 0 <= j < i ==> !is_terminator(s@[j]),
            first_terminator(s@) == match first_terminator(s@.subrange(i as int, s@.len() as int)) {
                Some(k) => Some(k + i),
                None => None,
            },
        decreases s@.len() - i,
    {
        let c = s[i];
        if c == '.' || c == '!' || c == '?' {
            return crate::text::slice_vec(s, 0, i);
        }
        assert(s@.subrange(i as int, s@.len() as int).drop_first() =~= s@.subrange(i + 1, s@.len() as int));
        i += 1;
    }
    proof {
        assert(s@.subrange(i as int, s@.len() as int).len() == 0);
    }
    crate::text::slice_vec(s, 0, s.len())
}

/// Extract a short title from a reasoning summary (see [`title_of`]).
pub fn reasoning_title(summary: &str) -> (r: String)
    ensures
        r@ == title_of(summary@),
{
    let chars = crate::text::chars_of(summary);
    let t = crate::text::trim_chars(&chars);
    let stars = vec!['*', '*'];
    let raw = if crate::text::starts_with(&t, &stars) {
        let rest = crate::text::slice_vec(&t, 2, t.len());
        match crate::text::find_sub(&rest, &stars) {
            Some(e) => {
                let head = crate::text::slice_vec(&rest, 0, e);
                crate::text::trim_chars(&head)
            },
            None => first_sentence_exec(&t),
        }
    } else {
        first_sentence_exec(&t)
    };
    proof {
        assert(stars@ =~= seq!['*', '*']);
    }
    let collapsed = crate::text::trim_chars(&crate::text::collapse_whitespace(&raw));
    if collapsed.len() > REASONING_TITLE_MAX {
        let mut head = crate::text::slice_vec(&collapsed, 0, REASONING_TITLE_MAX - 1);
        head.push('…');
        crate::text::string_from(&head)
    } else {
        crate::text::string_from(&collapsed)
    }
}

/// The timing meta of a reasoning header: ` · Ns` and ` · N tok`, each only
/// when non-zero.
pub open spec fn reasoning_meta(secs: u64, tokens: u64) -> Seq<char> {
    (if secs > 0 { " · "@ + decimal(secs as nat) + "s"@ } else { Seq::empty() })
        + (if tokens > 0 { " · "@ + decimal(tokens as nat) + " tok"@ } else { Seq::empty() })
}

/// A reasoning block: collapsed, one header line `▶ Thought: <title>`
/// with its timing; expanded, the header with `▼` followed by every line
/// of the summary indented two spaces.
pub open spec fn reasoning_lines_of(summary: Seq<char>, secs: u64, tokens: u64, expanded: bool) -> Seq<Seq<(Seq<char>, Tone, bool)>> {
    seq![reasoning_header_of(summary, secs, tokens, expanded)] + if expanded {
        lines_of(summary).map_values(|l: Seq<char>| seq![seg("  "@ + l, Tone::Dim)])
    } else {
        Seq::empty()
    }
}

/// The plain value of a list of lines.
pub open spec fn lines_view(v: Seq<Vec<Segment>>) -> Seq<Seq<(Seq<char>, Tone, bool)>> {
    v.map_values(|l: Vec<Segment>| l@.map_values(|x: Segment| x@))
}

/// Every line of `summary`, indented two spaces, dimmed.
fn indented_body(summary: &str) -> (r: Vec<Vec<Segment>>)
    ensures
        lines_view(r@) == lines_of(summary@).map_values(|l: Seq<char>| seq![seg("  "@ + l, Tone::Dim)]),
{
    let ls = split_lines(chars_of(summary).as_slice());
    let ghost lv = ls@.map_values(|x: Vec<char>| x@);
    let mut out: Vec<Vec<Segment>> = Vec::new();
    let mut i: usize = 0;
    while i < ls.len()
        invariant
            i <= ls.len(),
            lv == ls@.map_values(|x: Vec<char>| x@),
            lv == lines_of(summary@),
            lines_view(out@) == lv.take(i as int).map_values(|l: Seq<char>| seq![seg("  "@ + l, Tone::Dim)]),
        decreases ls.len() - i,
    {
        let mut t = owned("  ");
        let line = string_from(ls[i].as_slice());
        append_str(&mut t, line.as_str());
        let mut row: Vec<Segment> = Vec::new();
        push_seg(&mut row, Segment { text: t, tone: Tone::Dim, bold: false });
        let ghost rv = row@.map_values(|x: Segment| x@);
        assert(rv =~= seq![seg("  "@ + lv[i as int], Tone::Dim)]);
        let ghost before = lines_view(out@);
        out.push(row);
        assert(lines_view(out@) =~= before.push(rv));
        assert(lv.take(i + 1).map_values(|l: Seq<char>| seq![seg("  "@ + l, Tone::Dim)])
            =~= lv.take(i as int).map_values(|l: Seq<char>| seq![seg("  "@ + l, Tone::Dim)]).push(rv));
        i += 1;
    }
    assert(lv.take(ls.len() as int) =~= lv);
    out
}

fn meta_text(secs: u64, tokens: u64) -> (r: String)
    ensures
        r@ == reasoning_meta(secs, tokens),
{
    let mut meta = String::new();
    if secs > 0 {
        append_str(&mut meta, " · ");
        let d = u64_decimal(secs);
        append_str(&mut meta, d.as_str());
        append_str(&mut meta, "s");
    }
    let ghost m1 = meta@;
    if tokens > 0 {
        append_str(&mut meta, " · ");
        let d = u64_decimal(tokens);
        append_str(&mut meta, d.as_str());
        append_str(&mut meta, " tok");
    }
    proof {
        if secs == 0 { assert(m1 =~= Seq::<char>::empty()); }
        assert(meta@ =~= reasoning_meta(secs, tokens));
    }
    meta
}

/// The header line of a reasoning block.
pub open spec fn reasoning_header_of(summary: Seq<char>, secs: u64, tokens: u64, expanded: bool) -> Seq<(Seq<char>, Tone, bool)> {
    let meta = reasoning_meta(secs, tokens);
    seq![
        seg((if expanded { "▼"@ } else { "▶"@ }) + " "@, Tone::Muted),
        ("Thought: "@, Tone::Muted, true),
        seg(title_of(summary), Tone::Dim),
    ] + if meta.len() > 0 { seq![seg(meta, Tone::Muted)] } else { Seq::empty() }
}

fn reasoning_header(summary: &str, secs: u64, tokens: u64, expanded: bool) -> (r: Vec<Segment>)
    ensures
        r@.map_values(|x: Segment| x@) == reasoning_header_of(summary@, secs, tokens, expanded),
{
    let title = reasoning_title(summary);
    let mut mark = owned(if expanded { "▼" } else { "▶" });
    append_str(&mut mark, " ");
    let meta = meta_text(secs, tokens);
    let ghost tv = title@;
    let ghost mv = meta@;
    let ghost kv = mark@;
    let ghost h0 = seq![seg(kv, Tone::Muted), ("Thought: "@, Tone::Muted, true), seg(tv, Tone::Dim)];
    let mut header: Vec<Segment> = Vec::new();
    header.push(Segment { text: mark, tone: Tone::Muted, bold: false });
    header.push(Segment { text: owned("Thought: "), tone: Tone::Muted, bold: true });
    header.push(Segment { text: title, tone: Tone::Dim, bold: false });
    assert(header@.map_values(|x: Segment| x@) =~= h0);
    if !meta.as_str().is_empty() {
        header.push(Segment { text: meta, tone: Tone::Muted, bold: false });
        assert(header@.map_values(|x: Segment| x@) =~= h0 + seq![seg(mv, Tone::Muted)]);
    } else {
        assert(header@.map_values(|x: Segment| x@) =~= h0 + Seq::<(Seq<char>, Tone, bool)>::empty());
    }
    header
}

/// The lines of a reasoning block.
pub fn reasoning_collapsed_lines(summary: &str, secs: u64, tokens: u64, expanded: bool) -> (r: Vec<Vec<Segment>>)
    ensures
        lines_view(r@) == reasoning_lines_of(summary@, secs, tokens, expanded),
{
    let header = reasoning_header(summary, secs, tokens, expanded);
    let mut out: Vec<Vec<Segment>> = Vec::new();
    let ghost hv = header@.map_values(|x: Segment| x@);
    out.push(header);
    assert(lines_view(out@) =~= seq![hv]);
    if expanded {
        let mut body = indented_body(summary);
        let ghost bv = lines_view(body@);
        out.append(&mut body);
        assert(lines_view(out@) =~= seq![hv] + bv);
    } else {
        assert(seq![hv] + Seq::<Seq<(Seq<char>, Tone, bool)>>::empty() =~= seq![hv]);
    }
    out
}

} // verus!
