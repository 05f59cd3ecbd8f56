//! Outbound message chunking.
//!
//! Every chat platform caps a single message's length. [`chunk_message`]
//! splits an over-long body into platform-sized pieces, measured in
//! Unicode scalar values, that the sender delivers in order.

use vstd::prelude::*;
use crate::text::{chars_of, string_from, slice_vec};

verus! {

/// Index of the last occurrence of `c` in `s`, if any.
pub open spec fn last_index_of(s: Seq<char>, c: char) -> Option<int>
    decreases s.len(),
{
    if s.len() == 0 {
        None
    } else if s.last() == c {
        Some(s.len() - 1)
    } else {
        last_index_of(s.drop_last(), c)
    }
}

/// Where the chunk that starts at `start` ends, when the text runs past
/// `hard_end`: just after the last newline in the window, else just after
/// the last space, unless that break sits at the window's first position;
/// otherwise at `hard_end`.
pub open spec fn split_point(s: Seq<char>, start: int, hard_end: int) -> int {
    let window = s.subrange(start, hard_end);
    let cand = match last_index_of(window, '\n') {
        Some(i) => Some(i),
        None => last_index_of(window, ' '),
    };
    match cand {
        Some(i) => if i > 0 { start + i + 1 } else { hard_end },
        None => hard_end,
    }
}

/// The chunks of `s` from position `start` on, each at most `max` long.
pub open spec fn chunks_from(s: Seq<char>, start: int, max: int) -> Seq<Seq<char>>
    decreases s.len() - start,
{
    if start < 0 || max <= 0 || start >= s.len() {
        Seq::empty()
    } else {
        let hard_end = if start + max < s.len() { start + max } else { s.len() as int };
        if hard_end == s.len() {
            seq![s.subrange(start, s.len() as int)]
        } else {
            let split = split_point(s, start, hard_end);
            if start < split <= hard_end {
                seq![s.subrange(start, split)] + chunks_from(s, split, max)
            } else {
                Seq::empty()
            }
        }
    }
}

/// The chunks `chunk_message` produces for the characters `s`.
pub open spec fn chunked(s: Seq<char>, max: nat) -> Seq<Seq<char>> {
    if max == 0 || s.len() <= max {
        seq![s]
    } else {
        chunks_from(s, 0, max as int)
    }
}

/// All pieces joined back together.
pub open spec fn concat(parts: Seq<Seq<char>>) -> Seq<char>
    decreases parts.len(),
{
    if parts.len() == 0 {
        Seq::empty()
    } else {
        concat(parts.drop_last()) + parts.last()
    }
}

proof fn lemma_last_index_of(s: Seq<char>, c: char)
    ensures
        match last_index_of(s, c) {
            Some(i) => 0 <= i < s.len() && s[i] == c,
            None => true,
        },
    decreases s.len(),
{
    if s.len() > 0 && s.last() != c {
        lemma_last_index_of(s.drop_last(), c);
    }
}

proof fn lemma_split_point(s: Seq<char>, start: int, hard_end: int)
    requires
        0 <= start < hard_end <= s.len(),
    ensures
        start < split_point(s, start, hard_end) <= hard_end,
{
    let window = s.subrange(start, hard_end);
    lemma_last_index_of(window, '\n');
    lemma_last_index_of(window, ' ');
}

proof fn lemma_concat_push(parts: Seq<Seq<char>>, x: Seq<char>)
    ensures
        concat(parts.push(x)) == concat(parts) + x,
{
    assert(parts.push(x).drop_last() == parts);
}

proof fn lemma_concat_prepend(x: Seq<char>, parts: Seq<Seq<char>>)
    ensures
        concat(seq![x] + parts) == x + concat(parts),
    decreases parts.len(),
{
    if parts.len() == 0 {
        assert(seq![x] + parts =~= seq![x]);
        assert(seq![x].drop_last() =~= Seq::<Seq<char>>::empty());
        assert(concat(Seq::<Seq<char>>::empty()) == Seq::<char>::empty());
        assert(concat(seq![x]) == concat(Seq::<Seq<char>>::empty()) + x);
        assert(Seq::<char>::empty() + x =~= x);
        assert(x + Seq::<char>::empty() =~= x);
    } else {
        let q = parts.drop_last();
        lemma_concat_prepend(x, q);
        assert((seq![x] + parts).drop_last() =~= seq![x] + q);
        assert((seq![x] + parts).last() == parts.last());
        assert(concat(seq![x] + parts) == concat(seq![x] + q) + parts.last());
        assert(concat(parts) == concat(q) + parts.last());
        assert(x + concat(q) + parts.last() =~= x + (concat(q) + parts.last()));
    }
}

/// The chunks from `start` cover `s[start..]` exactly, each is non-empty
/// and at most `max` long.
proof fn lemma_chunks_from(s: Seq<char>, start: int, max: int)
    requires
        0 <= start <= s.len(),
        max > 0,
    ensures
        concat(chunks_from(s, start, max)) == s.subrange(start, s.len() as int),
        forall|k: int| 0 <= k < chunks_from(s, start, max).len() ==>
            0 < #[trigger] chunks_from(s, start, max)[k].len() <= max,
        start < s.len() ==> chunks_from(s, start, max).len() > 0,
    decreases s.len() - start,
{
    if start >= s.len() {
        assert(s.subrange(start, s.len() as int) == Seq::<char>::empty());
    } else {
        let hard_end = if start + max < s.len() { start + max } else { s.len() as int };
        if hard_end == s.len() {
            let r = seq![s.subrange(start, s.len() as int)];
            assert(r.drop_last() =~= Seq::<Seq<char>>::empty());
            assert(concat(Seq::<Seq<char>>::empty()) == Seq::<char>::empty());
            assert(Seq::<char>::empty() + s.subrange(start, s.len() as int) =~= s.subrange(start, s.len() as int));
        } else {
            lemma_split_point(s, start, hard_end);
            let split = split_point(s, start, hard_end);
            lemma_chunks_from(s, split, max);
            let rest = chunks_from(s, split, max);
            lemma_concat_prepend(s.subrange(start, split), rest);
            assert(s.subrange(start, split) + s.subrange(split, s.len() as int) =~= s.subrange(start, s.len() as int));
            assert(chunks_from(s, start, max) == seq![s.subrange(start, split)] + rest);
            let r = seq![s.subrange(start, split)] + rest;
            assert forall|k: int| 0 <= k < r.len() implies 0 < #[trigger] r[k].len() <= max by {
                if k > 0 {
                    assert(r[k] == rest[k - 1]);
                }
            }
        }
    }
}

proof fn lemma_split_point_break(s: Seq<char>, start: int, hard_end: int)
    requires
        0 <= start < hard_end <= s.len(),
    ensures
        split_point(s, start, hard_end) == hard_end
            || s[split_point(s, start, hard_end) - 1] == '\n'
            || s[split_point(s, start, hard_end) - 1] == ' ',
{
    let window = s.subrange(start, hard_end);
    lemma_last_index_of(window, '\n');
    lemma_last_index_of(window, ' ');
}

proof fn lemma_chunks_from_breaks(s: Seq<char>, start: int, max: int)
    requires
        0 <= start <= s.len(),
        max > 0,
    ensures
        forall|k: int| 0 <= k < chunks_from(s, start, max).len() - 1 ==>
            (#[trigger] chunks_from(s, start, max)[k]).len() == max
            || chunks_from(s, start, max)[k].last() == '\n'
            || chunks_from(s, start, max)[k].last() == ' ',
    decreases s.len() - start,
{
    if start < s.len() {
        let hard_end = if start + max < s.len() { start + max } else { s.len() as int };
        if hard_end < s.len() {
            lemma_split_point(s, start, hard_end);
            lemma_split_point_break(s, start, hard_end);
            let split = split_point(s, start, hard_end);
            lemma_chunks_from_breaks(s, split, max);
            let rest = chunks_from(s, split, max);
            let r = seq![s.subrange(start, split)] + rest;
            assert(chunks_from(s, start, max) == r);
            assert forall|k: int| 0 <= k < r.len() - 1 implies
                (#[trigger] r[k]).len() == max || r[k].last() == '\n' || r[k].last() == ' ' by {
                if k > 0 {
                    assert(r[k] == rest[k - 1]);
                } else {
                    assert(r[0] == s.subrange(start, split));
                    if split < hard_end {
                        assert(r[0].last() == s[split - 1]);
                    }
                }
            }
        }
    }
}

/// Chunking is lossless and cuts only at breaks: the chunks join back into
/// the text, none is longer than a nonzero cap, and every chunk but the last
/// ends just after a newline or a space, or fills the cap (a hard split of
/// an unbroken run).
pub proof fn law_chunks_cut_at_breaks(s: Seq<char>, max: nat)
    ensures
        concat(chunked(s, max)) == s,
        max > 0 ==> forall|k: int| 0 <= k < chunked(s, max).len() ==> (#[trigger] chunked(s, max)[k]).len() <= max,
        forall|k: int| 0 <= k < chunked(s, max).len() - 1 ==>
            (#[trigger] chunked(s, max)[k]).len() == max
            || chunked(s, max)[k].last() == '\n'
            || chunked(s, max)[k].last() == ' ',
{
    if max == 0 || s.len() <= max {
        lemma_concat_push(Seq::empty(), s);
        assert(Seq::<Seq<char>>::empty().push(s) =~= seq![s]);
        assert(concat(Seq::<Seq<char>>::empty()) == Seq::<char>::empty());
        assert(Seq::<char>::empty() + s =~= s);
    } else {
        lemma_chunks_from(s, 0, max as int);
        lemma_chunks_from_breaks(s, 0, max as int);
        assert(s.subrange(0, s.len() as int) =~= s);
    }
}

/// The character `p` places after `off` in `s`.
pub open spec fn char_at(s: Seq<char>, off: int, p: int) -> char {
    s[off + p]
}

proof fn lemma_last_index_of_max(s: Seq<char>, c: char)
    ensures
        match last_index_of(s, c) {
            Some(i) => 0 <= i < s.len() && s[i] == c && forall|j: int| i < j < s.len() ==> s[j] != c,
            None => forall|j: int| 0 <= j < s.len() ==> s[j] != c,
        },
    decreases s.len(),
{
    if s.len() > 0 && s.last() != c {
        lemma_last_index_of_max(s.drop_last(), c);
        assert forall|j: int| 0 <= j < s.len() - 1 implies s[j] == s.drop_last()[j] by {}
    }
}

/// The first chunk cut from `start` when the text runs past the window of
/// `max` characters: it ends just after the window's last newline if one
/// stands after the window's first position; failing any newline in the
/// window, just after its last space if one stands after the first
/// position; otherwise it fills the window.
proof fn lemma_first_chunk_rule(s: Seq<char>, start: int, max: int)
    requires
        0 <= start,
        max > 0,
        start + max < s.len(),
    ensures
        ({
            let len = split_point(s, start, start + max) - start;
            let nl_after_first = exists|p: int| 0 < p < max && char_at(s, start, p) == '\n';
            let no_nl = forall|p: int| 0 <= p < max ==> char_at(s, start, p) != '\n';
            let sp_after_first = exists|p: int| 0 < p < max && char_at(s, start, p) == ' ';
            &&& 0 < len <= max
            &&& nl_after_first ==> s[start + len - 1] == '\n'
                && forall|j: int| len <= j < max ==> char_at(s, start, j) != '\n'
            &&& no_nl && sp_after_first ==> s[start + len - 1] == ' '
                && forall|j: int| len <= j < max ==> char_at(s, start, j) != ' '
            &&& !nl_after_first && !(no_nl && sp_after_first) ==> len == max
        }),
{
    let hard_end = start + max;
    let w = s.subrange(start, hard_end);
    lemma_last_index_of_max(w, '\n');
    lemma_last_index_of_max(w, ' ');
    lemma_split_point(s, start, hard_end);
    assert forall|p: int| 0 <= p < max implies #[trigger] char_at(s, start, p) == w[p] by {}
    let len = split_point(s, start, hard_end) - start;
    match last_index_of(w, '\n') {
        Some(i) => {
            assert(char_at(s, start, i) == '\n');
            if i > 0 {
                assert(len == i + 1);
                assert(s[start + len - 1] == w[i]);
                assert forall|j: int| len <= j < max implies char_at(s, start, j) != '\n' by {
                    assert(w[j] != '\n');
                }
            } else {
                assert(len == max);
                assert(!(exists|p: int| 0 < p < max && char_at(s, start, p) == '\n')) by {
                    assert forall|p: int| 0 < p < max implies char_at(s, start, p) != '\n' by {
                        assert(w[p] != '\n');
                    }
                }
            }
        },
        None => {
            assert forall|p: int| 0 <= p < max implies char_at(s, start, p) != '\n' by {
                assert(w[p] != '\n');
            }
            match last_index_of(w, ' ') {
                Some(i) => {
                    assert(char_at(s, start, i) == ' ');
                    if i > 0 {
                        assert(len == i + 1);
                        assert(s[start + len - 1] == w[i]);
                        assert forall|j: int| len <= j < max implies char_at(s, start, j) != ' ' by {
                            assert(w[j] != ' ');
                        }
                    } else {
                        assert(len == max);
                        assert forall|p: int| 0 < p < max implies char_at(s, start, p) != ' ' by {
                            assert(w[p] != ' ');
                        }
                    }
                },
                None => {
                    assert(len == max);
                    assert forall|p: int| 0 < p < max implies char_at(s, start, p) != ' ' by {
                        assert(w[p] != ' ');
                    }
                },
            }
        },
    }
}

proof fn lemma_chunks_from_rule(s: Seq<char>, start: int, max: int, k: int)
    requires
        0 <= start <= s.len(),
        max > 0,
        0 <= k < chunks_from(s, start, max).len() - 1,
    ensures
        ({
            let parts = chunks_from(s, start, max);
            let off = start + concat(parts.take(k)).len();
            let c = parts[k];
            let nl_after_first = exists|p: int| 0 < p < max && char_at(s, off, p) == '\n';
            let no_nl = forall|p: int| 0 <= p < max ==> char_at(s, off, p) != '\n';
            let sp_after_first = exists|p: int| 0 < p < max && char_at(s, off, p) == ' ';
            &&& 0 <= off
            &&& off + max < s.len()
            &&& 0 < c.len() <= max
            &&& c == s.subrange(off, off + c.len())
            &&& nl_after_first ==> c.last() == '\n'
                && forall|j: int| c.len() <= j < max ==> char_at(s, off, j) != '\n'
            &&& no_nl && sp_after_first ==> c.last() == ' '
                && forall|j: int| c.len() <= j < max ==> char_at(s, off, j) != ' '
            &&& !nl_after_first && !(no_nl && sp_after_first) ==> c.len() == max
        }),
    decreases k,
{
    let parts = chunks_from(s, start, max);
    let hard_end = if start + max < s.len() { start + max } else { s.len() as int };
    assert(start < s.len());
    if hard_end == s.len() {
        assert(parts.len() == 1);
    }
    assert(hard_end == start + max);
    lemma_split_point(s, start, hard_end);
    let split = split_point(s, start, hard_end);
    let rest = chunks_from(s, split, max);
    assert(parts == seq![s.subrange(start, split)] + rest);
    if k == 0 {
        lemma_first_chunk_rule(s, start, max);
        assert(parts.take(0) =~= Seq::<Seq<char>>::empty());
        assert(concat(Seq::<Seq<char>>::empty()) == Seq::<char>::empty());
        let c = parts[0];
        assert(c == s.subrange(start, split));
        assert(c.last() == s[split - 1]);
    } else {
        lemma_chunks_from_rule(s, split, max, k - 1);
        assert(parts.take(k) =~= seq![s.subrange(start, split)] + rest.take(k - 1));
        lemma_concat_prepend(s.subrange(start, split), rest.take(k - 1));
        assert(parts[k] == rest[k - 1]);
    }
}

/// How a long message is cut: every chunk but the last starts where the
/// previous one ended (its offset is the length of the chunks before it),
/// is the text from there on, and of the window of `max` characters from
/// its start it takes everything up to and including the window's last
/// newline when a newline stands after the window's first position; with
/// no newline anywhere in the window, up to and including its last space
/// when a space stands after the first position; and otherwise the whole
/// window.
pub proof fn law_chunk_breaks_at_last_newline_then_space(s: Seq<char>, max: nat, k: int)
    requires
        0 <= k < chunked(s, max).len() - 1,
    ensures
        ({
            let parts = chunked(s, max);
            let off = concat(parts.take(k)).len() as int;
            let c = parts[k];
            let nl_after_first = exists|p: int| 0 < p < max && char_at(s, off, p) == '\n';
            let no_nl = forall|p: int| 0 <= p < max ==> char_at(s, off, p) != '\n';
            let sp_after_first = exists|p: int| 0 < p < max && char_at(s, off, p) == ' ';
            &&& off + max < s.len()
            &&& c == s.subrange(off, off + c.len())
            &&& nl_after_first ==> c.last() == '\n'
                && forall|j: int| c.len() <= j < max ==> char_at(s, off, j) != '\n'
            &&& no_nl && sp_after_first ==> c.last() == ' '
                && forall|j: int| c.len() <= j < max ==> char_at(s, off, j) != ' '
            &&& !nl_after_first && !(no_nl && sp_after_first) ==> c.len() == max
        }),
{
    assert(max > 0 && s.len() > max);
    lemma_chunks_from_rule(s, 0, max as int, k);
}

/// Split `text` into chunks of at most `max_len` characters each,
/// preferring to break just after the last newline (then the last space)
/// inside the window, and falling back to a hard split for an unbroken
/// run. With `max_len == 0` (cap unknown) or a text that already fits,
/// the text comes back as its single chunk.
pub fn chunk_message(text: &str, max_len: usize) -> (r: Vec<String>)
    ensures
        r.deep_view() == chunked(text@, max_len as nat),
        concat(r.deep_view()) == text@,
        r.len() >= 1,
        max_len > 0 ==> forall|k: int| 0 <= k < r.len() ==> #[trigger] r.deep_view()[k].len() <= max_len,
        text@.len() > 0 ==> forall|k: int| 0 <= k < r.len() ==> #[trigger] r.deep_view()[k].len() > 0,
{
    let chars = chars_of(text);
    let total = chars.len();
    if max_len == 0 || total <= max_len {
        let mut r: Vec<String> = Vec::new();
        r.push(string_from(&chars));
        proof {
            assert(r.deep_view() =~= seq![text@]);
            lemma_concat_push(Seq::empty(), text@);
            assert(Seq::<char>::empty() + text@ == text@);
        }
        return r;
    }
    let ghost s = chars@;
    let mut chunks: Vec<String> = Vec::new();
    let mut start: usize = 0;
    proof {
        lemma_chunks_from(s, 0, max_len as int);
    }
    while start < total
        invariant_except_break
            s == chars@,
            total == chars.len(),
            0 < max_len < total,
            start <= total,
            chunks.deep_view() + chunks_from(s, start as int, max_len as int) == chunks_from(s, 0, max_len as int),
        ensures
            chunks.deep_view() == chunks_from(s, 0, max_len as int),
        decreases total - start,
    {
        let hard_end = if max_len >= total - start { total } else { start + max_len };
        if hard_end == total {
            let ghost before = chunks.deep_view();
            chunks.push(string_from(&slice_vec(&chars, start, total)));
            proof {
                assert(chunks_from(s, start as int, max_len as int) == seq![s.subrange(start as int, total as int)]);
                assert(chunks.deep_view() == before.push(s.subrange(start as int, total as int)));
                assert(before + seq![s.subrange(start as int, total as int)] == before.push(s.subrange(start as int, total as int)));
            }
            break;
        }
        let split_at = find_split(&chars, start, hard_end);
        proof {
            lemma_split_point(s, start as int, hard_end as int);
        }
        let piece = string_from(&slice_vec(&chars, start, split_at));
        let ghost before = chunks.deep_view();
        chunks.push(piece);
        proof {
            let rest = chunks_from(s, split_at as int, max_len as int);
            assert(chunks_from(s, start as int, max_len as int) == seq![s.subrange(start as int, split_at as int)] + rest);
            assert(chunks.deep_view() == before.push(s.subrange(start as int, split_at as int)));
            assert(before.push(s.subrange(start as int, split_at as int)) + rest
                == before + (seq![s.subrange(start as int, split_at as int)] + rest));
        }
        start = split_at;
    }
    proof {
        if start >= total {
            assert(chunks_from(s, start as int, max_len as int) == Seq::<Seq<char>>::empty());
            assert(chunks.deep_view() + Seq::<Seq<char>>::empty() == chunks.deep_view());
        }
        assert(chunks.deep_view() == chunks_from(s, 0, max_len as int));
        assert(s.subrange(0, s.len() as int) == s);
    }
    chunks
}

/// The index where the chunk starting at `start` ends (see [`split_point`]).
fn find_split(chars: &Vec<char>, start: usize, hard_end: usize) -> (r: usize)
    requires
        start < hard_end <= chars.len(),
    ensures
        r as int == split_point(chars@, start as int, hard_end as int),
{
    let ghost window = chars@.subrange(start as int, hard_end as int);
    proof {
        lemma_last_index_of(window, '\n');
        lemma_last_index_of(window, ' ');
    }
    let nl = rposition(chars, start, hard_end, '\n');
    let cand = match nl {
        Some(i) => Some(i),
        None => rposition(chars, start, hard_end, ' '),
    };
    match cand {
        Some(i) => if i > 0 { start + i + 1 } else { hard_end },
        None => hard_end,
    }
}

/// Position (relative to `lo`) of the last `c` in `chars[lo..hi]`.
fn rposition(chars: &Vec<char>, lo: usize, hi: usize, c: char) -> (r: Option<usize>)
    requires
        lo <= hi <= chars.len(),
    ensures
        match last_index_of(chars@.subrange(lo as int, hi as int), c) {
            Some(i) => r == Some(i as usize),
            None => r is None,
        },
{
    let mut k: usize = hi;
    while k > lo
        invariant
            lo <= k <= hi <= chars.len(),
            last_index_of(chars@.subrange(lo as int, hi as int), c)
                == last_index_of(chars@.subrange(lo as int, k as int), c),
        decreases k,
    {
        let ghost w = chars@.subrange(lo as int, k as int);
        assert(w.last() == chars@[k - 1]);
        assert(w.drop_last() == chars@.subrange(lo as int, k - 1));
        if chars[k - 1] == c {
            return Some(k - 1 - lo);
        }
        k -= 1;
    }
    None
}

} // verus!
