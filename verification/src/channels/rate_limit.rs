//! `AutoReplyRateLimiter`: a per-conversation rolling-window throttle for
//! autonomous channel sends, which breaks agent-to-agent reply loops by
//! capping how many auto-replies one conversation may emit per window.
//!
//! Time is caller-supplied (`now_ms`, monotonic milliseconds), so the
//! limiter never reads a clock.

use vstd::prelude::*;
use crate::assoc::{has_key, keys_distinct, lemma_map_of, lemma_map_of_push, lemma_map_of_remove, map_of};
use crate::channels::dedupe::sat_sub;

verus! {

/// Default cap on autonomous replies per conversation per window.
pub const DEFAULT_MAX_AUTO_REPLIES: usize = 30;

/// Default rolling window for [`DEFAULT_MAX_AUTO_REPLIES`], in
/// milliseconds (ten minutes).
pub const DEFAULT_AUTO_REPLY_WINDOW_MS: u64 = 600_000;

/// Default upper bound on the number of conversations tracked at once.
pub const DEFAULT_CONVERSATION_CAP: usize = 4096;

/// `h` without the leading sends that have aged out of the window at
/// `now` (elapsed time at least `window`).
pub open spec fn pruned(h: Seq<u64>, now: u64, window: u64) -> Seq<u64>
    decreases h.len(),
{
    if h.len() > 0 && sat_sub(now, h[0]) >= window {
        pruned(h.drop_first(), now, window)
    } else {
        h
    }
}

/// The history of `conv` in `m` (empty when untracked).
pub open spec fn history_of(m: Map<Seq<char>, Seq<u64>>, conv: Seq<char>) -> Seq<u64> {
    if m.dom().contains(conv) { m[conv] } else { Seq::empty() }
}

/// Whether a send of `conv` at `now` is allowed, and the histories after
/// it is recorded (before the conversation cap applies).
pub open spec fn recorded(m: Map<Seq<char>, Seq<u64>>, conv: Seq<char>, now: u64, max_sends: usize, window: u64)
    -> (bool, Map<Seq<char>, Seq<u64>>) {
    let h = pruned(history_of(m, conv), now, window);
    if h.len() >= max_sends {
        (false, m.insert(conv, h))
    } else {
        (true, m.insert(conv, h.push(now)))
    }
}

/// `m` without the drained (empty) histories, except `keep`'s.
pub open spec fn drained(m: Map<Seq<char>, Seq<u64>>, keep: Seq<char>) -> Map<Seq<char>, Seq<u64>> {
    Map::new(|k: Seq<char>| m.dom().contains(k) && (k == keep || m[k].len() > 0), |k: Seq<char>| m[k])
}

/// `after` is what the conversation cap leaves of `m`, keeping `keep`:
/// nothing changes within the cap (or with `cap == 0`); otherwise drained
/// histories go first, then least-recently-active conversations (oldest
/// most recent send) until the cap is met.
pub open spec fn cap_enforced(m: Map<Seq<char>, Seq<u64>>, keep: Seq<char>, cap: usize, after: Map<Seq<char>, Seq<u64>>) -> bool {
    if cap == 0 || m.dom().len() <= cap {
        after == m
    } else {
        let d = drained(m, keep);
        &&& after.submap_of(d)
        &&& after.dom().contains(keep)
        &&& after.dom().len() == if d.dom().len() > cap { cap as nat } else { d.dom().len() }
        &&& forall|a: Seq<char>, b: Seq<char>| d.dom().contains(a) && !after.dom().contains(a)
                && after.dom().contains(b) && b != keep ==> #[trigger] d[a].last() <= #[trigger] d[b].last()
    }
}

/// Per-conversation rolling-window limiter for autonomous sends.
#[derive(Debug, Clone)]
pub struct AutoReplyRateLimiter {
    max_sends: usize,
    window_ms: u64,
    cap: usize,
    conversations: Vec<(String, Vec<u64>)>,
}

/// Eviction part way through: `cur` is a sub-map of `d` holding `keep`,
/// either all of `d` or still above the cap before the last eviction, and
/// nothing evicted was more recently active than a kept conversation.
spec fn cap_partial(d: Map<Seq<char>, Seq<u64>>, keep: Seq<char>, cap: usize, cur: Map<Seq<char>, Seq<u64>>) -> bool {
    &&& forall|k: Seq<char>| #[trigger] cur.dom().contains(k) ==> d.dom().contains(k) && cur[k] == d[k]
    &&& d.dom().finite()
    &&& cur.dom().contains(keep)
    &&& (cur.dom().len() == d.dom().len() || (d.dom().len() > cap && cur.dom().len() >= cap))
    &&& forall|k: Seq<char>| #[trigger] d.dom().contains(k) && k != keep ==> d[k].len() > 0
    &&& forall|a: Seq<char>, b: Seq<char>| d.dom().contains(a) && !cur.dom().contains(a)
            && cur.dom().contains(b) && b != keep ==> #[trigger] d[a].last() <= #[trigger] d[b].last()
}

impl AutoReplyRateLimiter {
    pub closed spec fn pairs(&self) -> Seq<(Seq<char>, Seq<u64>)> {
        self.conversations@.map_values(|p: (String, Vec<u64>)| (p.0@, p.1@))
    }

    /// Conversation id -> timestamps of its recent recorded sends.
    pub closed spec fn map(&self) -> Map<Seq<char>, Seq<u64>> {
        map_of(self.pairs())
    }

    pub closed spec fn max_sends(&self) -> usize {
        self.max_sends
    }

    pub closed spec fn window(&self) -> u64 {
        self.window_ms
    }

    pub closed spec fn cap(&self) -> usize {
        self.cap
    }

    /// No conversation is tracked twice.
    pub closed spec fn wf(&self) -> bool {
        keys_distinct(self.pairs())
    }

    /// A limiter allowing `max_sends` per `window_ms` per conversation,
    /// tracking at most `cap` conversations (`0`: unbounded). A zero
    /// window disables limiting.
    pub fn new(max_sends: usize, window_ms: u64, cap: usize) -> (r: Self)
        ensures
            r.wf(),
            r.map() == Map::<Seq<char>, Seq<u64>>::empty(),
            r.max_sends() == max_sends,
            r.window() == window_ms,
            r.cap() == cap,
    {
        let r = AutoReplyRateLimiter { max_sends, window_ms, cap, conversations: Vec::new() };
        proof {
            assert(r.pairs() =~= Seq::empty());
        }
        r
    }

    /// Position of `conv` in the list, if tracked.
    fn find(&self, conv: &String) -> (r: Option<usize>)
        ensures
            match r {
                Some(i) => i < self.conversations@.len() && self.pairs()[i as int].0 == conv@,
                None => !has_key(self.pairs(), conv@),
            },
    {
        let mut i: usize = 0;
        while i < self.conversations.len()
            invariant
                i <= self.conversations@.len(),
                forall|j: int| 0 <= j < i ==> self.pairs()[j].0 != conv@,
            decreases self.conversations@.len() - i,
        {
            if self.conversations[i].0 == *conv {
                return Some(i);
            }
            i += 1;
        }
        None
    }

    /// Whether an autonomous send for `conversation` is permitted at
    /// `now_ms`, recording it if so. The conversation's history is first
    /// pruned to the window; the send is allowed (and recorded) only when
    /// fewer than `max_sends` remain; a suppressed send is not recorded.
    /// A disabled limiter (zero window) always allows and records nothing.
    /// Afterwards the number of tracked conversations is brought within
    /// the cap, never evicting `conversation`.
    pub fn check_and_record(&mut self, conversation: &str, now_ms: u64) -> (r: bool)
        requires
            old(self).wf(),
        ensures
            final(self).wf(),
            final(self).max_sends() == old(self).max_sends(),
            final(self).window() == old(self).window(),
            final(self).cap() == old(self).cap(),
            old(self).window() == 0 ==> r && final(self).map() == old(self).map(),
            old(self).window() > 0 ==> ({
                let (allowed, m1) = recorded(old(self).map(), conversation@, now_ms, old(self).max_sends(), old(self).window());
                &&& r == allowed
                &&& cap_enforced(m1, conversation@, old(self).cap(), final(self).map())
            }),
    {
        if self.window_ms == 0 {
            return true;
        }
        let conv = conversation.to_owned();
        let ghost m0 = self.map();
        proof {
            lemma_map_of(self.pairs());
        }
        let mut history: Vec<u64> = match self.find(&conv) {
            Some(i) => {
                let ghost before = self.pairs();
                proof {
                    lemma_map_of_remove(before, i as int);
                }
                let (_, h) = self.conversations.remove(i);
                proof {
                    assert(self.pairs() =~= before.remove(i as int));
                }
                h
            },
            None => Vec::new(),
        };
        proof {
            assert(history@ == history_of(m0, conv@));
            assert(self.map() == m0.remove(conv@));
        }
        prune(&mut history, now_ms, self.window_ms);
        let allowed = if history.len() >= self.max_sends {
            false
        } else {
            history.push(now_ms);
            true
        };
        let ghost before = self.pairs();
        let ghost h = history@;
        proof {
            lemma_map_of(before);
            assert(!has_key(before, conv@)) by {
                if has_key(before, conv@) {
                    let j = choose|j: int| 0 <= j < before.len() && before[j].0 == conv@;
                    assert(map_of(before).dom().contains(conv@));
                }
            }
            lemma_map_of_push(before, conv@, h);
        }
        self.conversations.push((conv, history));
        proof {
            assert(self.pairs() =~= before.push((conv@, h)));
            assert(self.map() =~= m0.insert(conversation@, h));
        }
        self.enforce_cap(conversation);
        allowed
    }

    /// Bring the number of tracked conversations within the cap, keeping
    /// `keep`: drained histories go first, then least-recently-active
    /// conversations.
    fn enforce_cap(&mut self, keep: &str)
        requires
            old(self).wf(),
            old(self).map().dom().contains(keep@),
        ensures
            final(self).wf(),
            final(self).max_sends() == old(self).max_sends(),
            final(self).window() == old(self).window(),
            final(self).cap() == old(self).cap(),
            cap_enforced(old(self).map(), keep@, old(self).cap(), final(self).map()),
    {
        let ghost m1 = self.map();
        proof {
            lemma_map_of(self.pairs());
        }
        if self.cap == 0 || self.conversations.len() <= self.cap {
            return;
        }
        let keep_s = keep.to_owned();
        let ghost d = drained(m1, keep@);
        let mut i: usize = 0;
        while i < self.conversations.len()
            invariant
                self.wf(),
                i <= self.conversations@.len(),
                drained(self.map(), keep@) == d,
                self.map().dom().contains(keep@),
                forall|j: int| 0 <= j < i ==> (#[trigger] self.pairs()[j]).0 == keep@ || self.pairs()[j].1.len() > 0,
                self.cap == old(self).cap,
                self.max_sends == old(self).max_sends,
                self.window_ms == old(self).window_ms,
                keep_s@ == keep@,
            decreases self.conversations@.len() - i,
        {
            if self.conversations[i].0 == keep_s || self.conversations[i].1.len() > 0 {
                i += 1;
            } else {
                let ghost before = self.pairs();
                let ghost k = before[i as int].0;
                proof {
                    lemma_map_of(before);
                    lemma_map_of_remove(before, i as int);
                }
                self.conversations.remove(i);
                proof {
                    assert(self.pairs() =~= before.remove(i as int));
                    assert(drained(map_of(before).remove(k), keep@) =~= drained(map_of(before), keep@));
                    assert forall|j: int| 0 <= j < i implies (#[trigger] self.pairs()[j]).0 == keep@ || self.pairs()[j].1.len() > 0 by {
                        assert(self.pairs()[j] == before[j]);
                    }
                }
            }
        }
        proof {
            let p = self.pairs();
            lemma_map_of(p);
            assert forall|k| #[trigger] self.map().dom().contains(k) implies k == keep@ || self.map()[k].len() > 0 by {
                let j = choose|j: int| 0 <= j < p.len() && p[j].0 == k;
            }
            assert(drained(self.map(), keep@) =~= self.map());
            assert(self.map() == d);
        }
        while self.conversations.len() > self.cap
            invariant
                self.wf(),
                self.cap > 0,
                cap_partial(d, keep@, self.cap, self.map()),
                self.cap == old(self).cap,
                self.max_sends == old(self).max_sends,
                self.window_ms == old(self).window_ms,
                keep_s@ == keep@,
            ensures
                self.wf(),
                cap_partial(d, keep@, self.cap, self.map()),
                self.conversations@.len() <= self.cap,
                self.cap == old(self).cap,
                self.max_sends == old(self).max_sends,
                self.window_ms == old(self).window_ms,
            decreases self.conversations@.len(),
        {
            let ghost before = self.pairs();
            let ghost cur0 = self.map();
            proof {
                lemma_map_of(before);
            }
            let v = match self.victim(&keep_s) {
                Some(v) => v,
                None => {
                    proof {
                        assert(before.len() > 1);
                        assert(before[0].0 == keep@);
                        assert(before[1].0 == keep@);
                        assert(before[0].0 != before[1].0);
                    }
                    break;
                },
            };
            proof {
                lemma_map_of_remove(before, v as int);
            }
            self.conversations.remove(v);
            proof {
                assert(self.pairs() =~= before.remove(v as int));
                lemma_map_of(self.pairs());
                let x = before[v as int].0;
                assert(self.map() == cur0.remove(x));
                assert forall|a, b| d.dom().contains(a) && !self.map().dom().contains(a)
                    && self.map().dom().contains(b) && b != keep@ implies #[trigger] d[a].last() <= #[trigger] d[b].last() by {
                    if a == x {
                        let j = choose|j: int| 0 <= j < self.pairs().len() && self.pairs()[j].0 == b;
                        let j2 = if j < v { j } else { j + 1 };
                        assert(self.pairs()[j] == before[j2]);
                        assert(cur0.dom().contains(x));
                        assert(cur0.dom().contains(b));
                        assert(cur0[x] == before[v as int].1);
                        assert(cur0[b] == before[j2].1);
                    } else {
                        assert(!cur0.dom().contains(a));
                        assert(cur0.dom().contains(b));
                    }
                }
            }
        }
        proof {
            lemma_map_of(self.pairs());
            assert(self.map().submap_of(d));
        }
    }

    /// Position of the least-recently-active conversation other than
    /// `keep` (smallest most-recent send), if any.
    fn victim(&self, keep: &String) -> (r: Option<usize>)
        requires
            self.wf(),
            forall|k: Seq<char>| #[trigger] self.map().dom().contains(k) && k != keep@ ==> self.map()[k].len() > 0,
        ensures
            match r {
                Some(v) => v < self.conversations@.len() && self.pairs()[v as int].0 != keep@
                    && self.pairs()[v as int].1.len() > 0
                    && forall|j: int| 0 <= j < self.conversations@.len() && self.pairs()[j].0 != keep@
                        ==> self.pairs()[v as int].1.last() <= #[trigger] self.pairs()[j].1.last(),
                None => forall|j: int| 0 <= j < self.conversations@.len() ==> #[trigger] self.pairs()[j].0 == keep@,
            },
    {
        proof {
            lemma_map_of(self.pairs());
        }
        let mut best: Option<usize> = None;
        let mut i: usize = 0;
        while i < self.conversations.len()
            invariant
                self.wf(),
                i <= self.conversations@.len(),
                forall|k: Seq<char>| #[trigger] self.map().dom().contains(k) ==> has_key(self.pairs(), k),
                forall|j: int| 0 <= j < self.conversations@.len() ==> #[trigger] self.map()[self.pairs()[j].0] == self.pairs()[j].1,
                forall|k: Seq<char>| #[trigger] self.map().dom().contains(k) && k != keep@ ==> self.map()[k].len() > 0,
                forall|k: Seq<char>| has_key(self.pairs(), k) ==> #[trigger] self.map().dom().contains(k),
                match best {
                    Some(b) => b < i && self.pairs()[b as int].0 != keep@ && self.pairs()[b as int].1.len() > 0
                        && forall|j: int| 0 <= j < i && self.pairs()[j].0 != keep@
                            ==> self.pairs()[b as int].1.last() <= #[trigger] self.pairs()[j].1.last(),
                    None => forall|j: int| 0 <= j < i ==> #[trigger] self.pairs()[j].0 == keep@,
                },
            decreases self.conversations@.len() - i,
        {
            if self.conversations[i].0 != *keep {
                proof {
                    let k = self.pairs()[i as int].0;
                    assert(has_key(self.pairs(), k));
                    assert(self.map().dom().contains(k));
                }
                let n = self.conversations[i].1.len();
                let last = self.conversations[i].1[n - 1];
                match best {
                    None => {
                        best = Some(i);
                    },
                    Some(b) => {
                        let bn = self.conversations[b].1.len();
                        if last < self.conversations[b].1[bn - 1] {
                            best = Some(i);
                        }
                    },
                }
            }
            i += 1;
        }
        best
    }

    /// Number of conversations currently tracked.
    pub fn tracked_conversations(&self) -> (r: usize)
        requires
            self.wf(),
        ensures
            r == self.map().dom().len(),
    {
        proof {
            lemma_map_of(self.pairs());
        }
        self.conversations.len()
    }
}

impl Default for AutoReplyRateLimiter {
    /// The standard guard: [`DEFAULT_MAX_AUTO_REPLIES`] per
    /// [`DEFAULT_AUTO_REPLY_WINDOW_MS`], bounded to
    /// [`DEFAULT_CONVERSATION_CAP`] conversations.
    fn default() -> (r: Self)
        ensures
            r.wf(),
            r.map() == Map::<Seq<char>, Seq<u64>>::empty(),
            r.max_sends() == DEFAULT_MAX_AUTO_REPLIES,
            r.window() == DEFAULT_AUTO_REPLY_WINDOW_MS,
            r.cap() == DEFAULT_CONVERSATION_CAP,
    {
        Self::new(DEFAULT_MAX_AUTO_REPLIES, DEFAULT_AUTO_REPLY_WINDOW_MS, DEFAULT_CONVERSATION_CAP)
    }
}

/// Drop the leading sends of `history` that aged out of the window.
fn prune(history: &mut Vec<u64>, now_ms: u64, window_ms: u64)
    ensures
        final(history)@ == pruned(old(history)@, now_ms, window_ms),
{
    loop
        invariant
            pruned(history@, now_ms, window_ms) == pruned(old(history)@, now_ms, window_ms),
        ensures
            history@ == pruned(old(history)@, now_ms, window_ms),
        decreases history@.len(),
    {
        if history.len() == 0 {
            break;
        }
        let front = history[0];
        let elapsed = if now_ms >= front { now_ms - front } else { 0 };
        if elapsed < window_ms {
            break;
        }
        let ghost h = history@;
        history.remove(0);
        assert(history@ == h.drop_first());
    }
}

/// Pruning only drops sends.
proof fn lemma_pruned_shorter(h: Seq<u64>, now: u64, window: u64)
    ensures
        pruned(h, now, window).len() <= h.len(),
    decreases h.len(),
{
    if h.len() > 0 && sat_sub(now, h[0]) >= window {
        lemma_pruned_shorter(h.drop_first(), now, window);
    }
}

/// A conversation never holds more than `max_sends` recorded sends in its
/// history, and an allowed send is recorded as the latest: once
/// `max_sends` sends fall inside the window, further sends are refused
/// until older ones age out.
pub proof fn law_sends_per_window_bounded(m: Map<Seq<char>, Seq<u64>>, conv: Seq<char>, now: u64, max_sends: usize, window: u64)
    requires
        history_of(m, conv).len() <= max_sends,
    ensures
        history_of(recorded(m, conv, now, max_sends, window).1, conv).len() <= max_sends,
        recorded(m, conv, now, max_sends, window).0 ==> history_of(recorded(m, conv, now, max_sends, window).1, conv).last() == now,
        !recorded(m, conv, now, max_sends, window).0 ==> pruned(history_of(m, conv), now, window).len() >= max_sends,
{
    lemma_pruned_shorter(history_of(m, conv), now, window);
}

} // verus!
