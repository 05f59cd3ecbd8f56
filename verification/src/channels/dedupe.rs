//! `DedupeCache`: bounded TTL + LRU duplicate-suppression cache keyed by
//! `(platform, account, message_id)`. Time is caller-supplied (`now_ms`,
//! monotonic milliseconds), so the cache never reads a clock.

use vstd::prelude::*;
use crate::assoc::{has_key, keys_distinct, lemma_map_of, lemma_map_of_push, lemma_map_of_remove, lemma_map_of_update, map_of};

verus! {

/// Identity of one inbound message for dedup purposes; two messages
/// collide only when all three fields are equal.
#[derive(Debug, Clone, PartialEq, Eq, Hash)]
pub struct DedupeKey {
    /// Platform tag (`"slack"`, `"telegram"`, …).
    pub platform: String,
    /// Receiving bot/account identity (empty when single-account).
    pub account_id: String,
    /// Platform-assigned message id.
    pub message_id: String,
}

impl View for DedupeKey {
    type V = (Seq<char>, Seq<char>, Seq<char>);

    open spec fn view(&self) -> Self::V {
        (self.platform@, self.account_id@, self.message_id@)
    }
}

impl DedupeKey {
    /// Convenience constructor.
    pub fn new(platform: &str, account_id: &str, message_id: &str) -> (k: Self)
        ensures
            k@ == (platform@, account_id@, message_id@),
    {
        DedupeKey {
            platform: platform.to_owned(),
            account_id: account_id.to_owned(),
            message_id: message_id.to_owned(),
        }
    }

    /// Field-wise equality.
    pub fn same(&self, other: &DedupeKey) -> (r: bool)
        ensures
            r == (self@ == other@),
    {
        self.platform == other.platform && self.account_id == other.account_id
            && self.message_id == other.message_id
    }
}

/// A tracked key's timestamps: `first_seen` anchors TTL expiry,
/// `last_seen` tracks recency for LRU eviction.
#[derive(Debug, Clone, Copy)]
struct Entry {
    first_seen: u64,
    last_seen: u64,
}

/// `a - b`, floored at zero.
pub open spec fn sat_sub(a: u64, b: u64) -> u64 {
    if a >= b { (a - b) as u64 } else { 0 }
}

/// An entry first seen at `e.0` is still live at `now` under `ttl`
/// (`ttl == 0` means entries never expire).
pub open spec fn fresh(e: (u64, u64), ttl: u64, now: u64) -> bool {
    ttl == 0 || sat_sub(now, e.0) < ttl
}

/// The entries of `m` still live at `now`.
pub open spec fn swept<K>(m: Map<K, (u64, u64)>, ttl: u64, now: u64) -> Map<K, (u64, u64)> {
    Map::new(|k: K| m.dom().contains(k) && fresh(m[k], ttl, now), |k: K| m[k])
}

/// `kept` is what LRU eviction may leave of `m` before a new key is added
/// under the size cap `max`: a sub-map of the right size, and nothing
/// evicted was used more recently than anything kept.
pub open spec fn lru_trimmed<K>(m: Map<K, (u64, u64)>, kept: Map<K, (u64, u64)>, max: usize) -> bool {
    &&& kept.submap_of(m)
    &&& kept.dom().len() == if max > 0 && m.dom().len() >= max { (max - 1) as nat } else { m.dom().len() }
    &&& forall|a: K, b: K| m.dom().contains(a) && !kept.dom().contains(a) && kept.dom().contains(b)
            ==> #[trigger] m[a].1 <= #[trigger] m[b].1
}

/// The state of LRU eviction part way through: `cur` is a sub-map of `m`
/// that is either all of `m` or holds at least `max - 1` entries after
/// `m` held at least `max`, and nothing evicted was used more recently
/// than anything kept.
spec fn lru_trimmed_partial<K>(m: Map<K, (u64, u64)>, cur: Map<K, (u64, u64)>, max: usize) -> bool {
    &&& forall|k: K| #[trigger] cur.dom().contains(k) ==> m.dom().contains(k) && cur[k] == m[k]
    &&& m.dom().finite()
    &&& (cur.dom().len() == m.dom().len() || (m.dom().len() >= max && cur.dom().len() >= max - 1))
    &&& forall|a: K, b: K| m.dom().contains(a) && !cur.dom().contains(a) && cur.dom().contains(b)
            ==> #[trigger] m[a].1 <= #[trigger] m[b].1
}

/// Bounded duplicate-suppression cache with TTL expiry (`ttl_ms`,
/// measured from first sight; `0` disables it) and LRU eviction past
/// `max_size` entries (`0` disables it).
#[derive(Debug, Clone)]
pub struct DedupeCache {
    ttl_ms: u64,
    max_size: usize,
    entries: Vec<(DedupeKey, Entry)>,
}

impl DedupeCache {
    /// The entries as `(key, (first_seen, last_seen))` pairs.
    pub closed spec fn pairs(&self) -> Seq<((Seq<char>, Seq<char>, Seq<char>), (u64, u64))> {
        self.entries@.map_values(|p: (DedupeKey, Entry)| (p.0@, (p.1.first_seen, p.1.last_seen)))
    }

    /// The tracked keys with their `(first_seen, last_seen)`.
    pub closed spec fn map(&self) -> Map<(Seq<char>, Seq<char>, Seq<char>), (u64, u64)> {
        map_of(self.pairs())
    }

    pub closed spec fn ttl(&self) -> u64 {
        self.ttl_ms
    }

    pub closed spec fn max_size(&self) -> usize {
        self.max_size
    }

    /// The cache's internal invariant: no key is tracked twice.
    pub closed spec fn wf(&self) -> bool {
        keys_distinct(self.pairs())
    }

    /// An empty cache.
    pub fn new(ttl_ms: u64, max_size: usize) -> (c: Self)
        ensures
            c.wf(),
            c.map() == Map::<(Seq<char>, Seq<char>, Seq<char>), (u64, u64)>::empty(),
            c.ttl() == ttl_ms,
            c.max_size() == max_size,
    {
        let c = DedupeCache { ttl_ms, max_size, entries: Vec::new() };
        proof {
            assert(c.pairs() =~= Seq::empty());
        }
        c
    }

    /// Position of `key` in the entries, if tracked.
    fn find(&self, key: &DedupeKey) -> (r: Option<usize>)
        requires
            self.wf(),
        ensures
            match r {
                Some(i) => i < self.entries@.len() && self.pairs()[i as int].0 == key@,
                None => !has_key(self.pairs(), key@),
            },
    {
        let mut i: usize = 0;
        while i < self.entries.len()
            invariant
                i <= self.entries@.len(),
                forall|j: int| 0 <= j < i ==> self.pairs()[j].0 != key@,
            decreases self.entries@.len() - i,
        {
            if self.entries[i].0.same(key) {
                return Some(i);
            }
            i += 1;
        }
        None
    }

    /// Drop every entry that is no longer live at `now_ms`.
    fn evict_expired(&mut self, now_ms: u64)
        requires
            old(self).wf(),
        ensures
            final(self).wf(),
            final(self).map() == swept(old(self).map(), old(self).ttl(), now_ms),
            final(self).ttl() == old(self).ttl(),
            final(self).max_size() == old(self).max_size(),
            final(self).pairs().len() <= old(self).pairs().len(),
    {
        let ghost m0 = self.map();
        if self.ttl_ms == 0 {
            assert(swept(m0, 0, now_ms) =~= m0);
            return;
        }
        let ttl = self.ttl_ms;
        let mut i: usize = 0;
        while i < self.entries.len()
            invariant
                self.wf(),
                self.ttl_ms == ttl,
                ttl > 0,
                i <= self.entries@.len(),
                swept(self.map(), ttl, now_ms) == swept(m0, ttl, now_ms),
                forall|j: int| 0 <= j < i ==> fresh(#[trigger] self.pairs()[j].1, ttl, now_ms),
                self.max_size == old(self).max_size,
                self.entries@.len() <= old(self).entries@.len(),
            decreases self.entries@.len() - i,
        {
            let first = self.entries[i].1.first_seen;
            let age = if now_ms >= first { now_ms - first } else { 0 };
            if age < ttl {
                i += 1;
            } else {
                let ghost before = self.pairs();
                let ghost k = before[i as int].0;
                proof {
                    lemma_map_of(before);
                    lemma_map_of_remove(before, i as int);
                }
                self.entries.remove(i);
                proof {
                    assert(self.pairs() =~= before.remove(i as int));
                    assert(swept(map_of(before).remove(k), ttl, now_ms) =~= swept(map_of(before), ttl, now_ms));
                    assert forall|j: int| 0 <= j < i implies fresh(#[trigger] self.pairs()[j].1, ttl, now_ms) by {
                        assert(self.pairs()[j] == before[j]);
                    }
                }
            }
        }
        proof {
            let p = self.pairs();
            lemma_map_of(p);
            assert forall|k| #[trigger] self.map().dom().contains(k) implies fresh(self.map()[k], ttl, now_ms) by {
                let j = choose|j: int| 0 <= j < p.len() && p[j].0 == k;
            }
            assert(swept(self.map(), ttl, now_ms) =~= self.map());
        }
    }

    /// Position of the least-recently-used entry (smallest `last_seen`).
    fn lru_index(&self) -> (r: usize)
        requires
            self.entries@.len() > 0,
        ensures
            r < self.entries@.len(),
            forall|j: int| 0 <= j < self.entries@.len() ==> self.pairs()[r as int].1.1 <= #[trigger] self.pairs()[j].1.1,
    {
        let mut best: usize = 0;
        let mut i: usize = 1;
        while i < self.entries.len()
            invariant
                1 <= i <= self.entries@.len(),
                best < i,
                forall|j: int| 0 <= j < i ==> self.pairs()[best as int].1.1 <= #[trigger] self.pairs()[j].1.1,
            decreases self.entries@.len() - i,
        {
            if self.entries[i].1.last_seen < self.entries[best].1.last_seen {
                best = i;
            }
            i += 1;
        }
        best
    }

    /// Check-and-record. Returns `true` when `key` is new (never seen, or
    /// its entry expired) and records it at `now_ms`; returns `false` for
    /// a live duplicate and refreshes that entry's recency to `now_ms`
    /// (its TTL anchor stays). Expired entries are swept first; before a
    /// new key is recorded, least-recently-used entries are evicted so the
    /// cache stays within `max_size`. Afterwards `key` is live, every other
    /// tracked key was live before with the same timestamps, and the cache
    /// grew by at most the one entry, staying within a nonzero `max_size`
    /// it was within.
    pub fn check(&mut self, key: DedupeKey, now_ms: u64) -> (r: bool)
        requires
            old(self).wf(),
        ensures
            final(self).wf(),
            final(self).map().dom().finite(),
            final(self).map().dom().len() <= old(self).map().dom().len() + 1,
            old(self).max_size() > 0 && old(self).map().dom().len() <= old(self).max_size()
                ==> final(self).map().dom().len() <= old(self).max_size(),
            final(self).map().dom().contains(key@),
            fresh(final(self).map()[key@], old(self).ttl(), now_ms),
            forall|k: (Seq<char>, Seq<char>, Seq<char>)| k != key@ && #[trigger] final(self).map().dom().contains(k)
                ==> swept(old(self).map(), old(self).ttl(), now_ms).dom().contains(k)
                    && final(self).map()[k] == old(self).map()[k],
            final(self).ttl() == old(self).ttl(),
            final(self).max_size() == old(self).max_size(),
            ({
                let live = swept(old(self).map(), old(self).ttl(), now_ms);
                &&& r == !live.dom().contains(key@)
                &&& !r ==> final(self).map() == live.insert(key@, (live[key@].0, now_ms))
                &&& r ==> exists|kept: Map<(Seq<char>, Seq<char>, Seq<char>), (u64, u64)>|
                        lru_trimmed(live, kept, old(self).max_size())
                        && final(self).map() == #[trigger] kept.insert(key@, (now_ms, now_ms))
            }),
    {
        proof {
            lemma_map_of(self.pairs());
        }
        let ghost old_len = self.pairs().len();
        self.evict_expired(now_ms);
        let ghost live = self.map();
        proof {
            lemma_map_of(self.pairs());
        }
        match self.find(&key) {
            Some(i) => {
                let ghost before = self.pairs();
                let first = self.entries[i].1.first_seen;
                self.entries.set(i, (key, Entry { first_seen: first, last_seen: now_ms }));
                proof {
                    lemma_map_of_update(before, i as int, (first, now_ms));
                    assert(self.pairs() =~= before.update(i as int, (before[i as int].0, (first, now_ms))));
                    lemma_map_of(self.pairs());
                }
                return false;
            },
            None => {},
        }
        let ghost swept_pairs = self.pairs();
        if self.max_size > 0 {
            while self.entries.len() >= self.max_size
                invariant
                    self.wf(),
                    self.max_size > 0,
                    !has_key(self.pairs(), key@),
                    lru_trimmed_partial(live, self.map(), self.max_size),
                    self.ttl_ms == old(self).ttl_ms,
                    self.max_size == old(self).max_size,
                    self.pairs().len() <= old_len,
                decreases self.entries@.len(),
            {
                let ghost before = self.pairs();
                let ghost cur0 = self.map();
                assert(lru_trimmed_partial(live, cur0, self.max_size));
                let v = self.lru_index();
                proof {
                    lemma_map_of(before);
                    lemma_map_of_remove(before, v as int);
                }
                self.entries.remove(v);
                proof {
                    assert(self.pairs() =~= before.remove(v as int));
                    lemma_map_of(self.pairs());
                    let cur = map_of(before);
                    assert(cur == cur0);
                    let x = before[v as int].0;
                    assert forall|a, b| live.dom().contains(a) && !self.map().dom().contains(a)
                        && self.map().dom().contains(b) implies #[trigger] live[a].1 <= #[trigger] live[b].1 by {
                        assert(self.map() == cur.remove(x));
                        if a == x {
                            let j = choose|j: int| 0 <= j < self.pairs().len() && self.pairs()[j].0 == b;
                            let j2 = if j < v { j } else { j + 1 };
                            assert(self.pairs()[j] == before[j2]);
                            assert(cur[x] == before[v as int].1);
                            assert(cur[b] == before[j2].1);
                            assert(before[v as int].1.1 <= before[j2].1.1);
                            assert(cur.dom().contains(x));
                            assert(cur.dom().contains(b));
                            assert(live[x] == cur[x]);
                            assert(live[b] == cur[b]);
                        } else {
                            assert(!cur.dom().contains(a));
                            assert(cur.dom().contains(b));
                        }
                    }
                    if has_key(self.pairs(), key@) {
                        let j = choose|j: int| 0 <= j < self.pairs().len() && self.pairs()[j].0 == key@;
                        let j2 = if j < v { j } else { j + 1 };
                        assert(self.pairs()[j] == before[j2]);
                    }
                }
            }
        }
        let ghost kept = self.map();
        let ghost before = self.pairs();
        let ghost kv = key@;
        self.entries.push((key, Entry { first_seen: now_ms, last_seen: now_ms }));
        proof {
            lemma_map_of_push(before, kv, (now_ms, now_ms));
            assert(self.pairs() =~= before.push((kv, (now_ms, now_ms))));
            lemma_map_of(before);
            lemma_map_of(swept_pairs);
            lemma_map_of(self.pairs());
            assert(lru_trimmed(live, kept, self.max_size));
        }
        true
    }

    /// Whether a live entry exists for `key` at `now_ms`. Records and
    /// refreshes nothing.
    pub fn peek(&self, key: &DedupeKey, now_ms: u64) -> (r: bool)
        requires
            self.wf(),
        ensures
            r == (self.map().dom().contains(key@) && fresh(self.map()[key@], self.ttl(), now_ms)),
    {
        proof {
            lemma_map_of(self.pairs());
        }
        match self.find(key) {
            None => false,
            Some(i) => {
                let first = self.entries[i].1.first_seen;
                self.ttl_ms == 0 || (if now_ms >= first { now_ms - first } else { 0 }) < self.ttl_ms
            },
        }
    }

    /// Number of tracked entries.
    pub fn len(&self) -> (r: usize)
        requires
            self.wf(),
        ensures
            r == self.map().dom().len(),
    {
        proof {
            lemma_map_of(self.pairs());
        }
        self.entries.len()
    }

    /// True when nothing is tracked.
    pub fn is_empty(&self) -> (r: bool)
        requires
            self.wf(),
        ensures
            r == (self.map().dom().len() == 0),
    {
        proof {
            lemma_map_of(self.pairs());
        }
        self.entries.len() == 0
    }
}

/// A key first recorded at `t1` is still live at any `t2` from `t1` on
/// until the TTL has passed: a repeat of the same message inside the TTL
/// is caught as a duplicate (`check` answers `false` for a live key).
pub proof fn law_recorded_key_stays_live_within_ttl<K>(m: Map<K, (u64, u64)>, key: K, t1: u64, t2: u64, ttl: u64)
    requires
        m.dom().contains(key),
        m[key].0 == t1,
        t1 <= t2,
        ttl == 0 || t2 - t1 < ttl,
    ensures
        swept(m, ttl, t2).dom().contains(key),
{
}

} // verus!
