//! The done-glow fader: records when each sub-agent reached a terminal
//! status, so the interface can fade a glow over the following thirty
//! seconds. Time is caller-supplied monotonic milliseconds.

use vstd::prelude::*;
use crate::assoc::{has_key, keys_distinct, lemma_map_of, lemma_map_of_push, lemma_map_of_remove, lemma_map_of_update, map_of};
use crate::channels::dedupe::sat_sub;

verus! {

/// How long the glow lasts after a terminal moment, in milliseconds.
pub const GLOW_DURATION_MS: u64 = 30_000;

/// A glow that started at `started` is still showing at `now`.
pub open spec fn glowing(started: u64, now: u64) -> bool {
    sat_sub(now, started) < GLOW_DURATION_MS
}

/// The entries of `m` still glowing at `now`.
pub open spec fn still_glowing(m: Map<Seq<char>, u64>, now: u64) -> Map<Seq<char>, u64> {
    Map::new(|k: Seq<char>| m.dom().contains(k) && glowing(m[k], now), |k: Seq<char>| m[k])
}

/// Terminal moments per agent id.
#[derive(Debug, Clone, Default)]
pub struct GlowFader {
    terminals: Vec<(String, u64)>,
}

impl GlowFader {
    pub closed spec fn pairs(&self) -> Seq<(Seq<char>, u64)> {
        self.terminals@.map_values(|p: (String, u64)| (p.0@, p.1))
    }

    /// Agent id -> the moment it reached a terminal status.
    pub closed spec fn map(&self) -> Map<Seq<char>, u64> {
        map_of(self.pairs())
    }

    /// No agent is recorded twice.
    pub closed spec fn wf(&self) -> bool {
        keys_distinct(self.pairs())
    }

    /// A fader with nothing recorded.
    pub fn new() -> (r: Self)
        ensures
            r.wf(),
            r.map() == Map::<Seq<char>, u64>::empty(),
    {
        let r = GlowFader { terminals: Vec::new() };
        assert(r.pairs() =~= Seq::empty());
        r
    }

    fn find(&self, id: &str) -> (r: Option<usize>)
        ensures
            match r {
                Some(i) => i < self.terminals@.len() && self.pairs()[i as int].0 == id@,
                None => !has_key(self.pairs(), id@),
            },
    {
        let key = id.to_owned();
        let mut i: usize = 0;
        while i < self.terminals.len()
            invariant
                i <= self.terminals@.len(),
                key@ == id@,
                forall|j: int| 0 <= j < i ==> self.pairs()[j].0 != id@,
            decreases self.terminals@.len() - i,
        {
            if self.terminals[i].0 == key {
                return Some(i);
            }
            i += 1;
        }
        None
    }

    /// Records (or refreshes) the terminal moment of an agent; the last
    /// write wins.
    pub fn record_terminal(&mut self, agent_id: String, now_ms: u64)
        requires
            old(self).wf(),
        ensures
            final(self).wf(),
            final(self).map() == old(self).map().insert(agent_id@, now_ms),
    {
        let ghost before = self.pairs();
        match self.find(agent_id.as_str()) {
            Some(i) => {
                proof { lemma_map_of_update(before, i as int, now_ms); }
                self.terminals.set(i, (agent_id, now_ms));
                assert(self.pairs() =~= before.update(i as int, (before[i as int].0, now_ms)));
            },
            None => {
                proof { lemma_map_of_push(before, agent_id@, now_ms); }
                self.terminals.push((agent_id, now_ms));
                assert(self.pairs() =~= before.push((agent_id@, now_ms)));
            },
        }
    }

    /// The recorded terminal moment of `agent_id`, if any.
    pub fn terminal_at(&self, agent_id: &str) -> (r: Option<u64>)
        requires
            self.wf(),
        ensures
            r == (if self.map().dom().contains(agent_id@) { Some(self.map()[agent_id@]) } else { None }),
    {
        proof { lemma_map_of(self.pairs()); }
        match self.find(agent_id) {
            Some(i) => Some(self.terminals[i].1),
            None => None,
        }
    }

    /// The number of agents recorded.
    pub fn len(&self) -> (r: usize)
        requires
            self.wf(),
        ensures
            r == self.map().dom().len(),
    {
        proof { lemma_map_of(self.pairs()); }
        self.terminals.len()
    }

    /// Whether at least one recorded glow is still showing at `now_ms`.
    pub fn any_active(&self, now_ms: u64) -> (r: bool)
        requires
            self.wf(),
        ensures
            r == exists|k: Seq<char>| #[trigger] self.map().dom().contains(k) && glowing(self.map()[k], now_ms),
    {
        proof { lemma_map_of(self.pairs()); }
        let mut i: usize = 0;
        while i < self.terminals.len()
            invariant
                self.wf(),
                i <= self.terminals@.len(),
                forall|j: int| 0 <= j < i ==> !glowing(#[trigger] self.pairs()[j].1, now_ms),
            decreases self.terminals@.len() - i,
        {
            let t = self.terminals[i].1;
            let elapsed = if now_ms >= t { now_ms - t } else { 0 };
            if elapsed < GLOW_DURATION_MS {
                proof {
                    lemma_map_of(self.pairs());
                    let k = self.pairs()[i as int].0;
                    assert(has_key(self.pairs(), k));
                    assert(self.map().dom().contains(k));
                    assert(glowing(self.map()[k], now_ms));
                }
                return true;
            }
            i += 1;
        }
        proof {
            assert forall|k: Seq<char>| #[trigger] self.map().dom().contains(k) implies !glowing(self.map()[k], now_ms) by {
                let j = choose|j: int| 0 <= j < self.pairs().len() && self.pairs()[j].0 == k;
            }
        }
        false
    }

    /// Drops the glows that have run out at `now_ms`. Returns `true` exactly
    /// when this dropped the last remaining entry.
    pub fn prune(&mut self, now_ms: u64) -> (r: bool)
        requires
            old(self).wf(),
        ensures
            final(self).wf(),
            final(self).map() == still_glowing(old(self).map(), now_ms),
            r == (old(self).map().dom().len() > 0 && final(self).map().dom().len() == 0),
    {
        let ghost m0 = self.map();
        proof { lemma_map_of(self.pairs()); }
        let before_len = self.terminals.len();
        let mut i: usize = 0;
        while i < self.terminals.len()
            invariant
                self.wf(),
                i <= self.terminals@.len(),
                still_glowing(self.map(), now_ms) == still_glowing(m0, now_ms),
                forall|j: int| 0 <= j < i ==> glowing(#[trigger] self.pairs()[j].1, now_ms),
            decreases self.terminals@.len() - i,
        {
            let t = self.terminals[i].1;
            let elapsed = if now_ms >= t { now_ms - t } else { 0 };
            if elapsed < GLOW_DURATION_MS {
                i += 1;
            } else {
                let ghost before = self.pairs();
                let ghost k = before[i as int].0;
                proof {
                    lemma_map_of(before);
                    lemma_map_of_remove(before, i as int);
                }
                self.terminals.remove(i);
                proof {
                    assert(self.pairs() =~= before.remove(i as int));
                    assert(still_glowing(map_of(before).remove(k), now_ms) =~= still_glowing(map_of(before), now_ms));
                    assert forall|j: int| 0 <= j < i implies glowing(#[trigger] self.pairs()[j].1, now_ms) by {
                        assert(self.pairs()[j] == before[j]);
                    }
                }
            }
        }
        proof {
            let p = self.pairs();
            lemma_map_of(p);
            assert forall|k| #[trigger] self.map().dom().contains(k) implies glowing(self.map()[k], now_ms) by {
                let j = choose|j: int| 0 <= j < p.len() && p[j].0 == k;
            }
            assert(still_glowing(self.map(), now_ms) =~= self.map());
        }
        before_len > 0 && self.terminals.len() == 0
    }
}

/// After `prune(now)` every remaining glow is showing at `now`, and
/// `any_active(now)` answers the same before and after: pruning drops
/// only what has run out.
pub proof fn law_prune_keeps_exactly_the_active(m: Map<Seq<char>, u64>, now: u64)
    ensures
        forall|k: Seq<char>| #[trigger] still_glowing(m, now).dom().contains(k) ==> glowing(still_glowing(m, now)[k], now),
        (exists|k: Seq<char>| #[trigger] m.dom().contains(k) && glowing(m[k], now))
            <==> (exists|k: Seq<char>| #[trigger] still_glowing(m, now).dom().contains(k) && glowing(still_glowing(m, now)[k], now)),
{
    let s = still_glowing(m, now);
    if exists|k: Seq<char>| #[trigger] m.dom().contains(k) && glowing(m[k], now) {
        let k = choose|k: Seq<char>| #[trigger] m.dom().contains(k) && glowing(m[k], now);
        assert(s.dom().contains(k));
    }
}

} // verus!
