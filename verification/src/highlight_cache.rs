//! A FIFO-bounded cache from a file-version key to its highlighted lines.
//! A diff is immutable per file version, so a repeated render of the same
//! version hits the cache; once the cache is full the oldest entry goes,
//! so its footprint stays bounded over a long session.

use std::collections::{HashMap, VecDeque};
use vstd::prelude::*;

verus! {

broadcast use vstd::std_specs::hash::group_hash_axioms;

/// The most entries the cache keeps.
pub const MAX_CACHE_ENTRIES: usize = 64;

/// The cache: the values by key, and the keys in insertion order, oldest
/// first.
pub struct HighlightCache<V> {
    map: HashMap<u64, V>,
    order: VecDeque<u64>,
}

/// `k` is the key of entry `i` of `s`.
pub open spec fn key_at<V>(s: Seq<(u64, V)>, k: u64, i: int) -> bool {
    0 <= i < s.len() && s[i].0 == k
}

/// Some entry of `s` has the key `k`.
pub open spec fn has_key<V>(s: Seq<(u64, V)>, k: u64) -> bool {
    exists|i: int| key_at(s, k, i)
}

/// No key occurs twice in `s`.
pub open spec fn distinct_keys<V>(s: Seq<(u64, V)>) -> bool {
    forall|i: int, j: int| 0 <= i < s.len() && 0 <= j < s.len() && i != j ==> s[i].0 != s[j].0
}

/// A well-formed cache: keys distinct, at most [`MAX_CACHE_ENTRIES`].
pub open spec fn cache_wf<V>(s: Seq<(u64, V)>) -> bool {
    distinct_keys(s) && s.len() <= MAX_CACHE_ENTRIES
}

/// The value cached under `k`.
pub open spec fn lookup<V>(s: Seq<(u64, V)>, k: u64) -> Option<V> {
    if has_key(s, k) {
        Some(s[choose|i: int| key_at(s, k, i)].1)
    } else {
        None
    }
}

/// The entries after inserting `v` under `k`: a present key has its value
/// refreshed in place (its position is kept: a re-render is not a use); a
/// new key is appended, and the oldest entry leaves when that would pass
/// the cap.
pub open spec fn inserted<V>(s: Seq<(u64, V)>, k: u64, v: V) -> Seq<(u64, V)> {
    if has_key(s, k) {
        s.update(choose|i: int| key_at(s, k, i), (k, v))
    } else if s.len() < MAX_CACHE_ENTRIES {
        s.push((k, v))
    } else {
        s.push((k, v)).drop_first()
    }
}

/// In a cache with distinct keys, an index holding `k` is the one `choose`
/// picks.
pub proof fn lemma_key_index_unique<V>(s: Seq<(u64, V)>, k: u64, i: int)
    requires
        distinct_keys(s),
        key_at(s, k, i),
    ensures
        has_key(s, k),
        (choose|j: int| key_at(s, k, j)) == i,
        lookup(s, k) == Some(s[i].1),
{
    let j = choose|j: int| key_at(s, k, j);
    assert(key_at(s, k, j));
}

impl<V> HighlightCache<V> {
    /// The entries, oldest first.
    pub closed spec fn entries(&self) -> Seq<(u64, V)> {
        self.order@.map_values(|k: u64| (k, self.map@[k]))
    }

    /// The entries are well formed, and the map holds exactly the ordered
    /// keys.
    pub closed spec fn wf(&self) -> bool {
        &&& cache_wf(self.entries())
        &&& forall|k: u64| #[trigger] self.map@.contains_key(k) <==> self.order@.contains(k)
    }

    /// An empty cache.
    pub fn new() -> (r: Self)
        ensures
            r.wf(),
            r.entries() == Seq::<(u64, V)>::empty(),
    {
        let r = HighlightCache { map: HashMap::new(), order: VecDeque::new() };
        assert(r.entries() =~= Seq::<(u64, V)>::empty());
        r
    }

    /// The value cached under `key`.
    pub fn get(&self, key: u64) -> (r: Option<&V>)
        requires
            self.wf(),
        ensures
            match r {
                Some(v) => lookup(self.entries(), key) == Some(*v),
                None => lookup(self.entries(), key) is None,
            },
    {
        let r = self.map.get(&key);
        proof {
            let s = self.entries();
            if self.map@.contains_key(key) {
                let i = choose|i: int| 0 <= i < self.order@.len() && self.order@[i] == key;
                assert(key_at(s, key, i));
                lemma_key_index_unique(s, key, i);
            } else {
                assert forall|i: int| !key_at(s, key, i) by {
                    if 0 <= i < s.len() && s[i].0 == key {
                        assert(self.order@[i] == key);
                    }
                }
            }
        }
        r
    }

    /// Inserts `value` under `key`, refreshing a present key in place and
    /// evicting the oldest entry when a new key would pass the cap.
    pub fn insert(&mut self, key: u64, value: V)
        requires
            old(self).wf(),
        ensures
            final(self).wf(),
            final(self).entries() == inserted(old(self).entries(), key, value),
    {
        let ghost s = self.entries();
        let ghost o = self.order@;
        let ghost m = self.map@;
        if self.map.contains_key(&key) {
            self.map.insert(key, value);
            proof {
                let i = choose|i: int| 0 <= i < o.len() && o[i] == key;
                assert(key_at(s, key, i));
                lemma_key_index_unique(s, key, i);
                assert(self.entries() =~= s.update(i, (key, value))) by {
                    assert forall|j: int| 0 <= j < o.len() implies #[trigger] self.entries()[j] == s.update(i, (key, value))[j] by {
                        if j != i {
                            assert(s[j].0 == o[j]);
                            assert(o[j] != key);
                        }
                    }
                }
                assert forall|k: u64| #[trigger] self.map@.contains_key(k) <==> self.order@.contains(k) by {
                    assert(m.contains_key(k) <==> o.contains(k));
                }
                let t = self.entries();
                assert forall|a: int, b: int| 0 <= a < t.len() && 0 <= b < t.len() && a != b
                    implies t[a].0 != t[b].0 by {
                    assert(s[a].0 == t[a].0 && s[b].0 == t[b].0);
                }
            }
            return;
        }
        proof {
            assert forall|i: int| !key_at(s, key, i) by {
                if 0 <= i < s.len() && s[i].0 == key {
                    assert(o[i] == key);
                    assert(o.contains(key));
                }
            }
        }
        self.map.insert(key, value);
        self.order.push_back(key);
        let ghost p = s.push((key, value));
        proof {
            assert(self.entries() =~= p) by {
                assert forall|j: int| 0 <= j < p.len() implies #[trigger] self.entries()[j] == p[j] by {
                    if j < o.len() {
                        assert(s[j].0 == o[j]);
                        assert(o[j] != key);
                    }
                }
            }
            assert forall|a: int, b: int| 0 <= a < p.len() && 0 <= b < p.len() && a != b
                implies p[a].0 != p[b].0 by {
                if a < s.len() && b < s.len() {
                    assert(p[a] == s[a] && p[b] == s[b]);
                } else if a == s.len() {
                    assert(!key_at(s, key, b));
                } else {
                    assert(!key_at(s, key, a));
                }
            }
        }
        if self.order.len() > MAX_CACHE_ENTRIES {
            let ghost o1 = self.order@;
            let ghost m1 = self.map@;
            let oldest = self.order.pop_front();
            if let Some(k0) = oldest {
                self.map.remove(&k0);
                proof {
                    assert(k0 == o1[0]);
                    assert(self.order@ =~= o1.drop_first());
                    assert(self.entries() =~= p.drop_first()) by {
                        assert forall|j: int| 0 <= j < p.len() - 1 implies #[trigger] self.entries()[j] == p.drop_first()[j] by {
                            assert(p[j + 1].0 == o1[j + 1]);
                            assert(p[0].0 == o1[0]);
                            assert(o1[j + 1] != k0);
                        }
                    }
                    assert forall|k: u64| #[trigger] self.map@.contains_key(k) <==> self.order@.contains(k) by {
                        if self.order@.contains(k) {
                            let j = choose|j: int| 0 <= j < self.order@.len() && self.order@[j] == k;
                            assert(o1[j + 1] == k);
                            assert(p[j + 1].0 == k && p[0].0 == k0);
                            assert(o1.contains(k));
                        }
                        if m1.contains_key(k) && k != k0 {
                            if k == key {
                                assert(o1[o.len() as int] == key);
                            } else {
                                assert(m.contains_key(k));
                                assert(o.contains(k));
                                let j0 = choose|j: int| 0 <= j < o.len() && o[j] == k;
                                assert(o1[j0] == k);
                            }
                            assert(o1.contains(k));
                            let j = choose|j: int| 0 <= j < o1.len() && o1[j] == k;
                            assert(j != 0);
                            assert(self.order@[j - 1] == k);
                        }
                    }
                    let t = self.entries();
                    assert forall|a: int, b: int| 0 <= a < t.len() && 0 <= b < t.len() && a != b
                        implies t[a].0 != t[b].0 by {
                        assert(t[a] == p[a + 1] && t[b] == p[b + 1]);
                    }
                }
            }
        } else {
            proof {
                assert forall|k: u64| #[trigger] self.map@.contains_key(k) <==> self.order@.contains(k) by {
                    if k != key {
                        assert(m.contains_key(k) <==> o.contains(k));
                        if o.contains(k) {
                            let j = choose|j: int| 0 <= j < o.len() && o[j] == k;
                            assert(self.order@[j] == k);
                        }
                        if self.order@.contains(k) {
                            let j = choose|j: int| 0 <= j < self.order@.len() && self.order@[j] == k;
                            assert(o[j] == k);
                        }
                    } else {
                        assert(self.order@[o.len() as int] == key);
                    }
                }
            }
        }
    }

    /// The number of live entries.
    pub fn len(&self) -> (r: usize)
        ensures
            r == self.entries().len(),
    {
        self.order.len()
    }
}

/// Reading a key right after inserting it gives back the inserted value.
pub proof fn law_get_after_insert<V>(s: Seq<(u64, V)>, k: u64, v: V)
    requires
        cache_wf(s),
    ensures
        lookup(inserted(s, k, v), k) == Some(v),
        cache_wf(inserted(s, k, v)),
{
    let t = inserted(s, k, v);
    if has_key(s, k) {
        let i = choose|i: int| key_at(s, k, i);
        assert(key_at(t, k, i));
        assert forall|a: int, b: int| 0 <= a < t.len() && 0 <= b < t.len() && a != b
            implies t[a].0 != t[b].0 by {
            assert(s[a].0 == t[a].0 && s[b].0 == t[b].0);
        }
        lemma_key_index_unique(t, k, i);
    } else {
        let p = s.push((k, v));
        assert forall|a: int, b: int| 0 <= a < p.len() && 0 <= b < p.len() && a != b
            implies p[a].0 != p[b].0 by {
            if a < s.len() && b < s.len() {
                assert(p[a] == s[a] && p[b] == s[b]);
            } else if a == s.len() {
                assert(!key_at(s, k, b));
            } else {
                assert(!key_at(s, k, a));
            }
        }
        if s.len() < MAX_CACHE_ENTRIES {
            assert(key_at(t, k, s.len() as int));
            lemma_key_index_unique(t, k, s.len() as int);
        } else {
            assert forall|a: int, b: int| 0 <= a < t.len() && 0 <= b < t.len() && a != b
                implies t[a].0 != t[b].0 by {
                assert(t[a] == p[a + 1] && t[b] == p[b + 1]);
            }
            assert(key_at(t, k, s.len() - 1));
            lemma_key_index_unique(t, k, s.len() - 1);
        }
    }
}

/// Re-inserting a cached key refreshes its value without growing the
/// cache or moving any key.
pub proof fn law_reinsert_keeps_order<V>(s: Seq<(u64, V)>, k: u64, v: V)
    requires
        cache_wf(s),
        has_key(s, k),
    ensures
        inserted(s, k, v).len() == s.len(),
        forall|i: int| 0 <= i < s.len() ==> #[trigger] inserted(s, k, v)[i].0 == s[i].0,
{
}

/// Inserting a new key into a full cache evicts exactly the oldest entry:
/// every other entry stays, shifted one place towards the front, and the
/// new entry comes last.
pub proof fn law_full_insert_evicts_oldest<V>(s: Seq<(u64, V)>, k: u64, v: V)
    requires
        cache_wf(s),
        !has_key(s, k),
        s.len() == MAX_CACHE_ENTRIES,
    ensures
        inserted(s, k, v).len() == MAX_CACHE_ENTRIES,
        !has_key(inserted(s, k, v), s[0].0),
        forall|i: int| 0 <= i < s.len() - 1 ==> #[trigger] inserted(s, k, v)[i] == s[i + 1],
        inserted(s, k, v).last() == (k, v),
{
    let t = inserted(s, k, v);
    if has_key(t, s[0].0) {
        let j = choose|j: int| key_at(t, s[0].0, j);
        if j < s.len() - 1 {
            assert(t[j] == s[j + 1]);
        } else {
            assert(t[j] == (k, v));
            assert(key_at(s, k, 0));
        }
    }
}

} // verus!
