//! Association lists: a sequence of `(key, value)` pairs with distinct
//! keys, read as the finite map it spells out.

use vstd::prelude::*;

verus! {

/// No key occurs twice.
pub open spec fn keys_distinct<K, V>(s: Seq<(K, V)>) -> bool {
    forall|i: int, j: int| 0 <= i < s.len() && 0 <= j < s.len() && i != j ==> #[trigger] s[i].0 != #[trigger] s[j].0
}

/// The map the pairs spell out (a later pair wins, which never happens
/// when keys are distinct).
pub open spec fn map_of<K, V>(s: Seq<(K, V)>) -> Map<K, V>
    decreases s.len(),
{
    if s.len() == 0 {
        Map::empty()
    } else {
        map_of(s.drop_last()).insert(s.last().0, s.last().1)
    }
}

/// Some pair carries key `k`.
pub open spec fn has_key<K, V>(s: Seq<(K, V)>, k: K) -> bool {
    exists|i: int| 0 <= i < s.len() && s[i].0 == k
}

/// What `map_of` holds: exactly the keys present, each with its pair's
/// value, and as many entries as pairs.
pub proof fn lemma_map_of<K, V>(s: Seq<(K, V)>)
    requires
        keys_distinct(s),
    ensures
        map_of(s).dom().finite(),
        map_of(s).dom().len() == s.len(),
        forall|k: K| #[trigger] map_of(s).dom().contains(k) <==> has_key(s, k),
        forall|i: int| 0 <= i < s.len() ==> #[trigger] map_of(s)[s[i].0] == s[i].1,
    decreases s.len(),
{
    if s.len() > 0 {
        let p = s.drop_last();
        assert forall|i: int, j: int| 0 <= i < p.len() && 0 <= j < p.len() && i != j implies #[trigger] p[i].0 != #[trigger] p[j].0 by {
            assert(p[i] == s[i]);
            assert(p[j] == s[j]);
        }
        lemma_map_of(p);
        let last = s.last();
        assert(!map_of(p).dom().contains(last.0)) by {
            if map_of(p).dom().contains(last.0) {
                let i = choose|i: int| 0 <= i < p.len() && p[i].0 == last.0;
                assert(s[i].0 == s[s.len() - 1].0);
            }
        }
        assert forall|k: K| #[trigger] map_of(s).dom().contains(k) <==> has_key(s, k) by {
            if has_key(s, k) {
                let i = choose|i: int| 0 <= i < s.len() && s[i].0 == k;
                if i < s.len() - 1 {
                    assert(p[i] == s[i]);
                }
            }
            if map_of(p).dom().contains(k) {
                let i = choose|i: int| 0 <= i < p.len() && p[i].0 == k;
                assert(s[i] == p[i]);
            }
        }
        assert forall|i: int| 0 <= i < s.len() implies #[trigger] map_of(s)[s[i].0] == s[i].1 by {
            if i < s.len() - 1 {
                assert(p[i] == s[i]);
                assert(s[i].0 != last.0);
            }
        }
    }
}

/// Removing the pair at `i` removes its key from the map.
pub proof fn lemma_map_of_remove<K, V>(s: Seq<(K, V)>, i: int)
    requires
        keys_distinct(s),
        0 <= i < s.len(),
    ensures
        keys_distinct(s.remove(i)),
        map_of(s.remove(i)) == map_of(s).remove(s[i].0),
{
    let r = s.remove(i);
    assert forall|a: int, b: int| 0 <= a < r.len() && 0 <= b < r.len() && a != b implies #[trigger] r[a].0 != #[trigger] r[b].0 by {
        let a2 = if a < i { a } else { a + 1 };
        let b2 = if b < i { b } else { b + 1 };
        assert(r[a] == s[a2]);
        assert(r[b] == s[b2]);
    }
    lemma_map_of(s);
    lemma_map_of(r);
    assert forall|k: K| #[trigger] map_of(r).dom().contains(k) <==> map_of(s).remove(s[i].0).dom().contains(k) by {
        if has_key(r, k) {
            let a = choose|a: int| 0 <= a < r.len() && r[a].0 == k;
            let a2 = if a < i { a } else { a + 1 };
            assert(r[a] == s[a2]);
        }
        if has_key(s, k) && k != s[i].0 {
            let a = choose|a: int| 0 <= a < s.len() && s[a].0 == k;
            if a < i {
                assert(r[a] == s[a]);
            } else {
                assert(r[a - 1] == s[a]);
            }
        }
    }
    assert forall|k: K| #[trigger] map_of(r).dom().contains(k) implies map_of(r)[k] == map_of(s).remove(s[i].0)[k] by {
        let a = choose|a: int| 0 <= a < r.len() && r[a].0 == k;
        let a2 = if a < i { a } else { a + 1 };
        assert(r[a] == s[a2]);
    }
    assert(map_of(r) =~= map_of(s).remove(s[i].0));
}

/// Appending a pair with a fresh key inserts it into the map.
pub proof fn lemma_map_of_push<K, V>(s: Seq<(K, V)>, k: K, v: V)
    requires
        keys_distinct(s),
        !has_key(s, k),
    ensures
        keys_distinct(s.push((k, v))),
        map_of(s.push((k, v))) == map_of(s).insert(k, v),
{
    let r = s.push((k, v));
    assert forall|a: int, b: int| 0 <= a < r.len() && 0 <= b < r.len() && a != b implies #[trigger] r[a].0 != #[trigger] r[b].0 by {
        if a < s.len() {
            assert(r[a] == s[a]);
        }
        if b < s.len() {
            assert(r[b] == s[b]);
        }
    }
    assert(r.drop_last() == s);
}

/// Replacing the value of the pair at `i` updates its key in the map.
pub proof fn lemma_map_of_update<K, V>(s: Seq<(K, V)>, i: int, v: V)
    requires
        keys_distinct(s),
        0 <= i < s.len(),
    ensures
        keys_distinct(s.update(i, (s[i].0, v))),
        map_of(s.update(i, (s[i].0, v))) == map_of(s).insert(s[i].0, v),
{
    let r = s.update(i, (s[i].0, v));
    assert forall|a: int, b: int| 0 <= a < r.len() && 0 <= b < r.len() && a != b implies #[trigger] r[a].0 != #[trigger] r[b].0 by {
        assert(r[a].0 == s[a].0);
        assert(r[b].0 == s[b].0);
    }
    lemma_map_of(s);
    lemma_map_of(r);
    assert forall|k: K| #[trigger] map_of(r).dom().contains(k) <==> map_of(s).insert(s[i].0, v).dom().contains(k) by {
        if has_key(r, k) {
            let a = choose|a: int| 0 <= a < r.len() && r[a].0 == k;
            assert(r[a].0 == s[a].0);
        }
        if has_key(s, k) {
            let a = choose|a: int| 0 <= a < s.len() && s[a].0 == k;
            assert(r[a].0 == s[a].0);
        }
    }
    assert forall|k: K| #[trigger] map_of(r).dom().contains(k) implies map_of(r)[k] == map_of(s).insert(s[i].0, v)[k] by {
        let a = choose|a: int| 0 <= a < r.len() && r[a].0 == k;
        assert(r[a].0 == s[a].0);
    }
    assert(map_of(r) =~= map_of(s).insert(s[i].0, v));
}

} // verus!
