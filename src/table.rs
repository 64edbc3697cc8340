//! Facts about a sequence of keyed entries with distinct keys, read as a map.

use vstd::prelude::*;

verus! {

/// No two entries share a key.
pub open spec fn keys_unique<V>(s: Seq<(Seq<char>, V)>) -> bool {
    forall|i: int, j: int| 0 <= i < j < s.len() ==> #[trigger] s[i].0 != #[trigger] s[j].0
}

/// The map from each key to its entry's value (a later entry wins).
pub open spec fn keyed_map<V>(s: Seq<(Seq<char>, V)>) -> Map<Seq<char>, V>
    decreases s.len(),
{
    if s.len() == 0 {
        Map::empty()
    } else {
        keyed_map(s.drop_last()).insert(s.last().0, s.last().1)
    }
}

/// A key is in the map exactly when some entry has it.
pub proof fn lemma_keyed_map_domain<V>(s: Seq<(Seq<char>, V)>, k: Seq<char>)
    ensures
        keyed_map(s).contains_key(k) <==> exists|i: int| 0 <= i < s.len() && #[trigger] s[i].0 == k,
    decreases s.len(),
{
    if s.len() > 0 {
        let t = s.drop_last();
        lemma_keyed_map_domain(t, k);
        if keyed_map(s).contains_key(k) {
            if k != s.last().0 {
                let i = choose|i: int| 0 <= i < t.len() && #[trigger] t[i].0 == k;
                assert(s[i].0 == k);
            } else {
                assert(s[s.len() - 1].0 == k);
            }
        }
        if exists|i: int| 0 <= i < s.len() && #[trigger] s[i].0 == k {
            let i = choose|i: int| 0 <= i < s.len() && #[trigger] s[i].0 == k;
            if i < s.len() - 1 {
                assert(t[i].0 == k);
            }
        }
    }
}

/// With distinct keys, each entry's key maps to that entry's value.
pub proof fn lemma_keyed_map_index<V>(s: Seq<(Seq<char>, V)>, i: int)
    requires
        keys_unique(s),
        0 <= i < s.len(),
    ensures
        keyed_map(s).contains_key(s[i].0),
        keyed_map(s)[s[i].0] == s[i].1,
    decreases s.len(),
{
    if i < s.len() - 1 {
        let t = s.drop_last();
        assert(keys_unique(t));
        assert(t[i] == s[i]);
        lemma_keyed_map_index(t, i);
        assert(s[i].0 != s[s.len() - 1].0);
    }
}

/// Appending an entry with a new key inserts it into the map.
pub proof fn lemma_keyed_map_push<V>(s: Seq<(Seq<char>, V)>, e: (Seq<char>, V))
    requires
        keys_unique(s),
        !keyed_map(s).contains_key(e.0),
    ensures
        keys_unique(s.push(e)),
        keyed_map(s.push(e)) == keyed_map(s).insert(e.0, e.1),
{
    assert(s.push(e).drop_last() =~= s);
    assert forall|i: int, j: int| 0 <= i < j < s.push(e).len() implies #[trigger] s.push(e)[i].0
        != #[trigger] s.push(e)[j].0 by {
        if j == s.len() {
            lemma_keyed_map_domain(s, e.0);
            assert(s[i].0 == s.push(e)[i].0);
        }
    }
}

/// Replacing the value of one entry, key kept, updates the map at that key.
pub proof fn lemma_keyed_map_update<V>(s: Seq<(Seq<char>, V)>, i: int, v: V)
    requires
        keys_unique(s),
        0 <= i < s.len(),
    ensures
        keys_unique(s.update(i, (s[i].0, v))),
        keyed_map(s.update(i, (s[i].0, v))) == keyed_map(s).insert(s[i].0, v),
{
    let u = s.update(i, (s[i].0, v));
    assert(keys_unique(u)) by {
        assert forall|a: int, b: int| 0 <= a < b < u.len() implies #[trigger] u[a].0
            != #[trigger] u[b].0 by {
            assert(u.len() == s.len());
            assert(u[a].0 == s[a].0 && u[b].0 == s[b].0);
        }
    }
    let lhs = keyed_map(u);
    let rhs = keyed_map(s).insert(s[i].0, v);
    assert forall|k: Seq<char>| #[trigger] lhs.contains_key(k) == rhs.contains_key(k) by {
        lemma_keyed_map_domain(u, k);
        lemma_keyed_map_domain(s, k);
        if k == s[i].0 {
            assert(u[i].0 == k);
        }
        if rhs.contains_key(k) && k != s[i].0 {
            let j = choose|j: int| 0 <= j < s.len() && #[trigger] s[j].0 == k;
            assert(u[j].0 == k);
        }
        if lhs.contains_key(k) {
            let j = choose|j: int| 0 <= j < u.len() && #[trigger] u[j].0 == k;
            assert(s[j].0 == k);
        }
    }
    assert forall|k: Seq<char>| #[trigger] lhs.contains_key(k) implies lhs[k] == rhs[k] by {
        lemma_keyed_map_domain(u, k);
        let j = choose|j: int| 0 <= j < u.len() && #[trigger] u[j].0 == k;
        lemma_keyed_map_index(u, j);
        if j != i {
            lemma_keyed_map_index(s, j);
        }
    }
    assert(lhs =~= rhs);
}

/// Removing one entry removes its key from the map.
pub proof fn lemma_keyed_map_remove<V>(s: Seq<(Seq<char>, V)>, i: int)
    requires
        keys_unique(s),
        0 <= i < s.len(),
    ensures
        keys_unique(s.remove(i)),
        keyed_map(s.remove(i)) == keyed_map(s).remove(s[i].0),
{
    let u = s.remove(i);
    assert forall|a: int| 0 <= a < u.len() implies #[trigger] u[a] == if a < i {
        s[a]
    } else {
        s[a + 1]
    } by {}
    assert(keys_unique(u)) by {
        assert forall|a: int, b: int| 0 <= a < b < u.len() implies #[trigger] u[a].0
            != #[trigger] u[b].0 by {
            let sa = if a < i { a } else { a + 1 };
            let sb = if b < i { b } else { b + 1 };
            assert(u[a] == s[sa] && u[b] == s[sb]);
        }
    }
    let lhs = keyed_map(u);
    let rhs = keyed_map(s).remove(s[i].0);
    assert forall|k: Seq<char>| #[trigger] lhs.contains_key(k) == rhs.contains_key(k) by {
        lemma_keyed_map_domain(u, k);
        lemma_keyed_map_domain(s, k);
        if lhs.contains_key(k) {
            let a = choose|a: int| 0 <= a < u.len() && #[trigger] u[a].0 == k;
            let sa = if a < i { a } else { a + 1 };
            assert(u[a] == s[sa]);
            assert(s[sa].0 != s[i].0);
        }
        if rhs.contains_key(k) {
            let j = choose|j: int| 0 <= j < s.len() && #[trigger] s[j].0 == k;
            assert(j != i);
            let a = if j < i { j } else { j - 1 };
            assert(u[a] == s[j]);
        }
    }
    assert forall|k: Seq<char>| #[trigger] lhs.contains_key(k) implies lhs[k] == rhs[k] by {
        lemma_keyed_map_domain(u, k);
        let a = choose|a: int| 0 <= a < u.len() && #[trigger] u[a].0 == k;
        let sa = if a < i { a } else { a + 1 };
        assert(u[a] == s[sa]);
        lemma_keyed_map_index(u, a);
        lemma_keyed_map_index(s, sa);
    }
    assert(lhs =~= rhs);
}

} // verus!
