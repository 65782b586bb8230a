//! Association tables: the persisted maps and sets of the marketplace are
//! vectors of entries with pairwise-distinct keys, so that every operation is
//! plain verified code.
//!
//! Each table kind has a mathematical view (`s_map`, `u_map`, `set_view`) and
//! three update shapes: push a fresh key, replace the value at an existing
//! key's index, and swap-remove an index. The lemmas translate each shape into
//! `Map`/`Set` algebra for the callers' contracts.
use vstd::prelude::*;

verus! {

// ---------------------------------------------------------------------------
// String-keyed tables
// ---------------------------------------------------------------------------
/// No two entries share a key.
pub open spec fn skeys_distinct<V>(s: Seq<(String, V)>) -> bool {
    forall|i: int, j: int| 0 <= i < j < s.len() ==> s[i].0@ != s[j].0@
}

/// Some entry has key `k`.
pub open spec fn s_has<V>(s: Seq<(String, V)>, k: Seq<char>) -> bool {
    exists|i: int| 0 <= i < s.len() && #[trigger] s[i].0@ == k
}

/// The value stored under key `k` (meaningful only when `s_has`).
pub open spec fn s_at<V>(s: Seq<(String, V)>, k: Seq<char>) -> V {
    s[choose|i: int| 0 <= i < s.len() && #[trigger] s[i].0@ == k].1
}

/// The table as a mathematical map from key view to value.
pub open spec fn s_map<V>(s: Seq<(String, V)>) -> Map<Seq<char>, V> {
    Map::new(|k: Seq<char>| s_has(s, k), |k: Seq<char>| s_at(s, k))
}

/// Under distinct keys, the entry at index `i` is the one `s_at` returns for
/// its key.
pub proof fn lemma_s_at_index<V>(s: Seq<(String, V)>, i: int)
    requires
        skeys_distinct(s),
        0 <= i < s.len(),
    ensures
        s_has(s, s[i].0@),
        s_at(s, s[i].0@) == s[i].1,
{
    assert(s_has(s, s[i].0@));
    let j = choose|j: int| 0 <= j < s.len() && #[trigger] s[j].0@ == s[i].0@;
    if i != j {
        assert(false);
    }
}

/// Pushing an entry with a fresh key inserts it into the map view.
pub proof fn lemma_s_push<V>(s: Seq<(String, V)>, p: (String, V))
    requires
        skeys_distinct(s),
        !s_has(s, p.0@),
    ensures
        skeys_distinct(s.push(p)),
        s_map(s.push(p)) == s_map(s).insert(p.0@, p.1),
{
    let t = s.push(p);
    let n = s.len() as int;
    assert forall|i: int, j: int| 0 <= i < j < t.len() implies t[i].0@ != t[j].0@ by {
        if j < n {
            assert(t[i] == s[i] && t[j] == s[j]);
        } else {
            assert(t[j] == p);
            assert(t[i] == s[i]);
        }
    }
    assert forall|k: Seq<char>| #[trigger] s_has(t, k) <==> s_has(s, k) || k == p.0@ by {
        if s_has(t, k) {
            let i = choose|i: int| 0 <= i < t.len() && #[trigger] t[i].0@ == k;
            if i < n {
                assert(s[i].0@ == k);
            }
        }
        if s_has(s, k) {
            let i = choose|i: int| 0 <= i < s.len() && #[trigger] s[i].0@ == k;
            assert(t[i].0@ == k);
        }
        if k == p.0@ {
            assert(t[n].0@ == k);
        }
    }
    assert forall|k: Seq<char>| s_has(t, k) implies s_at(t, k) == s_map(s).insert(p.0@, p.1)[k] by {
        if k == p.0@ {
            lemma_s_at_index(t, n);
        } else {
            let i = choose|i: int| 0 <= i < s.len() && #[trigger] s[i].0@ == k;
            lemma_s_at_index(s, i);
            assert(t[i] == s[i]);
            lemma_s_at_index(t, i);
        }
    }
    assert(s_map(t) =~= s_map(s).insert(p.0@, p.1));
}

/// Replacing the value at index `i`, keeping a key with the same view,
/// updates the map view at that key.
pub proof fn lemma_s_replace<V>(s: Seq<(String, V)>, i: int, p: (String, V))
    requires
        skeys_distinct(s),
        0 <= i < s.len(),
        p.0@ == s[i].0@,
    ensures
        skeys_distinct(s.update(i, p)),
        s_map(s.update(i, p)) == s_map(s).insert(p.0@, p.1),
{
    let t = s.update(i, p);
    assert forall|a: int, b: int| 0 <= a < b < t.len() implies t[a].0@ != t[b].0@ by {
        assert(t[a].0@ == s[a].0@ && t[b].0@ == s[b].0@);
    }
    assert forall|k: Seq<char>| #[trigger] s_has(t, k) <==> s_has(s, k) by {
        if s_has(t, k) {
            let j = choose|j: int| 0 <= j < t.len() && #[trigger] t[j].0@ == k;
            assert(s[j].0@ == k);
        }
        if s_has(s, k) {
            let j = choose|j: int| 0 <= j < s.len() && #[trigger] s[j].0@ == k;
            assert(t[j].0@ == k);
        }
    }
    assert forall|k: Seq<char>| s_has(t, k) implies s_at(t, k) == s_map(s).insert(p.0@, p.1)[k] by {
        if k == p.0@ {
            lemma_s_at_index(t, i);
        } else {
            let j = choose|j: int| 0 <= j < s.len() && #[trigger] s[j].0@ == k;
            if j != i {
                lemma_s_at_index(s, j);
                assert(t[j] == s[j]);
                lemma_s_at_index(t, j);
            }
        }
    }
    assert(s_map(t) =~= s_map(s).insert(p.0@, p.1));
}

/// Swap-removing index `i` removes its key from the map view.
pub proof fn lemma_s_swap_remove<V>(s: Seq<(String, V)>, i: int)
    requires
        skeys_distinct(s),
        0 <= i < s.len(),
    ensures
        skeys_distinct(s.update(i, s.last()).drop_last()),
        s_map(s.update(i, s.last()).drop_last()) == s_map(s).remove(s[i].0@),
{
    let t = s.update(i, s.last()).drop_last();
    let n = s.len() as int;
    let k0 = s[i].0@;
    assert forall|a: int, b: int| 0 <= a < b < t.len() implies t[a].0@ != t[b].0@ by {
        let sa = if a == i {
            n - 1
        } else {
            a
        };
        let sb = if b == i {
            n - 1
        } else {
            b
        };
        assert(t[a] == s[sa] && t[b] == s[sb]);
    }
    assert forall|k: Seq<char>| #[trigger] s_has(t, k) <==> (s_has(s, k) && k != k0) by {
        if s_has(t, k) {
            let j = choose|j: int| 0 <= j < t.len() && #[trigger] t[j].0@ == k;
            let sj = if j == i {
                n - 1
            } else {
                j
            };
            assert(t[j] == s[sj]);
            assert(s[sj].0@ == k);
            assert(sj != i ==> k != k0);
            if sj == i {
                assert(j == i && i == n - 1);
                assert(t.len() == n - 1);
                assert(false);
            }
        }
        if s_has(s, k) && k != k0 {
            let j = choose|j: int| 0 <= j < s.len() && #[trigger] s[j].0@ == k;
            assert(j != i);
            if j == n - 1 {
                if i < n - 1 {
                    assert(t[i] == s[n - 1]);
                    assert(t[i].0@ == k);
                } else {
                    assert(false);
                }
            } else {
                assert(t[j] == s[j]);
                assert(t[j].0@ == k);
            }
        }
    }
    assert forall|k: Seq<char>| s_has(t, k) implies s_at(t, k) == s_at(s, k) by {
        let j = choose|j: int| 0 <= j < t.len() && #[trigger] t[j].0@ == k;
        let sj = if j == i {
            n - 1
        } else {
            j
        };
        assert(t[j] == s[sj]);
        lemma_s_at_index(t, j);
        lemma_s_at_index(s, sj);
    }
    assert(s_map(t) =~= s_map(s).remove(k0));
}

/// Index of the entry with the given key, if any.
pub fn s_find<V>(entries: &Vec<(String, V)>, key: &String) -> (r: Option<usize>)
    ensures
        match r {
            Some(i) => i < entries@.len() && entries@[i as int].0@ == key@,
            None => !s_has(entries@, key@),
        },
{
    let n = entries.len();
    let mut i: usize = 0;
    while i < n
        invariant
            0 <= i <= n,
            n == entries@.len(),
            forall|j: int| 0 <= j < i ==> entries@[j].0@ != key@,
        decreases n - i,
    {
        if entries[i].0 == *key {
            return Some(i);
        }
        i = i + 1;
    }
    None
}

// ---------------------------------------------------------------------------
// Integer-keyed tables
// ---------------------------------------------------------------------------
/// No two entries share a key.
pub open spec fn ukeys_distinct<V>(s: Seq<(u128, V)>) -> bool {
    forall|i: int, j: int| 0 <= i < j < s.len() ==> s[i].0 != s[j].0
}

/// Some entry has key `k`.
pub open spec fn u_has<V>(s: Seq<(u128, V)>, k: u128) -> bool {
    exists|i: int| 0 <= i < s.len() && #[trigger] s[i].0 == k
}

/// The value stored under key `k` (meaningful only when `u_has`).
pub open spec fn u_at<V>(s: Seq<(u128, V)>, k: u128) -> V {
    s[choose|i: int| 0 <= i < s.len() && #[trigger] s[i].0 == k].1
}

/// The table as a mathematical map.
pub open spec fn u_map<V>(s: Seq<(u128, V)>) -> Map<u128, V> {
    Map::new(|k: u128| u_has(s, k), |k: u128| u_at(s, k))
}

/// Under distinct keys, the entry at index `i` is the one `u_at` returns for
/// its key.
pub proof fn lemma_u_at_index<V>(s: Seq<(u128, V)>, i: int)
    requires
        ukeys_distinct(s),
        0 <= i < s.len(),
    ensures
        u_has(s, s[i].0),
        u_at(s, s[i].0) == s[i].1,
{
    assert(u_has(s, s[i].0));
    let j = choose|j: int| 0 <= j < s.len() && #[trigger] s[j].0 == s[i].0;
    if i != j {
        assert(false);
    }
}

/// Pushing an entry with a fresh key inserts it into the map view.
pub proof fn lemma_u_push<V>(s: Seq<(u128, V)>, p: (u128, V))
    requires
        ukeys_distinct(s),
        !u_has(s, p.0),
    ensures
        ukeys_distinct(s.push(p)),
        u_map(s.push(p)) == u_map(s).insert(p.0, p.1),
{
    let t = s.push(p);
    let n = s.len() as int;
    assert forall|i: int, j: int| 0 <= i < j < t.len() implies t[i].0 != t[j].0 by {
        if j < n {
            assert(t[i] == s[i] && t[j] == s[j]);
        } else {
            assert(t[j] == p && t[i] == s[i]);
        }
    }
    assert forall|k: u128| #[trigger] u_has(t, k) <==> u_has(s, k) || k == p.0 by {
        if u_has(t, k) {
            let i = choose|i: int| 0 <= i < t.len() && #[trigger] t[i].0 == k;
            if i < n {
                assert(s[i].0 == k);
            }
        }
        if u_has(s, k) {
            let i = choose|i: int| 0 <= i < s.len() && #[trigger] s[i].0 == k;
            assert(t[i].0 == k);
        }
        if k == p.0 {
            assert(t[n].0 == k);
        }
    }
    assert forall|k: u128| u_has(t, k) implies u_at(t, k) == u_map(s).insert(p.0, p.1)[k] by {
        if k == p.0 {
            lemma_u_at_index(t, n);
        } else {
            let i = choose|i: int| 0 <= i < s.len() && #[trigger] s[i].0 == k;
            lemma_u_at_index(s, i);
            assert(t[i] == s[i]);
            lemma_u_at_index(t, i);
        }
    }
    assert(u_map(t) =~= u_map(s).insert(p.0, p.1));
}

/// Replacing the value at index `i`, keeping the same key, updates the map
/// view at that key.
pub proof fn lemma_u_replace<V>(s: Seq<(u128, V)>, i: int, p: (u128, V))
    requires
        ukeys_distinct(s),
        0 <= i < s.len(),
        p.0 == s[i].0,
    ensures
        ukeys_distinct(s.update(i, p)),
        u_map(s.update(i, p)) == u_map(s).insert(p.0, p.1),
{
    let t = s.update(i, p);
    assert forall|a: int, b: int| 0 <= a < b < t.len() implies t[a].0 != t[b].0 by {
        assert(t[a].0 == s[a].0 && t[b].0 == s[b].0);
    }
    assert forall|k: u128| #[trigger] u_has(t, k) <==> u_has(s, k) by {
        if u_has(t, k) {
            let j = choose|j: int| 0 <= j < t.len() && #[trigger] t[j].0 == k;
            assert(s[j].0 == k);
        }
        if u_has(s, k) {
            let j = choose|j: int| 0 <= j < s.len() && #[trigger] s[j].0 == k;
            assert(t[j].0 == k);
        }
    }
    assert forall|k: u128| u_has(t, k) implies u_at(t, k) == u_map(s).insert(p.0, p.1)[k] by {
        if k == p.0 {
            lemma_u_at_index(t, i);
        } else {
            let j = choose|j: int| 0 <= j < s.len() && #[trigger] s[j].0 == k;
            if j != i {
                lemma_u_at_index(s, j);
                assert(t[j] == s[j]);
                lemma_u_at_index(t, j);
            }
        }
    }
    assert(u_map(t) =~= u_map(s).insert(p.0, p.1));
}

/// Swap-removing index `i` removes its key from the map view.
pub proof fn lemma_u_swap_remove<V>(s: Seq<(u128, V)>, i: int)
    requires
        ukeys_distinct(s),
        0 <= i < s.len(),
    ensures
        ukeys_distinct(s.update(i, s.last()).drop_last()),
        u_map(s.update(i, s.last()).drop_last()) == u_map(s).remove(s[i].0),
{
    let t = s.update(i, s.last()).drop_last();
    let n = s.len() as int;
    let k0 = s[i].0;
    assert forall|a: int, b: int| 0 <= a < b < t.len() implies t[a].0 != t[b].0 by {
        let sa = if a == i {
            n - 1
        } else {
            a
        };
        let sb = if b == i {
            n - 1
        } else {
            b
        };
        assert(t[a] == s[sa] && t[b] == s[sb]);
    }
    assert forall|k: u128| #[trigger] u_has(t, k) <==> (u_has(s, k) && k != k0) by {
        if u_has(t, k) {
            let j = choose|j: int| 0 <= j < t.len() && #[trigger] t[j].0 == k;
            let sj = if j == i {
                n - 1
            } else {
                j
            };
            assert(t[j] == s[sj]);
            if sj == i {
                assert(j == i && i == n - 1);
                assert(false);
            }
        }
        if u_has(s, k) && k != k0 {
            let j = choose|j: int| 0 <= j < s.len() && #[trigger] s[j].0 == k;
            assert(j != i);
            if j == n - 1 {
                if i < n - 1 {
                    assert(t[i] == s[n - 1]);
                    assert(t[i].0 == k);
                } else {
                    assert(false);
                }
            } else {
                assert(t[j] == s[j]);
                assert(t[j].0 == k);
            }
        }
    }
    assert forall|k: u128| u_has(t, k) implies u_at(t, k) == u_at(s, k) by {
        let j = choose|j: int| 0 <= j < t.len() && #[trigger] t[j].0 == k;
        let sj = if j == i {
            n - 1
        } else {
            j
        };
        assert(t[j] == s[sj]);
        lemma_u_at_index(t, j);
        lemma_u_at_index(s, sj);
    }
    assert(u_map(t) =~= u_map(s).remove(k0));
}

/// Index of the entry with the given key, if any.
pub fn u_find<V>(entries: &Vec<(u128, V)>, key: u128) -> (r: Option<usize>)
    ensures
        match r {
            Some(i) => i < entries@.len() && entries@[i as int].0 == key,
            None => !u_has(entries@, key),
        },
{
    let n = entries.len();
    let mut i: usize = 0;
    while i < n
        invariant
            0 <= i <= n,
            n == entries@.len(),
            forall|j: int| 0 <= j < i ==> entries@[j].0 != key,
        decreases n - i,
    {
        if entries[i].0 == key {
            return Some(i);
        }
        i = i + 1;
    }
    None
}

// ---------------------------------------------------------------------------
// String sets
// ---------------------------------------------------------------------------
/// No two elements are equal.
pub open spec fn elems_distinct(s: Seq<String>) -> bool {
    forall|i: int, j: int| 0 <= i < j < s.len() ==> s[i]@ != s[j]@
}

/// Some element has view `k`.
pub open spec fn set_has(s: Seq<String>, k: Seq<char>) -> bool {
    exists|i: int| 0 <= i < s.len() && #[trigger] s[i]@ == k
}

/// The vector as a mathematical set of element views.
pub open spec fn set_view(s: Seq<String>) -> Set<Seq<char>> {
    Set::new(|k: Seq<char>| set_has(s, k))
}

/// Pushing a fresh element inserts it into the set view.
pub proof fn lemma_set_push(s: Seq<String>, p: String)
    requires
        elems_distinct(s),
        !set_has(s, p@),
    ensures
        elems_distinct(s.push(p)),
        set_view(s.push(p)) == set_view(s).insert(p@),
{
    let t = s.push(p);
    let n = s.len() as int;
    assert forall|i: int, j: int| 0 <= i < j < t.len() implies t[i]@ != t[j]@ by {
        if j < n {
            assert(t[i] == s[i] && t[j] == s[j]);
        } else {
            assert(t[j] == p && t[i] == s[i]);
        }
    }
    assert forall|k: Seq<char>| #[trigger] set_has(t, k) <==> set_has(s, k) || k == p@ by {
        if set_has(t, k) {
            let i = choose|i: int| 0 <= i < t.len() && #[trigger] t[i]@ == k;
            if i < n {
                assert(s[i]@ == k);
            }
        }
        if set_has(s, k) {
            let i = choose|i: int| 0 <= i < s.len() && #[trigger] s[i]@ == k;
            assert(t[i]@ == k);
        }
        if k == p@ {
            assert(t[n]@ == k);
        }
    }
    assert(set_view(t) =~= set_view(s).insert(p@));
}

/// Swap-removing index `i` removes its element from the set view.
pub proof fn lemma_set_swap_remove(s: Seq<String>, i: int)
    requires
        elems_distinct(s),
        0 <= i < s.len(),
    ensures
        elems_distinct(s.update(i, s.last()).drop_last()),
        set_view(s.update(i, s.last()).drop_last()) == set_view(s).remove(s[i]@),
{
    let t = s.update(i, s.last()).drop_last();
    let n = s.len() as int;
    let k0 = s[i]@;
    assert forall|a: int, b: int| 0 <= a < b < t.len() implies t[a]@ != t[b]@ by {
        let sa = if a == i {
            n - 1
        } else {
            a
        };
        let sb = if b == i {
            n - 1
        } else {
            b
        };
        assert(t[a] == s[sa] && t[b] == s[sb]);
    }
    assert forall|k: Seq<char>| #[trigger] set_has(t, k) <==> (set_has(s, k) && k != k0) by {
        if set_has(t, k) {
            let j = choose|j: int| 0 <= j < t.len() && #[trigger] t[j]@ == k;
            let sj = if j == i {
                n - 1
            } else {
                j
            };
            assert(t[j] == s[sj]);
            if sj == i {
                assert(j == i && i == n - 1);
                assert(false);
            }
        }
        if set_has(s, k) && k != k0 {
            let j = choose|j: int| 0 <= j < s.len() && #[trigger] s[j]@ == k;
            assert(j != i);
            if j == n - 1 {
                if i < n - 1 {
                    assert(t[i] == s[n - 1]);
                    assert(t[i]@ == k);
                } else {
                    assert(false);
                }
            } else {
                assert(t[j] == s[j]);
                assert(t[j]@ == k);
            }
        }
    }
    assert(set_view(t) =~= set_view(s).remove(k0));
}

/// Index of the element equal to `key`, if any.
pub fn set_find(elems: &Vec<String>, key: &String) -> (r: Option<usize>)
    ensures
        match r {
            Some(i) => i < elems@.len() && elems@[i as int]@ == key@,
            None => !set_has(elems@, key@),
        },
{
    let n = elems.len();
    let mut i: usize = 0;
    while i < n
        invariant
            0 <= i <= n,
            n == elems@.len(),
            forall|j: int| 0 <= j < i ==> elems@[j]@ != key@,
        decreases n - i,
    {
        if elems[i] == *key {
            return Some(i);
        }
        i = i + 1;
    }
    None
}

/// Whether `key` is an element of the set.
pub fn set_contains(elems: &Vec<String>, key: &String) -> (r: bool)
    ensures
        r == set_has(elems@, key@),
{
    match set_find(elems, key) {
        Some(_) => true,
        None => false,
    }
}

// ---------------------------------------------------------------------------
// Indices: tables of string sets
// ---------------------------------------------------------------------------
/// An index is well formed: distinct keys, and each stored set is duplicate
/// free and non-empty.
pub open spec fn index_wf(s: Seq<(String, Vec<String>)>) -> bool {
    &&& skeys_distinct(s)
    &&& forall|i: int| 0 <= i < s.len() ==> elems_distinct(#[trigger] s[i].1@) && s[i].1@.len() > 0
}

/// Removes `elem` from the set stored under `key`, dropping the entry when
/// the set empties. Entries under other keys keep their identity.
pub fn idx_remove_elem(index: &mut Vec<(String, Vec<String>)>, key: &String, elem: &String)
    requires
        index_wf(old(index)@),
        s_has(old(index)@, key@),
        set_has(s_at(old(index)@, key@)@, elem@),
    ensures
        index_wf(final(index)@),
        ({
            let oldset = s_at(old(index)@, key@)@;
            if oldset.len() == 1 {
                !s_has(final(index)@, key@)
            } else {
                s_has(final(index)@, key@) && set_view(s_at(final(index)@, key@)@) == set_view(
                    oldset,
                ).remove(elem@) && s_at(final(index)@, key@)@.len() == oldset.len() - 1
            }
        }),
        forall|k2: Seq<char>| k2 != key@ ==> s_has(final(index)@, k2) == s_has(old(index)@, k2),
        forall|k2: Seq<char>| k2 != key@ && s_has(old(index)@, k2) ==> s_at(final(index)@, k2)
            == s_at(old(index)@, k2),
{
    let j = match s_find(index, key) {
        Some(j) => j,
        None => {
            proof {
                assert(false);
            }
            return ;
        },
    };
    let ghost pre = index@;
    proof {
        lemma_s_at_index(pre, j as int);
    }
    if index[j].1.len() == 1 {
        proof {
            assert(s_at(pre, key@)@[0]@ == elem@) by {
                let e = choose|e: int|
                    0 <= e < s_at(pre, key@)@.len() && #[trigger] s_at(pre, key@)@[e]@ == elem@;
                assert(e == 0);
            }
            lemma_s_swap_remove(pre, j as int);
        }
        index.swap_remove(j);
        proof {
            let post = final(index)@;
            assert(s_map(post) == s_map(pre).remove(key@));
            assert forall|k2: Seq<char>| k2 != key@ implies s_has(post, k2) == s_has(pre, k2) by {
                assert(s_map(post).dom() == s_map(pre).dom().remove(key@));
                assert(s_map(post).dom().contains(k2) == s_map(pre).dom().contains(k2));
            }
            assert forall|k2: Seq<char>| k2 != key@ && s_has(pre, k2) implies s_at(post, k2)
                == s_at(pre, k2) by {
                assert(s_map(post)[k2] == s_map(pre)[k2]);
            }
            assert forall|i: int|
                0 <= i < post.len() implies elems_distinct(#[trigger] post[i].1@) && post[i].1@.len()
                > 0 by {
                let n = pre.len() as int;
                let si = if i == j {
                    n - 1
                } else {
                    i
                };
                assert(post[i] == pre[si]);
            }
        }
    } else {
        let (kstr, mut set_vec) = index.swap_remove(j);
        proof {
            lemma_s_swap_remove(pre, j as int);
        }
        let e = match set_find(&set_vec, elem) {
            Some(e) => e,
            None => {
                proof {
                    assert(false);
                }
                return ;
            },
        };
        let ghost preset = set_vec@;
        set_vec.swap_remove(e);
        proof {
            lemma_set_swap_remove(preset, e as int);
        }
        let ghost mid = index@;
        proof {
            assert(s_map(mid) == s_map(pre).remove(key@));
            assert(!s_has(mid, kstr@)) by {
                assert(!s_map(mid).dom().contains(key@));
            }
            lemma_s_push(mid, (kstr, set_vec));
        }
        index.push((kstr, set_vec));
        proof {
            let post = final(index)@;
            assert(s_map(post) == s_map(pre).remove(key@).insert(key@, final(index)@.last().1));
            assert(s_has(post, key@)) by {
                assert(s_map(post).dom().contains(key@));
            }
            assert(s_at(post, key@) == post.last().1) by {
                lemma_s_at_index(post, post.len() - 1);
            }
            assert forall|k2: Seq<char>| k2 != key@ implies s_has(post, k2) == s_has(pre, k2) by {
                assert(s_map(post).dom().contains(k2) == s_map(pre).dom().contains(k2));
            }
            assert forall|k2: Seq<char>| k2 != key@ && s_has(pre, k2) implies s_at(post, k2)
                == s_at(pre, k2) by {
                assert(s_map(post)[k2] == s_map(pre)[k2]);
            }
            assert forall|i: int|
                0 <= i < post.len() implies elems_distinct(#[trigger] post[i].1@) && post[i].1@.len()
                > 0 by {
                if i < post.len() - 1 {
                    let n = pre.len() as int;
                    let si = if i == j {
                        n - 1
                    } else {
                        i
                    };
                    assert(mid[i] == pre[si]);
                    assert(post[i] == mid[i]);
                }
            }
        }
    }
}

/// Adds `elem` to the set stored under `key`, creating the entry when absent.
/// `elem` must not already be in that set. Entries under other keys keep
/// their identity.
pub fn idx_add_elem(index: &mut Vec<(String, Vec<String>)>, key: String, elem: String)
    requires
        index_wf(old(index)@),
        s_has(old(index)@, key@) ==> !set_has(s_at(old(index)@, key@)@, elem@),
    ensures
        index_wf(final(index)@),
        s_has(final(index)@, key@),
        set_view(s_at(final(index)@, key@)@) == if s_has(old(index)@, key@) {
            set_view(s_at(old(index)@, key@)@).insert(elem@)
        } else {
            Set::<Seq<char>>::empty().insert(elem@)
        },
        forall|k2: Seq<char>| k2 != key@ ==> s_has(final(index)@, k2) == s_has(old(index)@, k2),
        forall|k2: Seq<char>| k2 != key@ && s_has(old(index)@, k2) ==> s_at(final(index)@, k2)
            == s_at(old(index)@, k2),
{
    let ghost pre = index@;
    match s_find(index, &key) {
        Some(j) => {
            proof {
                lemma_s_at_index(pre, j as int);
            }
            let (kstr, mut set_vec) = index.swap_remove(j);
            proof {
                lemma_s_swap_remove(pre, j as int);
                lemma_set_push(set_vec@, elem);
            }
            set_vec.push(elem);
            let ghost mid = index@;
            proof {
                assert(s_map(mid) == s_map(pre).remove(key@));
                assert(!s_has(mid, kstr@)) by {
                    assert(!s_map(mid).dom().contains(key@));
                }
                lemma_s_push(mid, (kstr, set_vec));
            }
            index.push((kstr, set_vec));
            proof {
                let post = final(index)@;
                assert(s_has(post, key@)) by {
                    assert(s_map(post).dom().contains(key@));
                }
                assert(s_at(post, key@) == post.last().1) by {
                    lemma_s_at_index(post, post.len() - 1);
                }
                assert forall|k2: Seq<char>| k2 != key@ implies s_has(post, k2) == s_has(
                    pre,
                    k2,
                ) by {
                    assert(s_map(post).dom().contains(k2) == s_map(pre).dom().contains(k2));
                }
                assert forall|k2: Seq<char>| k2 != key@ && s_has(pre, k2) implies s_at(post, k2)
                    == s_at(pre, k2) by {
                    assert(s_map(post)[k2] == s_map(pre)[k2]);
                }
                assert forall|i: int|
                    0 <= i < post.len() implies elems_distinct(#[trigger] post[i].1@)
                    && post[i].1@.len() > 0 by {
                    if i < post.len() - 1 {
                        let n = pre.len() as int;
                        let si = if i == j as int {
                            n - 1
                        } else {
                            i
                        };
                        assert(post[i] == pre[si]);
                    }
                }
            }
        },
        None => {
            let mut set_vec: Vec<String> = Vec::new();
            proof {
                lemma_set_push(set_vec@, elem);
            }
            set_vec.push(elem);
            proof {
                lemma_s_push(pre, (key, set_vec));
            }
            index.push((key, set_vec));
            proof {
                let post = final(index)@;
                assert(s_map(post) == s_map(pre).insert(key@, post.last().1));
                assert(s_has(post, key@)) by {
                    assert(s_map(post).dom().contains(key@));
                }
                assert(s_at(post, key@) == post.last().1) by {
                    lemma_s_at_index(post, post.len() - 1);
                }
                assert(set_view(s_at(post, key@)@) =~= Set::<Seq<char>>::empty().insert(elem@));
                assert forall|k2: Seq<char>| k2 != key@ implies s_has(post, k2) == s_has(
                    pre,
                    k2,
                ) by {
                    assert(s_map(post).dom().contains(k2) == s_map(pre).dom().contains(k2));
                }
                assert forall|k2: Seq<char>| k2 != key@ && s_has(pre, k2) implies s_at(post, k2)
                    == s_at(pre, k2) by {
                    assert(s_map(post)[k2] == s_map(pre)[k2]);
                }
                assert forall|i: int|
                    0 <= i < post.len() implies elems_distinct(#[trigger] post[i].1@)
                    && post[i].1@.len() > 0 by {
                    if i < post.len() - 1 {
                        assert(post[i] == pre[i]);
                    }
                }
            }
        },
    }
}

} // verus!
