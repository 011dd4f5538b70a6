//! The mathematical model of the set's storage.
//!
//! The store is modelled as a sequence of entries, each pairing a value with
//! its absolute expiry time. A well-formed store names every value at most
//! once; [`to_map`] reads such a sequence as the map from values to expiry
//! times that the contracts speak of.

use vstd::prelude::*;

verus! {

/// No value occurs twice among the keys of the sequence.
pub open spec fn unique_keys<T>(s: Seq<(T, u64)>) -> bool {
    forall|i: int, j: int| 0 <= i < j < s.len() ==> s[i].0 != s[j].0
}

/// Some entry of the sequence carries the key `k`.
pub open spec fn has_key<T>(s: Seq<(T, u64)>, k: T) -> bool {
    exists|i: int| 0 <= i < s.len() && s[i].0 == k
}

/// The position of the entry carrying `k`, when one exists.
pub open spec fn key_idx<T>(s: Seq<(T, u64)>, k: T) -> int {
    choose|i: int| 0 <= i < s.len() && s[i].0 == k
}

/// The sequence of entries read as a map from value to expiry time.
pub open spec fn to_map<T>(s: Seq<(T, u64)>) -> Map<T, u64> {
    Map::new(|k: T| has_key(s, k), |k: T| s[key_idx(s, k)].1)
}

/// A value is logically present when it is stored and the clock has not yet
/// reached its expiry time.
pub open spec fn present<T>(m: Map<T, u64>, k: T, now: u64) -> bool {
    m.dom().contains(k) && now < m[k]
}

/// The expiry time written by an insertion at time `now`: `now + ttl`,
/// saturating at the top of the clock's range.
pub open spec fn expiry_of(now: u64, ttl: u64) -> u64 {
    if now + ttl <= u64::MAX {
        (now + ttl) as u64
    } else {
        u64::MAX
    }
}

/// The position of the last entry still unexpired at `now`, or `-1` when
/// every entry has expired (or none is stored). Traversal pops entries from
/// the back, so this is the entry the next advance yields.
pub open spec fn live_idx<T>(s: Seq<(T, u64)>, now: u64) -> int
    decreases s.len(),
{
    if s.len() == 0 {
        -1
    } else if now < s.last().1 {
        s.len() - 1
    } else {
        live_idx(s.drop_last(), now)
    }
}

/// How one advance of a traversal, read at clock value `now`, relates the
/// remaining snapshot before (`pre`) and after (`post`) to what it returned:
/// it pops expired entries from the back until one is still live, yields
/// that one, and yields nothing if it emptied the snapshot.
pub open spec fn advance_post<T>(
    pre: Seq<(T, u64)>,
    post: Seq<(T, u64)>,
    now: u64,
    r: Option<T>,
) -> bool {
    if live_idx(pre, now) >= 0 {
        &&& r == Some(pre[live_idx(pre, now)].0)
        &&& post == pre.take(live_idx(pre, now))
    } else {
        &&& r is None
        &&& post == Seq::<(T, u64)>::empty()
    }
}

/// When `k` is stored, `key_idx` names a position that carries it.
pub proof fn lemma_key_idx_valid<T>(s: Seq<(T, u64)>, k: T)
    requires
        has_key(s, k),
    ensures
        0 <= key_idx(s, k) < s.len(),
        s[key_idx(s, k)].0 == k,
{
}

/// In a well-formed sequence, `key_idx` finds exactly the position looked at.
pub proof fn lemma_key_idx_of<T>(s: Seq<(T, u64)>, i: int)
    requires
        unique_keys(s),
        0 <= i < s.len(),
    ensures
        has_key(s, s[i].0),
        key_idx(s, s[i].0) == i,
{
    assert(has_key(s, s[i].0));
    lemma_key_idx_valid(s, s[i].0);
    let j = key_idx(s, s[i].0);
    if j < i {
        assert(s[j].0 != s[i].0);
    }
    if i < j {
        assert(s[i].0 != s[j].0);
    }
}

/// An empty sequence of entries reads as the empty map.
pub proof fn lemma_to_map_empty<T>()
    ensures
        to_map(Seq::<(T, u64)>::empty()) == Map::<T, u64>::empty(),
{
    assert(to_map(Seq::<(T, u64)>::empty()) =~= Map::<T, u64>::empty());
}

/// Appending an entry with a fresh key inserts it into the map view.
pub proof fn lemma_to_map_push<T>(s: Seq<(T, u64)>, k: T, e: u64)
    requires
        unique_keys(s),
        !has_key(s, k),
    ensures
        unique_keys(s.push((k, e))),
        to_map(s.push((k, e))) == to_map(s).insert(k, e),
{
    let s2 = s.push((k, e));
    assert forall|i: int, j: int| 0 <= i < j < s2.len() implies s2[i].0 != s2[j].0 by {
        if j == s.len() {
            if s2[i].0 == k {
                assert(s[i].0 == k);
                assert(has_key(s, k));
            }
        } else {
            assert(s[i].0 != s[j].0);
        }
    }
    assert forall|x: T| #[trigger] has_key(s2, x) implies has_key(s, x) || x == k by {
        lemma_key_idx_valid(s2, x);
        let i = key_idx(s2, x);
        if i < s.len() {
            assert(s[i].0 == x);
            assert(has_key(s, x));
        }
    }
    assert forall|x: T| #[trigger] has_key(s, x) implies has_key(s2, x) by {
        lemma_key_idx_valid(s, x);
        let i = key_idx(s, x);
        assert(s2[i].0 == x);
    }
    assert(s2[s.len() as int].0 == k);
    assert(has_key(s2, k));
    assert forall|x: T| #[trigger] has_key(s2, x) && x != k implies
        has_key(s, x) && s2[key_idx(s2, x)].1 == s[key_idx(s, x)].1 by {
        lemma_key_idx_valid(s2, x);
        let i = key_idx(s2, x);
        assert(i < s.len());
        assert(s[i].0 == x);
        lemma_key_idx_of(s, i);
        assert(s2[i].1 == s[i].1);
    }
    lemma_key_idx_of(s2, s.len() as int);
    assert(to_map(s2) =~= to_map(s).insert(k, e));
}

/// Rewriting the expiry of the entry at position `i` inserts its key anew
/// into the map view.
pub proof fn lemma_to_map_update<T>(s: Seq<(T, u64)>, i: int, e: u64)
    requires
        unique_keys(s),
        0 <= i < s.len(),
    ensures
        unique_keys(s.update(i, (s[i].0, e))),
        to_map(s.update(i, (s[i].0, e))) == to_map(s).insert(s[i].0, e),
{
    let k = s[i].0;
    let s2 = s.update(i, (k, e));
    assert forall|j: int| 0 <= j < s.len() implies s2[j].0 == s[j].0 by {}
    assert forall|p: int, q: int| 0 <= p < q < s2.len() implies s2[p].0 != s2[q].0 by {
        assert(s[p].0 != s[q].0);
    }
    assert forall|x: T| #[trigger] has_key(s2, x) implies has_key(s, x) by {
        lemma_key_idx_valid(s2, x);
        let w = key_idx(s2, x);
        assert(s[w].0 == x);
    }
    assert forall|x: T| #[trigger] has_key(s, x) implies has_key(s2, x) by {
        lemma_key_idx_valid(s, x);
        let w = key_idx(s, x);
        assert(s2[w].0 == x);
    }
    lemma_key_idx_of(s2, i);
    assert forall|x: T| #[trigger] has_key(s2, x) && x != k implies
        s2[key_idx(s2, x)].1 == s[key_idx(s, x)].1 by {
        lemma_key_idx_valid(s2, x);
        let w = key_idx(s2, x);
        assert(w != i);
        assert(s[w].0 == x);
        lemma_key_idx_of(s, w);
        assert(s2[w].1 == s[w].1);
    }
    assert(to_map(s2) =~= to_map(s).insert(k, e));
}

/// Where the live index points and what lies beyond it: the index stays in
/// range, it names an unexpired entry when it names one at all, and every
/// entry behind it has expired.
pub proof fn lemma_live_idx<T>(s: Seq<(T, u64)>, now: u64)
    ensures
        -1 <= live_idx(s, now) < s.len(),
        live_idx(s, now) >= 0 ==> now < s[live_idx(s, now)].1,
        forall|j: int| live_idx(s, now) < j < s.len() ==> #[trigger] s[j].1 <= now,
    decreases s.len(),
{
    if s.len() == 0 {
    } else if now < s.last().1 {
    } else {
        lemma_live_idx(s.drop_last(), now);
        let l = live_idx(s, now);
        if l >= 0 {
            assert(s.drop_last()[l] == s[l]);
        }
        assert forall|j: int| l < j < s.len() implies #[trigger] s[j].1 <= now by {
            if j < s.len() - 1 {
                assert(s.drop_last()[j] == s[j]);
            }
        }
    }
}

} // verus!
