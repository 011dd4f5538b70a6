//! The laws of the set, stated over the same models its contracts use: the
//! map view of [`crate::TimedSet`], the snapshot view of [`crate::Iter`], and
//! the spec functions of [`crate::entries`] that their contracts speak of.

use vstd::prelude::*;

use crate::entries::expiry_of;
use crate::entries::has_key;
use crate::entries::lemma_live_idx;
use crate::entries::live_idx;
use crate::entries::present;
use crate::entries::to_map;

verus! {

/// Fresh membership: right after an insertion with a positive time-to-live,
/// the value is present. `TimedSet::add_at(v, now)` turns the view `m` into
/// `m.insert(v, expiry_of(now, ttl))`, and `TimedSet::contains_at(&v, now)`
/// returns `present` of the view. The one clock value left out is the top of
/// the range, at which no expiry can lie strictly ahead.
pub proof fn lemma_fresh_membership<T>(m: Map<T, u64>, v: T, ttl: u64, now: u64)
    requires
        ttl > 0,
        now < u64::MAX,
    ensures
        present(m.insert(v, expiry_of(now, ttl)), v, now),
{
}

/// Expiry: once more than the time-to-live has passed since a value's last
/// insertion, it is no longer present, whatever was stored before.
pub proof fn lemma_expiry<T>(m: Map<T, u64>, v: T, ttl: u64, now: u64, later: u64)
    requires
        later > now + ttl,
    ensures
        !present(m.insert(v, expiry_of(now, ttl)), v, later),
{
}

/// Refresh: re-inserting a value resets its timer. After two insertions of
/// `v`, presence at any query time is decided by the second insertion's
/// expiry alone; the first leaves no trace.
pub proof fn lemma_refresh<T>(m: Map<T, u64>, v: T, ttl: u64, first: u64, second: u64, query: u64)
    ensures
        present(m.insert(v, expiry_of(first, ttl)).insert(v, expiry_of(second, ttl)), v, query)
            <==> query < expiry_of(second, ttl),
{
}

/// Drain: `TimedSet::iter` leaves the view empty, so afterwards no value is
/// present at any clock value; and a snapshot whose map view is empty — such
/// as one a later `TimedSet::iter` takes from the drained set — holds no
/// entries, so its traversal yields nothing at any clock value.
pub proof fn lemma_drain<T>(s: Seq<(T, u64)>, v: T, now: u64)
    requires
        to_map(s) == Map::<T, u64>::empty(),
    ensures
        !present(Map::<T, u64>::empty(), v, now),
        s.len() == 0,
        live_idx(s, now) == -1,
{
    if s.len() > 0 {
        assert(has_key(s, s[0].0));
        assert(to_map(s).dom().contains(s[0].0));
    }
}

/// Expired entries are skipped but still removed: when every entry of a
/// traversal's remaining snapshot has expired, the next advance yields
/// nothing — and by `Iter::next_at`'s contract it then pops the whole
/// snapshot, so the entries are gone without having been yielded.
pub proof fn lemma_expired_skipped<T>(s: Seq<(T, u64)>, now: u64)
    requires
        forall|i: int| 0 <= i < s.len() ==> #[trigger] s[i].1 <= now,
    ensures
        live_idx(s, now) == -1,
{
    lemma_live_idx(s, now);
}

} // verus!
