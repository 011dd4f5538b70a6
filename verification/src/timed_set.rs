//! The time-limited membership set and its draining traversal.

use vstd::laws_eq::obeys_concrete_eq;
use vstd::pervasive::VecAdditionalExecFns;
use vstd::prelude::*;

use crate::clock::now_millis;
use crate::entries::advance_post;
use crate::entries::expiry_of;
use crate::entries::has_key;
use crate::entries::lemma_key_idx_of;
use crate::entries::lemma_live_idx;
use crate::entries::lemma_to_map_empty;
use crate::entries::lemma_to_map_push;
use crate::entries::lemma_to_map_update;
use crate::entries::live_idx;
use crate::entries::present;
use crate::entries::to_map;
use crate::entries::unique_keys;

verus! {

/// A set of values, each present only until a fixed time-to-live has elapsed
/// after its insertion.
///
/// The set stores every value with an absolute expiry time, read through the
/// view `self@` as a map from value to expiry. A value is logically present
/// when the clock still lies strictly before its expiry; expired entries stay
/// stored until a traversal removes them. Traversal by [`TimedSet::iter`]
/// consumes the set: it hands every stored entry to the iterator and leaves
/// the set empty.
///
/// Values are identified by `==`, so insertion and lookup ask that `T`'s
/// equality decide logical equality, as `vstd::laws_eq::obeys_concrete_eq`
/// states; integers, tuples of them, and other plainly compared types obey it.
#[verifier::reject_recursive_types(T)]
pub struct TimedSet<T> {
    ttl: u64,
    entries: Vec<(T, u64)>,
}

impl<T> View for TimedSet<T> {
    type V = Map<T, u64>;

    closed spec fn view(&self) -> Map<T, u64> {
        to_map(self.entries@)
    }
}

impl<T: Eq> TimedSet<T> {
    /// The fixed time-to-live, in milliseconds, applied to every insertion.
    pub closed spec fn ttl(&self) -> u64 {
        self.ttl
    }

    /// The store names every value at most once.
    pub closed spec fn wf(&self) -> bool {
        unique_keys(self.entries@)
    }

    /// Creates an empty set whose insertions will live for `ttl` milliseconds.
    pub fn new(ttl: u64) -> (r: Self)
        ensures
            r.wf(),
            r@ == Map::<T, u64>::empty(),
            r.ttl() == ttl,
    {
        let entries: Vec<(T, u64)> = Vec::new();
        proof {
            lemma_to_map_empty::<T>();
        }
        TimedSet { ttl, entries }
    }

    /// The position of the entry storing `*v`, if one exists.
    fn find_idx(&self, v: &T) -> (r: Option<usize>)
        requires
            obeys_concrete_eq::<T>(),
        ensures
            match r {
                Some(i) => i < self.entries@.len() && self.entries@[i as int].0 == *v,
                None => !has_key(self.entries@, *v),
            },
    {
        let mut i: usize = 0;
        while i < self.entries.len()
            invariant
                obeys_concrete_eq::<T>(),
                i <= self.entries@.len(),
                forall|j: int| 0 <= j < i ==> self.entries@[j].0 != *v,
            decreases self.entries@.len() - i,
        {
            proof {
                reveal(vstd::laws_eq::obeys_concrete_eq);
            }
            if self.entries[i].0 == *v {
                return Some(i);
            }
            i = i + 1;
        }
        None
    }

    /// Inserts `v` as if the clock read `now`: stores it with expiry
    /// `now + ttl` (saturating), overwriting any prior entry for `v`.
    pub fn add_at(&mut self, v: T, now: u64)
        requires
            obeys_concrete_eq::<T>(),
            old(self).wf(),
        ensures
            final(self).wf(),
            final(self).ttl() == old(self).ttl(),
            final(self)@ == old(self)@.insert(v, expiry_of(now, old(self).ttl())),
    {
        let expiry = if now <= u64::MAX - self.ttl {
            now + self.ttl
        } else {
            u64::MAX
        };
        match self.find_idx(&v) {
            Some(i) => {
                proof {
                    lemma_to_map_update(self.entries@, i as int, expiry);
                }
                self.entries.set(i, (v, expiry));
            },
            None => {
                proof {
                    lemma_to_map_push(self.entries@, v, expiry);
                }
                self.entries.push((v, expiry));
            },
        }
    }

    /// Inserts `v`, present from now until the set's time-to-live has elapsed.
    /// Re-inserting a stored value resets its timer. The expiry is computed
    /// from a wall-clock reading, of which nothing more can be known than
    /// that some reading was used.
    pub fn add(&mut self, v: T)
        requires
            obeys_concrete_eq::<T>(),
            old(self).wf(),
        ensures
            final(self).wf(),
            final(self).ttl() == old(self).ttl(),
            final(self)@.dom() == old(self)@.dom().insert(v),
            exists|now: u64|
                final(self)@ == old(self)@.insert(v, expiry_of(now, old(self).ttl())),
    {
        let now = now_millis();
        self.add_at(v, now);
        proof {
            assert(self@ == old(self)@.insert(v, expiry_of(now, old(self).ttl())));
            assert(self@.dom() =~= old(self)@.dom().insert(v));
        }
    }

    /// Whether `*v` is logically present when the clock reads `now`: stored,
    /// with `now` strictly before its expiry. Does not mutate the set.
    pub fn contains_at(&self, v: &T, now: u64) -> (r: bool)
        requires
            obeys_concrete_eq::<T>(),
            self.wf(),
        ensures
            r == present(self@, *v, now),
    {
        match self.find_idx(v) {
            Some(i) => {
                proof {
                    lemma_key_idx_of(self.entries@, i as int);
                }
                now < self.entries[i].1
            },
            None => false,
        }
    }

    /// Whether `*v` is logically present at some wall-clock reading taken
    /// during the call. A `true` result still proves that `*v` is stored.
    pub fn contains(&self, v: &T) -> (r: bool)
        requires
            obeys_concrete_eq::<T>(),
            self.wf(),
        ensures
            exists|now: u64| r == present(self@, *v, now),
            r ==> self@.dom().contains(*v),
            !self@.dom().contains(*v) ==> !r,
    {
        let now = now_millis();
        let r = self.contains_at(v, now);
        proof {
            assert(r == present(self@, *v, now));
        }
        r
    }

    /// Begins a traversal: every entry stored at this moment, expired or not,
    /// moves out of the set into the returned iterator, and the set is left
    /// empty. The iterator yields the moved values lazily, skipping the ones
    /// already expired when they are reached.
    pub fn iter(&mut self) -> (r: Iter<T>)
        requires
            old(self).wf(),
        ensures
            r.wf(),
            to_map(r@) == old(self)@,
            final(self).wf(),
            final(self)@ == Map::<T, u64>::empty(),
            final(self).ttl() == old(self).ttl(),
    {
        let mut snapshot: Vec<(T, u64)> = Vec::new();
        core::mem::swap(&mut self.entries, &mut snapshot);
        proof {
            lemma_to_map_empty::<T>();
        }
        Iter { remaining: snapshot }
    }
}

/// A draining traversal over the entries a [`TimedSet`] held when
/// [`TimedSet::iter`] was called.
///
/// The view `self@` is the sequence of entries not yet popped. Each advance
/// pops entries from the back — removing them for good — until it meets one
/// whose expiry still lies ahead of the clock, and yields that value; it
/// yields nothing once every remaining entry has been popped.
#[verifier::reject_recursive_types(T)]
pub struct Iter<T> {
    remaining: Vec<(T, u64)>,
}

impl<T> View for Iter<T> {
    type V = Seq<(T, u64)>;

    closed spec fn view(&self) -> Seq<(T, u64)> {
        self.remaining@
    }
}

impl<T> Iter<T> {
    /// The remaining entries name every value at most once, so a traversal
    /// yields each value at most once.
    pub open spec fn wf(&self) -> bool {
        unique_keys(self@)
    }

    /// Advances the traversal as if the clock read `now`: pops entries whose
    /// expiry `now` has reached, then yields the first value found with its
    /// expiry still ahead, or `None` after popping everything.
    #[verifier::loop_isolation(false)]
    pub fn next_at(&mut self, now: u64) -> (r: Option<T>)
        ensures
            advance_post(old(self)@, final(self)@, now, r),
    {
        let ghost orig = self.remaining@;
        proof {
            assert(orig.take(orig.len() as int) =~= orig);
        }
        while self.remaining.len() > 0
            invariant
                self.remaining@.len() <= orig.len(),
                self.remaining@ == orig.take(self.remaining@.len() as int),
                live_idx(orig, now) == live_idx(self.remaining@, now),
            decreases self.remaining@.len(),
        {
            let ghost cur = self.remaining@;
            let pair = self.remaining.pop().unwrap();
            proof {
                assert(pair == cur.last());
                assert(self.remaining@ =~= cur.drop_last());
                assert(cur.drop_last() =~= orig.take(cur.len() - 1));
            }
            if now < pair.1 {
                proof {
                    assert(live_idx(cur, now) == cur.len() - 1);
                    assert(orig[cur.len() - 1] == cur[cur.len() - 1]);
                }
                return Some(pair.0);
            }
            proof {
                assert(live_idx(cur, now) == live_idx(cur.drop_last(), now));
            }
        }
        proof {
            assert(self.remaining@ =~= Seq::<(T, u64)>::empty());
        }
        None
    }

    /// Advances the traversal against a wall-clock reading taken during the
    /// call: some reading decided which entries were popped as expired and
    /// which value, if any, was yielded.
    pub fn next(&mut self) -> (r: Option<T>)
        ensures
            exists|now: u64| advance_post(old(self)@, final(self)@, now, r),
            r is None ==> final(self)@.len() == 0,
            r matches Some(v) ==> has_key(old(self)@, v),
    {
        let now = now_millis();
        let r = self.next_at(now);
        proof {
            assert(advance_post(old(self)@, self@, now, r));
            if live_idx(old(self)@, now) >= 0 {
                lemma_live_idx(old(self)@, now);
            }
        }
        r
    }
}

} // verus!
