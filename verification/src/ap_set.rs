//! The keyed collection of visible networks.
//!
//! Entries are keyed so that user interactions issued from callbacks can
//! refer to one entry after the set itself has been replaced by a newer
//! scan; a stale key then simply misses. The set is rebuilt wholesale on
//! every successful cycle, so keys only ever grow.

use vstd::prelude::*;

use crate::access_point::AccessPoint;

verus! {

/// The keyed contents of an entry sequence; a later entry wins a key
/// collision, though a well-formed set never has one.
pub open spec fn map_of(s: Seq<(u64, AccessPoint)>) -> Map<u64, AccessPoint>
    decreases s.len(),
{
    if s.len() == 0 {
        Map::empty()
    } else {
        map_of(s.drop_last()).insert(s.last().0, s.last().1)
    }
}

/// Some entry carries the given key.
pub open spec fn has_key(s: Seq<(u64, AccessPoint)>, key: u64) -> bool {
    exists|i: int| 0 <= i < s.len() && s[i].0 == key
}

proof fn lemma_map_of_dom(s: Seq<(u64, AccessPoint)>)
    ensures
        forall|k: u64| #[trigger] map_of(s).dom().contains(k) <==> has_key(s, k),
    decreases s.len(),
{
    if s.len() > 0 {
        let p = s.drop_last();
        lemma_map_of_dom(p);
        assert forall|k: u64| #[trigger] map_of(s).dom().contains(k) implies has_key(s, k) by {
            if k == s.last().0 {
                assert(s[s.len() - 1].0 == k);
            } else {
                assert(map_of(p).dom().contains(k));
                assert(has_key(p, k));
                let i = choose|i: int| 0 <= i < p.len() && p[i].0 == k;
                assert(s[i].0 == k);
            }
        }
        assert forall|k: u64| has_key(s, k) implies #[trigger] map_of(s).dom().contains(k) by {
            let i = choose|i: int| 0 <= i < s.len() && s[i].0 == k;
            if i < s.len() - 1 {
                assert(p[i].0 == k);
                assert(has_key(p, k));
                assert(map_of(p).dom().contains(k));
            }
        }
    }
}

proof fn lemma_map_of_get(s: Seq<(u64, AccessPoint)>)
    requires
        forall|i: int, j: int| 0 <= i && i < j && j < s.len() ==> s[i].0 != s[j].0,
    ensures
        forall|i: int|
            0 <= i < s.len() ==> map_of(s).dom().contains(#[trigger] s[i].0) && map_of(s)[s[i].0]
                == s[i].1,
    decreases s.len(),
{
    if s.len() > 0 {
        let p = s.drop_last();
        lemma_map_of_get(p);
        assert forall|i: int| 0 <= i < s.len() implies map_of(s).dom().contains(#[trigger] s[i].0)
            && map_of(s)[s[i].0] == s[i].1 by {
            if i < s.len() - 1 {
                assert(p[i] == s[i]);
                assert(map_of(p)[s[i].0] == s[i].1);
                assert(s[i].0 != s.last().0);
            }
        }
    }
}

/// The authoritative set of visible networks: a keyed collection whose
/// iteration order is insertion order.
pub struct ApSet {
    entries: Vec<(u64, AccessPoint)>,
    next_key: u64,
}

impl ApSet {
    /// The entries in insertion order.
    pub closed spec fn order(self) -> Seq<(u64, AccessPoint)> {
        self.entries@
    }

    /// The key the next insertion will take.
    pub closed spec fn spec_next_key(self) -> u64 {
        self.next_key
    }

    /// The keyed contents.
    pub open spec fn map_view(self) -> Map<u64, AccessPoint> {
        map_of(self.order())
    }

    /// Keys strictly increase in insertion order and stay below the next
    /// key, so every key is issued at most once.
    pub open spec fn wf(self) -> bool {
        &&& forall|i: int, j: int|
            0 <= i && i < j && j < self.order().len() ==> self.order()[i].0 < self.order()[j].0
        &&& forall|i: int|
            0 <= i < self.order().len() ==> (#[trigger] self.order()[i].0) < self.spec_next_key()
    }

    /// Creates the empty set.
    pub fn new() -> (s: ApSet)
        ensures
            s.wf(),
            s.order() == Seq::<(u64, AccessPoint)>::empty(),
            s.map_view() == Map::<u64, AccessPoint>::empty(),
            s.spec_next_key() == 0,
    {
        ApSet { entries: Vec::new(), next_key: 0 }
    }

    /// How many networks are visible.
    pub fn len(&self) -> (n: usize)
        ensures
            n == self.order().len(),
    {
        self.entries.len()
    }

    /// The entry at one position of the insertion order.
    pub fn entry_at(&self, i: usize) -> (e: &(u64, AccessPoint))
        requires
            i < self.order().len(),
        ensures
            *e == self.order()[i as int],
    {
        &self.entries[i]
    }

    /// Adds one network under a fresh key and returns that key.
    pub fn insert(&mut self, ap: AccessPoint) -> (k: u64)
        requires
            old(self).wf(),
            old(self).spec_next_key() < u64::MAX,
        ensures
            final(self).wf(),
            k == old(self).spec_next_key(),
            !old(self).map_view().dom().contains(k),
            final(self).order() == old(self).order().push((k, ap)),
            final(self).map_view() == old(self).map_view().insert(k, ap),
            final(self).spec_next_key() == k + 1,
    {
        let k = self.next_key;
        self.entries.push((k, ap));
        self.next_key = self.next_key + 1;
        proof {
            lemma_map_of_dom(old(self).order());
            assert(self.order().drop_last() =~= old(self).order());
            if old(self).map_view().dom().contains(k) {
                let i = choose|i: int|
                    0 <= i < old(self).order().len() && old(self).order()[i].0 == k;
            }
        }
        k
    }

    /// Looks one key up; a key from a superseded set simply misses.
    pub fn get(&self, key: u64) -> (r: Option<&AccessPoint>)
        requires
            self.wf(),
        ensures
            r matches Some(ap) ==> self.map_view().dom().contains(key) && *ap
                == self.map_view()[key],
            r is None ==> !self.map_view().dom().contains(key),
    {
        proof {
            lemma_map_of_dom(self.order());
            lemma_map_of_get(self.order());
        }
        let mut i: usize = 0;
        while i < self.entries.len()
            invariant
                i <= self.order().len(),
                self.order() == self.entries@,
                forall|j: int| 0 <= j < i ==> (#[trigger] self.order()[j].0) != key,
                forall|k: u64| #[trigger] self.map_view().dom().contains(k) <==> has_key(
                    self.order(),
                    k,
                ),
                forall|j: int|
                    0 <= j < self.order().len() ==> self.map_view().dom().contains(
                        #[trigger] self.order()[j].0,
                    ) && self.map_view()[self.order()[j].0] == self.order()[j].1,
            decreases self.order().len() - i,
        {
            if self.entries[i].0 == key {
                return Some(&self.entries[i].1);
            }
            i += 1;
        }
        proof {
            if self.map_view().dom().contains(key) {
                let j = choose|j: int| 0 <= j < self.order().len() && self.order()[j].0 == key;
            }
        }
        None
    }

    /// Builds a fresh set from a list, keeping the list's order; the keys
    /// are the positions in that order.
    pub fn from_aps(aps: Vec<AccessPoint>) -> (s: ApSet)
        ensures
            s.wf(),
            s.order().len() == aps@.len(),
            forall|i: int|
                0 <= i < aps@.len() ==> (#[trigger] s.order()[i]).0 == i as u64 && s.order()[i].1
                    == aps@[i],
            s.spec_next_key() == aps@.len(),
    {
        let mut rest = aps;
        let mut s = ApSet::new();
        proof {
            assert(rest@.len() <= usize::MAX) by {
                assert(rest.len() == rest@.len());
            }
        }
        while rest.len() > 0
            invariant
                aps@.len() <= usize::MAX,
                rest@.len() <= aps@.len(),
                rest@ == aps@.subrange(aps@.len() - rest@.len(), aps@.len() as int),
                s.wf(),
                s.order().len() == aps@.len() - rest@.len(),
                forall|i: int|
                    0 <= i < s.order().len() ==> (#[trigger] s.order()[i]).0 == i as u64
                        && s.order()[i].1 == aps@[i],
                s.spec_next_key() == s.order().len(),
            decreases rest@.len(),
        {
            let ghost i = aps@.len() - rest@.len();
            let x = rest.remove(0);
            proof {
                assert(x == aps@[i]);
                assert(rest@ =~= aps@.subrange(i + 1, aps@.len() as int));
                assert(s.spec_next_key() < u64::MAX);
            }
            s.insert(x);
        }
        s
    }
}

} // verus!
