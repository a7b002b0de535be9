//! Per-user attention sets: which posts each fingerprint follows.

use vstd::prelude::*;

use crate::intmap::IntMap;
use crate::strmap::StrMap;

verus! {

/// The attention relation, keyed by follower fingerprint.
pub struct Attention {
    sets: StrMap<IntMap<bool>>,
}

impl View for Attention {
    type V = Map<Seq<char>, Map<i32, bool>>;

    closed spec fn view(&self) -> Map<Seq<char>, Map<i32, bool>> {
        self.sets@.map_values(|m: IntMap<bool>| m@)
    }
}

/// Whether the user behind `namehash` attends post `pid`.
pub open spec fn spec_attends(a: Attention, namehash: Seq<char>, pid: i32) -> bool {
    a@.contains_key(namehash) && a@[namehash].contains_key(pid)
}

impl Attention {
    pub closed spec fn wf(self) -> bool {
        self.sets.wf() && forall|h: Seq<char>|
            self.sets@.contains_key(h) ==> (#[trigger] self.sets@[h]).wf()
    }

    pub fn init() -> (r: Self)
        ensures
            r.wf(),
            forall|h: Seq<char>, pid: i32| !spec_attends(r, h, pid),
    {
        let r = Attention { sets: StrMap::new() };
        proof {
            assert(forall|h: Seq<char>| !r.sets@.contains_key(h));
            assert(forall|h: Seq<char>| !r@.contains_key(h));
        }
        r
    }

    /// Start attending `pid`.
    pub fn add(&mut self, namehash: &String, pid: i32)
        requires
            old(self).wf(),
        ensures
            final(self).wf(),
            spec_attends(*final(self), namehash@, pid),
            forall|h: Seq<char>, q: i32|
                !(h == namehash@ && q == pid) ==> spec_attends(*final(self), h, q) == spec_attends(
                    *old(self),
                    h,
                    q,
                ),
    {
        let mut inner: IntMap<bool> = match self.sets.take(namehash) {
            Option::Some(m) => m,
            Option::None => IntMap::new(),
        };
        inner.insert(pid, true);
        self.sets.insert(namehash.clone(), inner);
        proof {
            assert(self.sets@.contains_key(namehash@));
            assert(self@ =~= old(self)@.insert(namehash@, self.sets@[namehash@]@));
        }
    }

    /// Stop attending `pid`.
    pub fn remove(&mut self, namehash: &String, pid: i32)
        requires
            old(self).wf(),
        ensures
            final(self).wf(),
            !spec_attends(*final(self), namehash@, pid),
            forall|h: Seq<char>, q: i32|
                !(h == namehash@ && q == pid) ==> spec_attends(*final(self), h, q) == spec_attends(
                    *old(self),
                    h,
                    q,
                ),
    {
        let mut inner: IntMap<bool> = match self.sets.take(namehash) {
            Option::Some(m) => m,
            Option::None => IntMap::new(),
        };
        inner.remove(pid);
        self.sets.insert(namehash.clone(), inner);
        proof {
            assert(self.sets@.contains_key(namehash@));
            assert(self@ =~= old(self)@.insert(namehash@, self.sets@[namehash@]@));
        }
    }

    /// Whether `namehash` attends `pid`.
    pub fn has(&self, namehash: &String, pid: i32) -> (r: bool)
        requires
            self.wf(),
        ensures
            r == spec_attends(*self, namehash@, pid),
    {
        match self.sets.get(namehash) {
            Option::Some(m) => m.contains_key(pid),
            Option::None => false,
        }
    }

    /// Every post `namehash` attends.
    pub fn all(&self, namehash: &String) -> (r: Vec<i32>)
        requires
            self.wf(),
        ensures
            forall|j: int|
                0 <= j < r@.len() ==> spec_attends(*self, namehash@, #[trigger] r@[j]),
            forall|pid: i32| spec_attends(*self, namehash@, pid) ==> r@.contains(pid),
    {
        match self.sets.get(namehash) {
            Option::Some(m) => {
                let ks: Vec<i32> = m.keys();
                proof {
                    assert forall|pid: i32|
                        spec_attends(*self, namehash@, pid) implies ks@.contains(pid) by {
                        assert(m@.contains_key(pid));
                    }
                }
                ks
            }
            Option::None => Vec::new(),
        }
    }

    /// Forget every attention relationship.
    pub fn clear_all(&mut self)
        ensures
            final(self).wf(),
            forall|h: Seq<char>, pid: i32| !spec_attends(*final(self), h, pid),
    {
        self.sets.clear();
        proof {
            assert(forall|h: Seq<char>| !self.sets@.contains_key(h));
            assert(forall|h: Seq<char>| !self@.contains_key(h));
        }
    }
}

} // verus!
