//! Per-post reaction sets: which fingerprints up- or down-voted each
//! post.

use vstd::prelude::*;

use crate::intmap::IntMap;
use crate::strmap::StrMap;

verus! {

/// Up- and down-vote membership, keyed by post id.
pub struct Reaction {
    up: IntMap<StrMap<bool>>,
    down: IntMap<StrMap<bool>>,
}

/// Whether `namehash` currently casts the reaction `up` on `pid`.
pub open spec fn spec_reacts(r: Reaction, pid: i32, up: bool, namehash: Seq<char>) -> bool {
    let side = if up {
        r.spec_up()
    } else {
        r.spec_down()
    };
    side.contains_key(pid) && side[pid].contains_key(namehash)
}

impl Reaction {
    pub closed spec fn spec_up(self) -> Map<i32, Map<Seq<char>, bool>> {
        self.up@.map_values(|m: StrMap<bool>| m@)
    }

    pub closed spec fn spec_down(self) -> Map<i32, Map<Seq<char>, bool>> {
        self.down@.map_values(|m: StrMap<bool>| m@)
    }

    pub closed spec fn wf(self) -> bool {
        &&& self.up.wf()
        &&& self.down.wf()
        &&& forall|pid: i32| self.up@.contains_key(pid) ==> (#[trigger] self.up@[pid]).wf()
        &&& forall|pid: i32| self.down@.contains_key(pid) ==> (#[trigger] self.down@[pid]).wf()
    }

    pub fn init() -> (r: Self)
        ensures
            r.wf(),
            forall|pid: i32, up: bool, h: Seq<char>| !spec_reacts(r, pid, up, h),
    {
        let r = Reaction { up: IntMap::new(), down: IntMap::new() };
        proof {
            assert(forall|pid: i32| !r.up@.contains_key(pid));
            assert(forall|pid: i32| !r.spec_up().contains_key(pid));
            assert(forall|pid: i32| !r.down@.contains_key(pid));
            assert(forall|pid: i32| !r.spec_down().contains_key(pid));
        }
        r
    }

    /// Record the reaction; reports 1 when it was new, 0 when it was
    /// already cast.
    pub fn add(&mut self, pid: i32, up: bool, namehash: &String) -> (added: usize)
        requires
            old(self).wf(),
        ensures
            final(self).wf(),
            added == (if spec_reacts(*old(self), pid, up, namehash@) {
                0int
            } else {
                1int
            }),
            spec_reacts(*final(self), pid, up, namehash@),
            forall|q: i32, u: bool, h: Seq<char>|
                !(q == pid && u == up && h == namehash@) ==> spec_reacts(*final(self), q, u, h)
                    == spec_reacts(*old(self), q, u, h),
    {
        let side: &mut IntMap<StrMap<bool>> = if up {
            &mut self.up
        } else {
            &mut self.down
        };
        let mut inner: StrMap<bool> = match side.take(pid) {
            Option::Some(m) => m,
            Option::None => StrMap::new(),
        };
        let added: usize = if inner.contains_key(namehash) {
            0
        } else {
            1
        };
        inner.insert(namehash.clone(), true);
        side.insert(pid, inner);
        proof {
            if up {
                assert(self.up@.contains_key(pid));
                assert(self.spec_up() =~= old(self).spec_up().insert(pid, self.up@[pid]@));
                assert(self.spec_down() == old(self).spec_down());
            } else {
                assert(self.down@.contains_key(pid));
                assert(self.spec_down() =~= old(self).spec_down().insert(pid, self.down@[pid]@));
                assert(self.spec_up() == old(self).spec_up());
            }
        }
        added
    }

    /// Withdraw the reaction; reports 1 when it was present, 0 when it
    /// was not.
    pub fn rem(&mut self, pid: i32, up: bool, namehash: &String) -> (removed: usize)
        requires
            old(self).wf(),
        ensures
            final(self).wf(),
            removed == (if spec_reacts(*old(self), pid, up, namehash@) {
                1int
            } else {
                0int
            }),
            !spec_reacts(*final(self), pid, up, namehash@),
            forall|q: i32, u: bool, h: Seq<char>|
                !(q == pid && u == up && h == namehash@) ==> spec_reacts(*final(self), q, u, h)
                    == spec_reacts(*old(self), q, u, h),
    {
        let side: &mut IntMap<StrMap<bool>> = if up {
            &mut self.up
        } else {
            &mut self.down
        };
        let mut inner: StrMap<bool> = match side.take(pid) {
            Option::Some(m) => m,
            Option::None => StrMap::new(),
        };
        let removed: usize = if inner.contains_key(namehash) {
            1
        } else {
            0
        };
        inner.remove(namehash);
        side.insert(pid, inner);
        proof {
            if up {
                assert(self.up@.contains_key(pid));
                assert(self.spec_up() =~= old(self).spec_up().insert(pid, self.up@[pid]@));
                assert(self.spec_down() == old(self).spec_down());
            } else {
                assert(self.down@.contains_key(pid));
                assert(self.spec_down() =~= old(self).spec_down().insert(pid, self.down@[pid]@));
                assert(self.spec_up() == old(self).spec_up());
            }
        }
        removed
    }

    /// Whether `namehash` currently casts the reaction.
    pub fn has(&self, pid: i32, up: bool, namehash: &String) -> (r: bool)
        requires
            self.wf(),
        ensures
            r == spec_reacts(*self, pid, up, namehash@),
    {
        let side: &IntMap<StrMap<bool>> = if up {
            &self.up
        } else {
            &self.down
        };
        match side.get(pid) {
            Option::Some(m) => m.contains_key(namehash),
            Option::None => false,
        }
    }
}

/// The reaction status of a user on a post: 1 for an up-vote, -1 for a
/// down-vote, 0 for neither.
pub fn get_user_post_reaction_status(r: &Reaction, pid: i32, namehash: &String) -> (st: i32)
    requires
        r.wf(),
    ensures
        st == (if spec_reacts(*r, pid, false, namehash@) {
            -1int
        } else if spec_reacts(*r, pid, true, namehash@) {
            1int
        } else {
            0int
        }),
{
    if r.has(pid, false, namehash) {
        -1
    } else if r.has(pid, true, namehash) {
        1
    } else {
        0
    }
}

} // verus!
