//! Block relationships, the global abuse counter, per-viewer thresholds,
//! and the per-(viewer, post) memoized visibility dictionary.

use vstd::prelude::*;

use crate::api::CurrentUser;
use crate::intmap::IntMap;
use crate::strmap::StrMap;
use crate::{spec_alive, INSTANCE_EXPIRE_TIME};

verus! {

/// The durable block-relationship store: for each registered viewer id,
/// the set of author fingerprints that viewer explicitly blocked.
pub struct BlockedUsers {
    sets: IntMap<StrMap<bool>>,
}

impl View for BlockedUsers {
    type V = Map<i32, Map<Seq<char>, bool>>;

    closed spec fn view(&self) -> Map<i32, Map<Seq<char>, bool>> {
        self.sets@.map_values(|m: StrMap<bool>| m@)
    }
}

/// Whether viewer `id` explicitly blocks the author behind `hash`.
pub open spec fn spec_blocks(bu: BlockedUsers, id: i32, hash: Seq<char>) -> bool {
    bu@.contains_key(id) && bu@[id].contains_key(hash)
}

impl BlockedUsers {
    pub closed spec fn wf(self) -> bool {
        self.sets.wf() && forall|id: i32|
            self.sets@.contains_key(id) ==> (#[trigger] self.sets@[id]).wf()
    }

    pub fn init() -> (r: Self)
        ensures
            r.wf(),
            forall|id: i32, h: Seq<char>| !spec_blocks(r, id, h),
    {
        let r = BlockedUsers { sets: IntMap::new() };
        proof {
            assert(forall|id: i32| !r.sets@.contains_key(id));
            assert(forall|id: i32| !r@.contains_key(id));
        }
        r
    }

    /// Record that viewer `id` blocks `hash`; reports whether the pair
    /// was new.
    pub fn add(&mut self, id: i32, hash: &String) -> (added: usize)
        requires
            old(self).wf(),
        ensures
            final(self).wf(),
            added == (if spec_blocks(*old(self), id, hash@) {
                0int
            } else {
                1int
            }),
            spec_blocks(*final(self), id, hash@),
            forall|id2: i32, h: Seq<char>|
                !(id2 == id && h == hash@) ==> spec_blocks(*final(self), id2, h) == spec_blocks(
                    *old(self),
                    id2,
                    h,
                ),
    {
        let mut inner: StrMap<bool> = match self.sets.take(id) {
            Option::Some(m) => m,
            Option::None => StrMap::new(),
        };
        let added: usize = if inner.contains_key(hash) {
            0
        } else {
            1
        };
        inner.insert(hash.clone(), true);
        self.sets.insert(id, inner);
        proof {
            assert(self.sets@.contains_key(id));
            assert(self@ =~= old(self)@.insert(id, self.sets@[id]@));
        }
        added
    }

    /// Whether viewer `id` blocks `hash`.
    pub fn has(&self, id: i32, hash: &String) -> (r: bool)
        requires
            self.wf(),
        ensures
            r == spec_blocks(*self, id, hash@),
    {
        match self.sets.get(id) {
            Option::Some(m) => m.contains_key(hash),
            Option::None => false,
        }
    }

    /// Forget every block relationship.
    pub fn clear_all(&mut self)
        ensures
            final(self).wf(),
            forall|id: i32, h: Seq<char>| !spec_blocks(*final(self), id, h),
    {
        self.sets.clear();
        proof {
            assert(forall|id: i32| !self.sets@.contains_key(id));
            assert(forall|id: i32| !self@.contains_key(id));
        }
    }
}

/// The global abuse counter: how often each author fingerprint has been
/// blocked, by anyone.
pub struct BlockCounter {
    counts: StrMap<i32>,
}

impl View for BlockCounter {
    type V = Map<Seq<char>, i32>;

    closed spec fn view(&self) -> Map<Seq<char>, i32> {
        self.counts@
    }
}

/// The counter value visibility decisions read: zero when nobody ever
/// blocked the fingerprint.
pub open spec fn spec_block_count(bc: BlockCounter, hash: Seq<char>) -> int {
    if bc@.contains_key(hash) {
        bc@[hash] as int
    } else {
        0
    }
}

impl BlockCounter {
    pub closed spec fn wf(self) -> bool {
        self.counts.wf() && forall|h: Seq<char>|
            self.counts@.contains_key(h) ==> (#[trigger] self.counts@[h]) >= 0
    }

    pub fn init() -> (r: Self)
        ensures
            r.wf(),
            forall|h: Seq<char>| spec_block_count(r, h) == 0,
    {
        BlockCounter { counts: StrMap::new() }
    }

    /// Bump the counter of `hash` by one and return the new value;
    /// saturates at the counter's ceiling.
    pub fn count_incr(&mut self, hash: &String) -> (r: i32)
        requires
            old(self).wf(),
        ensures
            final(self).wf(),
            r as int == (if spec_block_count(*old(self), hash@) < i32::MAX {
                spec_block_count(*old(self), hash@) + 1
            } else {
                i32::MAX as int
            }),
            spec_block_count(*final(self), hash@) == r as int,
            forall|h: Seq<char>|
                h != hash@ ==> spec_block_count(*final(self), h) == spec_block_count(
                    *old(self),
                    h,
                ),
    {
        let cur: i32 = match self.counts.get(hash) {
            Option::Some(c) => *c,
            Option::None => 0,
        };
        let next: i32 = if cur < i32::MAX {
            cur + 1
        } else {
            i32::MAX
        };
        self.counts.insert(hash.clone(), next);
        next
    }

    /// The counter of `hash`, if it was ever bumped.
    pub fn get_count(&self, hash: &String) -> (r: Option<i32>)
        requires
            self.wf(),
        ensures
            match r {
                Option::Some(c) => self@.contains_key(hash@) && c == self@[hash@],
                Option::None => !self@.contains_key(hash@),
            },
    {
        match self.counts.get(hash) {
            Option::Some(c) => Option::Some(*c),
            Option::None => Option::None,
        }
    }
}

/// The default auto-hide rank of a viewer who never configured one.
pub const DEFAULT_AUTO_BLOCK_RANK: u8 = 4;

/// Per-viewer auto-hide threshold rank; an author whose global counter
/// reaches five times the rank is hidden automatically.
pub struct AutoBlockRank {
    ranks: StrMap<u8>,
}

impl View for AutoBlockRank {
    type V = Map<Seq<char>, u8>;

    closed spec fn view(&self) -> Map<Seq<char>, u8> {
        self.ranks@
    }
}

impl AutoBlockRank {
    pub closed spec fn wf(self) -> bool {
        self.ranks.wf()
    }

    pub fn init() -> (r: Self)
        ensures
            r.wf(),
            r@ =~= Map::<Seq<char>, u8>::empty(),
    {
        AutoBlockRank { ranks: StrMap::new() }
    }

    pub fn set(&mut self, namehash: &String, rank: u8)
        requires
            old(self).wf(),
        ensures
            final(self).wf(),
            final(self)@ =~= old(self)@.insert(namehash@, rank),
    {
        self.ranks.insert(namehash.clone(), rank);
    }

    /// The configured rank, or the default.
    pub fn get(&self, namehash: &String) -> (r: u8)
        requires
            self.wf(),
        ensures
            r == (if self@.contains_key(namehash@) {
                self@[namehash@]
            } else {
                DEFAULT_AUTO_BLOCK_RANK
            }),
    {
        match self.ranks.get(namehash) {
            Option::Some(rank) => *rank,
            Option::None => DEFAULT_AUTO_BLOCK_RANK,
        }
    }

    pub fn clear(&mut self)
        ensures
            final(self).wf(),
            final(self)@ =~= Map::<Seq<char>, u8>::empty(),
    {
        self.ranks.clear();
    }
}

/// Fingerprints whose accounts are suspended.
pub struct BannedUsers {
    set: StrMap<bool>,
}

impl View for BannedUsers {
    type V = Map<Seq<char>, bool>;

    closed spec fn view(&self) -> Map<Seq<char>, bool> {
        self.set@
    }
}

impl BannedUsers {
    pub closed spec fn wf(self) -> bool {
        self.set.wf()
    }

    pub fn init() -> (r: Self)
        ensures
            r.wf(),
            r@ =~= Map::<Seq<char>, bool>::empty(),
    {
        BannedUsers { set: StrMap::new() }
    }

    pub fn add(&mut self, namehash: &String)
        requires
            old(self).wf(),
        ensures
            final(self).wf(),
            final(self)@ =~= old(self)@.insert(namehash@, true),
    {
        self.set.insert(namehash.clone(), true);
    }

    pub fn has(&self, namehash: &String) -> (r: bool)
        requires
            self.wf(),
        ensures
            r == self@.contains_key(namehash@),
    {
        self.set.contains_key(namehash)
    }

    pub fn clear(&mut self)
        ensures
            final(self).wf(),
            final(self)@ =~= Map::<Seq<char>, bool>::empty(),
    {
        self.set.clear();
    }
}

/// The visibility rule: an author is hidden from a viewer when the
/// viewer explicitly blocked the author, or when the author's global
/// block counter has reached five times the viewer's auto-hide rank.
/// A viewer without a numeric id can hold no explicit blocks.
pub open spec fn spec_check_if_block(
    bu: BlockedUsers,
    bc: BlockCounter,
    user_id: Option<i32>,
    auto_block_rank: u8,
    hash: Seq<char>,
) -> bool {
    ||| (user_id is Some && spec_blocks(bu, user_id->0, hash))
    ||| spec_block_count(bc, hash) >= auto_block_rank * 5
}

/// Evaluate the visibility rule against the durable stores.
pub fn check_if_block(
    bu: &BlockedUsers,
    bc: &BlockCounter,
    user: &CurrentUser,
    hash: &String,
) -> (r: bool)
    requires
        bu.wf(),
        bc.wf(),
    ensures
        r == spec_check_if_block(*bu, *bc, user.id, user.auto_block_rank, hash@),
{
    let explicit: bool = match user.id {
        Option::Some(id) => bu.has(id, hash),
        Option::None => false,
    };
    let count: i32 = match bc.get_count(hash) {
        Option::Some(c) => c,
        Option::None => 0,
    };
    explicit || count as i64 >= user.auto_block_rank as i64 * 5
}

/// Whether some candidate of the list is the fingerprint `k`.
pub open spec fn spec_hashes_has(hs: Seq<String>, k: Seq<char>) -> bool {
    spec_hashes_has_upto(hs, hs.len() as int, k)
}

/// Whether some of the first `upto` candidates is the fingerprint `k`.
pub open spec fn spec_hashes_has_upto(hs: Seq<String>, upto: int, k: Seq<char>) -> bool {
    exists|j: int| 0 <= j < upto && (#[trigger] hs[j])@ == k
}

/// Whether every candidate of the list is already in the dictionary.
pub open spec fn spec_all_cached(d0: Map<Seq<char>, bool>, hs: Seq<String>) -> bool {
    forall|j: int| 0 <= j < hs.len() ==> d0.contains_key((#[trigger] hs[j])@)
}

/// How a completed dictionary relates to the memoized one it started
/// from: the memoized entries are kept as they were, every candidate is
/// present, and a candidate that was missing carries the visibility
/// rule's verdict.
pub open spec fn spec_completed_dict(
    d0: Map<Seq<char>, bool>,
    bu: BlockedUsers,
    bc: BlockCounter,
    user_id: Option<i32>,
    rank: u8,
    hs: Seq<String>,
    r: Map<Seq<char>, bool>,
) -> bool {
    &&& (forall|k: Seq<char>|
        #![trigger r.contains_key(k)]
        #![trigger d0.contains_key(k)]
        r.contains_key(k) <==> d0.contains_key(k) || spec_hashes_has(hs, k))
    &&& (forall|k: Seq<char>| d0.contains_key(k) ==> r[k] == d0[k])
    &&& (forall|k: Seq<char>|
        !d0.contains_key(k) && spec_hashes_has(hs, k) ==> r[k] == spec_check_if_block(
            bu,
            bc,
            user_id,
            rank,
            k,
        ))
}

/// Per-(viewer, post) memoized visibility dictionary: author fingerprint
/// to "hidden from this viewer", merged from the durable block stores.
pub struct BlockDictCache {
    dict: StrMap<bool>,
    expires_at: i64,
}

impl BlockDictCache {
    pub closed spec fn wf(self) -> bool {
        self.dict.wf()
    }

    /// The dictionary a read at `now` starts from: the cached entries
    /// while the instance is alive, nothing once it expired.
    pub closed spec fn spec_dict(self, now: i64) -> Map<Seq<char>, bool> {
        if spec_alive(self.expires_at, now) {
            self.dict@
        } else {
            Map::empty()
        }
    }

    pub fn init() -> (r: Self)
        ensures
            r.wf(),
            forall|now: i64| r.spec_dict(now) =~= Map::<Seq<char>, bool>::empty(),
    {
        BlockDictCache { dict: StrMap::new(), expires_at: 0 }
    }

    /// Read the memoized dictionary and complete it: every candidate
    /// fingerprint missing from it is looked up against the durable
    /// stores, written back with a fresh TTL, and merged into the
    /// returned dictionary. The second component counts the durable
    /// lookups made: zero exactly when every candidate was already
    /// memoized, which is what makes a repeated call free.
    pub fn get_or_create(
        &mut self,
        bu: &BlockedUsers,
        bc: &BlockCounter,
        user: &CurrentUser,
        hash_list: &Vec<String>,
        now: i64,
    ) -> (r: (StrMap<bool>, usize))
        requires
            old(self).wf(),
            bu.wf(),
            bc.wf(),
            0 <= now <= i64::MAX - INSTANCE_EXPIRE_TIME,
        ensures
            final(self).wf(),
            r.0.wf(),
            r.1 == 0 <==> spec_all_cached(old(self).spec_dict(now), hash_list@),
            spec_completed_dict(
                old(self).spec_dict(now),
                *bu,
                *bc,
                user.id,
                user.auto_block_rank,
                hash_list@,
                r.0@,
            ),
            final(self).spec_dict(now) =~= r.0@ || (r.1 == 0 && final(self).spec_dict(now)
                =~= old(self).spec_dict(now)),
            r.1 > 0 ==> forall|t: i64|
                #![trigger final(self).spec_dict(t)]
                now <= t < now + INSTANCE_EXPIRE_TIME ==> final(self).spec_dict(t) =~= r.0@,
            r.1 == 0 ==> forall|t: i64|
                #![trigger final(self).spec_dict(t)]
                now <= t ==> final(self).spec_dict(t) =~= old(self).spec_dict(t),
    {
        let alive: bool = now < self.expires_at;
        let mut merged: StrMap<bool> = if alive {
            self.dict.duplicate()
        } else {
            StrMap::new()
        };
        let ghost d0 = old(self).spec_dict(now);
        proof {
            assert(merged@ =~= d0);
        }
        let mut missing: usize = 0;
        let n: usize = hash_list.len();
        let mut i: usize = 0;
        while i < n
            invariant
                i <= n,
                n == hash_list@.len(),
                merged.wf(),
                bu.wf(),
                bc.wf(),
                missing <= i,
                missing == 0 <==> (forall|j: int|
                    0 <= j < i ==> d0.contains_key((#[trigger] hash_list@[j])@)),
                forall|k: Seq<char>|
                    #[trigger] merged@.contains_key(k) <==> d0.contains_key(k)
                        || spec_hashes_has_upto(hash_list@, i as int, k),
                forall|k: Seq<char>| d0.contains_key(k) ==> merged@[k] == d0[k],
                forall|k: Seq<char>|
                    !d0.contains_key(k) && merged@.contains_key(k) ==> merged@[k]
                        == spec_check_if_block(*bu, *bc, user.id, user.auto_block_rank, k),
            decreases n - i,
        {
            let h: &String = &hash_list[i];
            let ghost prev = merged@;
            if !merged.contains_key(h) {
                let v: bool = check_if_block(bu, bc, user, h);
                merged.insert(h.clone(), v);
                missing = missing + 1;
                proof {
                    assert(!d0.contains_key(hash_list@[i as int]@));
                }
            }
            proof {
                assert(merged@.contains_key(hash_list@[i as int]@));
                assert forall|k: Seq<char>|
                    #[trigger] merged@.contains_key(k) <==> (d0.contains_key(k)
                        || spec_hashes_has_upto(hash_list@, i + 1, k)) by {
                    if merged@.contains_key(k) {
                        if k == hash_list@[i as int]@ {
                            assert((hash_list@[i as int])@ == k);
                            assert(spec_hashes_has_upto(hash_list@, i + 1, k));
                        } else {
                            assert(prev.contains_key(k));
                            if !d0.contains_key(k) {
                                assert(spec_hashes_has_upto(hash_list@, i as int, k));
                                let j = choose|j: int|
                                    0 <= j < i && (#[trigger] hash_list@[j])@ == k;
                                assert(0 <= j < i + 1 && (hash_list@[j])@ == k);
                                assert(spec_hashes_has_upto(hash_list@, i + 1, k));
                            }
                        }
                    }
                    if d0.contains_key(k) {
                        assert(prev.contains_key(k));
                        assert(merged@.contains_key(k));
                    }
                    if spec_hashes_has_upto(hash_list@, i + 1, k) {
                        let j = choose|j: int| 0 <= j < i + 1 && (#[trigger] hash_list@[j])@ == k;
                        if j < i as int {
                            assert(spec_hashes_has_upto(hash_list@, i as int, k));
                            assert(prev.contains_key(k));
                        } else {
                            assert(k == hash_list@[i as int]@);
                        }
                        assert(merged@.contains_key(k));
                    }
                }
                if missing == 0 {
                    assert forall|j: int| 0 <= j < i + 1 implies d0.contains_key(
                        (#[trigger] hash_list@[j])@,
                    ) by {
                        if j == i as int {
                            assert(prev.contains_key(hash_list@[i as int]@));
                            if !d0.contains_key(hash_list@[i as int]@) {
                                assert(spec_hashes_has_upto(
                                    hash_list@,
                                    i as int,
                                    hash_list@[i as int]@,
                                ));
                                let j2 = choose|j2: int|
                                    0 <= j2 < i && (#[trigger] hash_list@[j2])@
                                        == hash_list@[i as int]@;
                                assert(d0.contains_key(hash_list@[j2]@));
                            }
                        }
                    }
                }
            }
            i += 1;
        }
        let result: StrMap<bool> = merged.duplicate();
        if missing > 0 {
            self.dict = merged;
            self.expires_at = now + INSTANCE_EXPIRE_TIME;
        } else {
            self.dict = merged;
            proof {
                assert forall|t: i64| now <= t implies self.spec_dict(t) =~= old(self).spec_dict(
                    t,
                ) by {
                    if now < old(self).expires_at {
                        assert(self.dict@ =~= d0);
                    } else {
                        assert(d0 =~= Map::<Seq<char>, bool>::empty());
                        assert(self.dict@ =~= merged@);
                        assert forall|k: Seq<char>| !(#[trigger] merged@.contains_key(k)) by {
                            if merged@.contains_key(k) {
                                assert(spec_hashes_has_upto(hash_list@, n as int, k));
                                let j = choose|j: int|
                                    0 <= j < n && (#[trigger] hash_list@[j])@ == k;
                                assert(d0.contains_key(hash_list@[j]@));
                            }
                        }
                    }
                }
            }
        }
        (result, missing)
    }

    /// Drop the memoized dictionary; the block flow does this whenever a
    /// new block relationship involves a participant of the post.
    pub fn clear(&mut self)
        ensures
            final(self).wf(),
            forall|now: i64| final(self).spec_dict(now) =~= Map::<Seq<char>, bool>::empty(),
    {
        self.dict = StrMap::new();
        self.expires_at = 0;
    }
}

/// A repeated read is free: when every candidate is already memoized —
/// as after any earlier read of the same candidates whose entries are
/// still alive — any result satisfying the read's domain and value
/// clauses is the memoized dictionary itself. With the read's
/// zero-lookups clause this is the idempotence of `get_or_create`: the
/// second identical call makes no durable lookup and returns an
/// identical dictionary.
pub proof fn lemma_block_dict_idempotent(
    d0: Map<Seq<char>, bool>,
    bu: BlockedUsers,
    bc: BlockCounter,
    user_id: Option<i32>,
    rank: u8,
    hs: Seq<String>,
    r: Map<Seq<char>, bool>,
)
    requires
        spec_all_cached(d0, hs),
        spec_completed_dict(d0, bu, bc, user_id, rank, hs, r),
    ensures
        r =~= d0,
{
    assert forall|k: Seq<char>| spec_hashes_has(hs, k) implies d0.contains_key(k) by {
        let j = choose|j: int| 0 <= j < hs.len() && (#[trigger] hs[j])@ == k;
        assert(d0.contains_key(hs[j]@));
    }
    assert forall|k: Seq<char>|
        #![trigger r.dom().contains(k)]
        #![trigger d0.dom().contains(k)]
        r.contains_key(k) <==> d0.contains_key(k) by {
        if r.contains_key(k) && !d0.contains_key(k) {
            assert(spec_hashes_has(hs, k));
        }
    }
    assert(r.dom() =~= d0.dom());
}

} // verus!
