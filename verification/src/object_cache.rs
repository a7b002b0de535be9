//! Keyed object caches: read-through/write-through copies of single
//! posts, of per-post comment lists and of per-token user lookups, each
//! with a TTL refreshed on access.

use vstd::prelude::*;

use crate::intmap::IntMap;
use crate::post::{Comment, Post, User};
use crate::strmap::StrMap;
use crate::{spec_alive, INSTANCE_EXPIRE_TIME};

verus! {

/// A cached post and the instant its entry expires.
pub struct PostEntry {
    pub post: Post,
    pub expires_at: i64,
}

/// A cached comment list and the instant its entry expires.
pub struct CommentsEntry {
    pub comments: Vec<Comment>,
    pub expires_at: i64,
}

/// A cached user and the instant its entry expires.
pub struct UserEntry {
    pub user: User,
    pub expires_at: i64,
}

/// An exact copy of a comment list; each row is cloned field by field.
pub fn clone_comments(cs: &Vec<Comment>) -> (r: Vec<Comment>)
    ensures
        r@ == cs@,
{
    let mut r: Vec<Comment> = Vec::new();
    let n: usize = cs.len();
    let mut i: usize = 0;
    while i < n
        invariant
            i <= n,
            n == cs@.len(),
            r@ =~= cs@.take(i as int),
        decreases n - i,
    {
        r.push(cs[i].clone());
        proof {
            assert(r@ =~= cs@.take(i + 1));
        }
        i += 1;
    }
    proof {
        assert(cs@.take(n as int) =~= cs@);
    }
    r
}

/// An exact copy of a post list.
pub fn clone_posts(ps: &Vec<Post>) -> (r: Vec<Post>)
    ensures
        r@ == ps@,
{
    let mut r: Vec<Post> = Vec::new();
    let n: usize = ps.len();
    let mut i: usize = 0;
    while i < n
        invariant
            i <= n,
            n == ps@.len(),
            r@ =~= ps@.take(i as int),
        decreases n - i,
    {
        r.push(ps[i].clone());
        proof {
            assert(r@ =~= ps@.take(i + 1));
        }
        i += 1;
    }
    proof {
        assert(ps@.take(n as int) =~= ps@);
    }
    r
}

/// What a cache read of `pid` at time `now` yields from the dictionary
/// `m`: the cached copy while its entry is alive, otherwise a miss.
pub open spec fn spec_cached(m: Map<i32, PostEntry>, pid: i32, now: i64) -> Option<Post> {
    if m.contains_key(pid) && spec_alive(m[pid].expires_at, now) {
        Option::Some(m[pid].post)
    } else {
        Option::None
    }
}

/// The entry a write-through at `now` stores for `p`.
pub open spec fn spec_entry(p: Post, now: i64) -> PostEntry {
    PostEntry { post: p, expires_at: (now + INSTANCE_EXPIRE_TIME) as i64 }
}

/// The dictionary after a batch write: each post of `s` is inserted in
/// order, so a repeated id is superseded by its later copy.
pub open spec fn spec_sets_map(m: Map<i32, PostEntry>, s: Seq<Post>, now: i64) -> Map<
    i32,
    PostEntry,
>
    decreases s.len(),
{
    if s.len() == 0 {
        m
    } else {
        spec_sets_map(m.insert(s[0].id, spec_entry(s[0], now)), s.skip(1), now)
    }
}

/// Whether some post of the batch carries id `k`.
pub open spec fn spec_batch_has_id(s: Seq<Post>, k: i32) -> bool {
    exists|i: int| 0 <= i < s.len() && (#[trigger] s[i]).id == k
}

/// Whether the copy at index `i` is the batch's last with its id.
pub open spec fn spec_last_occurrence(s: Seq<Post>, i: int) -> bool {
    forall|j: int| i < j < s.len() ==> (#[trigger] s[j]).id != s[i].id
}

/// A batch write leaves ids outside the batch untouched.
proof fn lemma_sets_map_absent(m: Map<i32, PostEntry>, s: Seq<Post>, now: i64, k: i32)
    requires
        !spec_batch_has_id(s, k),
    ensures
        spec_sets_map(m, s, now).contains_key(k) == m.contains_key(k),
        m.contains_key(k) ==> spec_sets_map(m, s, now)[k] == m[k],
    decreases s.len(),
{
    if s.len() > 0 {
        let m1 = m.insert(s[0].id, spec_entry(s[0], now));
        let t = s.skip(1);
        assert(!spec_batch_has_id(t, k)) by {
            if spec_batch_has_id(t, k) {
                let i = choose|i: int| 0 <= i < t.len() && (#[trigger] t[i]).id == k;
                assert(s[i + 1] == t[i]);
                assert(spec_batch_has_id(s, k));
            }
        }
        assert(s[0].id != k) by {
            if s[0].id == k {
                assert(spec_batch_has_id(s, k));
            }
        }
        lemma_sets_map_absent(m1, t, now, k);
    }
}

/// After a batch write, an id's binding is the batch's last copy of it.
proof fn lemma_sets_map_last(m: Map<i32, PostEntry>, s: Seq<Post>, now: i64, i: int)
    requires
        0 <= i < s.len(),
        spec_last_occurrence(s, i),
    ensures
        spec_sets_map(m, s, now).contains_key(s[i].id),
        spec_sets_map(m, s, now)[s[i].id] == spec_entry(s[i], now),
    decreases s.len(),
{
    let m1 = m.insert(s[0].id, spec_entry(s[0], now));
    let t = s.skip(1);
    if i == 0 {
        assert(!spec_batch_has_id(t, s[0].id)) by {
            if spec_batch_has_id(t, s[0].id) {
                let j = choose|j: int| 0 <= j < t.len() && (#[trigger] t[j]).id == s[0].id;
                assert(s[j + 1] == t[j]);
            }
        }
        lemma_sets_map_absent(m1, t, now, s[0].id);
    } else {
        assert(t[i - 1] == s[i]);
        assert(spec_last_occurrence(t, i - 1)) by {
            assert forall|j: int| i - 1 < j < t.len() implies (#[trigger] t[j]).id != t[i - 1].id
                by {
                assert(t[j] == s[j + 1]);
            }
        }
        lemma_sets_map_last(m1, t, now, i - 1);
    }
}

/// Write-through cache of single posts, keyed by post id. Deleted posts
/// are cached and returned like any other: visibility is the caller's
/// policy, not this cache's.
pub struct PostCache {
    map: IntMap<PostEntry>,
}

impl View for PostCache {
    type V = Map<i32, PostEntry>;

    closed spec fn view(&self) -> Map<i32, PostEntry> {
        self.map@
    }
}

impl PostCache {
    pub closed spec fn wf(self) -> bool {
        self.map.wf()
    }

    /// Every cached copy is a well-formed row filed under its own id;
    /// the write paths only ever store rows the store handed out.
    pub open spec fn wf_posts(self) -> bool {
        forall|k: i32|
            self@.contains_key(k) ==> (#[trigger] self@[k]).post.wf() && self@[k].post.id == k
    }

    pub fn init() -> (r: Self)
        ensures
            r.wf(),
            r.wf_posts(),
            r@ =~= Map::<i32, PostEntry>::empty(),
    {
        PostCache { map: IntMap::new() }
    }

    /// Write-through insert of a batch; a no-op on empty input. Every
    /// entry written carries the fixed instance expiry window. A post
    /// whose id repeats later in the batch is superseded by the later
    /// copy.
    pub fn sets(&mut self, ps: &Vec<Post>, now: i64)
        requires
            old(self).wf(),
            old(self).wf_posts(),
            forall|i: int| 0 <= i < ps@.len() ==> (#[trigger] ps@[i]).wf(),
            0 <= now <= i64::MAX - INSTANCE_EXPIRE_TIME,
        ensures
            final(self).wf(),
            final(self).wf_posts(),
            final(self)@ == spec_sets_map(old(self)@, ps@, now),
            forall|i: int|
                0 <= i < ps@.len() && spec_last_occurrence(ps@, i) ==> {
                    &&& final(self)@.contains_key(ps@[i].id)
                    &&& final(self)@[ps@[i].id] == spec_entry(ps@[i], now)
                },
            forall|k: i32|
                !spec_batch_has_id(ps@, k) ==> {
                    &&& final(self)@.contains_key(k) == old(self)@.contains_key(k)
                    &&& (old(self)@.contains_key(k) ==> final(self)@[k] == old(self)@[k])
                },
    {
        proof {
            assert(ps@.skip(0) =~= ps@);
        }
        let n: usize = ps.len();
        let mut i: usize = 0;
        while i < n
            invariant
                i <= n,
                n == ps@.len(),
                self.wf(),
                self.wf_posts(),
                forall|j: int| 0 <= j < ps@.len() ==> (#[trigger] ps@[j]).wf(),
                0 <= now <= i64::MAX - INSTANCE_EXPIRE_TIME,
                spec_sets_map(old(self)@, ps@, now) == spec_sets_map(
                    self@,
                    ps@.skip(i as int),
                    now,
                ),
            decreases n - i,
        {
            let ghost rem = ps@.skip(i as int);
            let entry = PostEntry { post: ps[i].clone(), expires_at: now + INSTANCE_EXPIRE_TIME };
            proof {
                assert(rem[0] == ps@[i as int]);
                assert(entry == spec_entry(ps@[i as int], now));
            }
            self.map.insert(ps[i].id, entry);
            proof {
                assert(rem.skip(1) =~= ps@.skip(i + 1));
                assert(spec_sets_map(old(self)@, ps@, now) == spec_sets_map(
                    self@,
                    ps@.skip(i + 1),
                    now,
                ));
            }
            i += 1;
        }
        proof {
            assert(ps@.skip(n as int) =~= Seq::<Post>::empty());
            assert(spec_sets_map(self@, ps@.skip(n as int), now) == self@);
            assert forall|i: int| 0 <= i < ps@.len() && spec_last_occurrence(ps@, i) implies {
                &&& self@.contains_key(ps@[i].id)
                &&& self@[ps@[i].id] == spec_entry(ps@[i], now)
            } by {
                lemma_sets_map_last(old(self)@, ps@, now, i);
            }
            assert forall|k: i32| !spec_batch_has_id(ps@, k) implies {
                &&& self@.contains_key(k) == old(self)@.contains_key(k)
                &&& (old(self)@.contains_key(k) ==> self@[k] == old(self)@[k])
            } by {
                lemma_sets_map_absent(old(self)@, ps@, now, k);
            }
        }
    }

    /// Read one post: a hit returns the cached copy (deleted or not) and
    /// refreshes its TTL; a miss, or an expired entry, returns nothing
    /// and leaves the cache unchanged.
    pub fn get(&mut self, pid: i32, now: i64) -> (r: Option<Post>)
        requires
            old(self).wf(),
            old(self).wf_posts(),
            0 <= now <= i64::MAX - INSTANCE_EXPIRE_TIME,
        ensures
            final(self).wf(),
            final(self).wf_posts(),
            r == spec_cached(old(self)@, pid, now),
            match spec_cached(old(self)@, pid, now) {
                Option::Some(p) => final(self)@ =~= old(self)@.insert(
                    pid,
                    PostEntry { post: p, expires_at: (now + INSTANCE_EXPIRE_TIME) as i64 },
                ),
                Option::None => final(self)@ == old(self)@,
            },
    {
        let cached: Option<Post> = match self.map.get(pid) {
            Option::Some(e) => {
                if now < e.expires_at {
                    Option::Some(e.post.clone())
                } else {
                    Option::None
                }
            }
            Option::None => Option::None,
        };
        match cached {
            Option::Some(p) => {
                let refreshed = PostEntry {
                    post: p.clone(),
                    expires_at: now + INSTANCE_EXPIRE_TIME,
                };
                self.map.insert(pid, refreshed);
                Option::Some(p)
            }
            Option::None => Option::None,
        }
    }

    /// Read a batch, preserving input order and marking misses
    /// positionally. A one-element batch is routed through the
    /// single-key read path — mirroring the underlying key/value
    /// protocol, where a length-1 multi-get is not the same call as a
    /// true multi-get — and therefore refreshes the TTL exactly as
    /// `get` does; longer batches leave the cache unchanged.
    pub fn gets(&mut self, pids: &Vec<i32>, now: i64) -> (r: Vec<Option<Post>>)
        requires
            old(self).wf(),
            old(self).wf_posts(),
            0 <= now <= i64::MAX - INSTANCE_EXPIRE_TIME,
        ensures
            final(self).wf(),
            final(self).wf_posts(),
            r@.len() == pids@.len(),
            forall|i: int| 0 <= i < pids@.len() ==> r@[i] == spec_cached(old(self)@, pids@[i], now),
            pids@.len() != 1 ==> final(self)@ == old(self)@,
            pids@.len() == 1 ==> match spec_cached(old(self)@, pids@[0], now) {
                Option::Some(p) => final(self)@ =~= old(self)@.insert(
                    pids@[0],
                    PostEntry { post: p, expires_at: (now + INSTANCE_EXPIRE_TIME) as i64 },
                ),
                Option::None => final(self)@ == old(self)@,
            },
    {
        let n: usize = pids.len();
        if n == 0 {
            Vec::new()
        } else if n == 1 {
            let one: Option<Post> = self.get(pids[0], now);
            let mut r: Vec<Option<Post>> = Vec::new();
            r.push(one);
            r
        } else {
            let mut r: Vec<Option<Post>> = Vec::new();
            let mut i: usize = 0;
            while i < n
                invariant
                    i <= n,
                    n == pids@.len(),
                    self.wf(),
                    self@ == old(self)@,
                    0 <= now <= i64::MAX - INSTANCE_EXPIRE_TIME,
                    r@.len() == i as int,
                    forall|j: int|
                        0 <= j < i ==> r@[j] == spec_cached(old(self)@, pids@[j], now),
                decreases n - i,
            {
                let one: Option<Post> = match self.map.get(pids[i]) {
                    Option::Some(e) => {
                        if now < e.expires_at {
                            Option::Some(e.post.clone())
                        } else {
                            Option::None
                        }
                    }
                    Option::None => Option::None,
                };
                r.push(one);
                i += 1;
            }
            r
        }
    }

    /// Purge the whole namespace; the annealing job and process start use
    /// this to drop every stale entry at once.
    pub fn clear_all(&mut self)
        ensures
            final(self).wf(),
            final(self).wf_posts(),
            final(self)@ =~= Map::<i32, PostEntry>::empty(),
    {
        self.map.clear();
    }
}

/// What a comment-list read of `pid` at `now` yields.
pub open spec fn spec_cached_comments(
    m: Map<i32, CommentsEntry>,
    pid: i32,
    now: i64,
) -> Option<Seq<Comment>> {
    if m.contains_key(pid) && spec_alive(m[pid].expires_at, now) {
        Option::Some(m[pid].comments@)
    } else {
        Option::None
    }
}

/// Cache of the full comment list of each post, invalidated whenever the
/// set of comments changes.
pub struct PostCommentCache {
    map: IntMap<CommentsEntry>,
}

impl View for PostCommentCache {
    type V = Map<i32, CommentsEntry>;

    closed spec fn view(&self) -> Map<i32, CommentsEntry> {
        self.map@
    }
}

impl PostCommentCache {
    pub closed spec fn wf(self) -> bool {
        self.map.wf()
    }

    pub fn init() -> (r: Self)
        ensures
            r.wf(),
            r@ =~= Map::<i32, CommentsEntry>::empty(),
    {
        PostCommentCache { map: IntMap::new() }
    }

    /// Cache the comment list of `pid` with a fresh TTL.
    pub fn set(&mut self, pid: i32, cs: &Vec<Comment>, now: i64)
        requires
            old(self).wf(),
            0 <= now <= i64::MAX - INSTANCE_EXPIRE_TIME,
        ensures
            final(self).wf(),
            final(self)@.contains_key(pid),
            final(self)@[pid].comments@ == cs@,
            final(self)@[pid].expires_at == now + INSTANCE_EXPIRE_TIME,
            forall|k: i32|
                k != pid ==> {
                    &&& final(self)@.contains_key(k) == old(self)@.contains_key(k)
                    &&& old(self)@.contains_key(k) ==> final(self)@[k] == old(self)@[k]
                },
    {
        let entry = CommentsEntry {
            comments: clone_comments(cs),
            expires_at: now + INSTANCE_EXPIRE_TIME,
        };
        self.map.insert(pid, entry);
    }

    /// Read the comment list of `pid`; a hit refreshes the TTL.
    pub fn get(&mut self, pid: i32, now: i64) -> (r: Option<Vec<Comment>>)
        requires
            old(self).wf(),
            0 <= now <= i64::MAX - INSTANCE_EXPIRE_TIME,
        ensures
            final(self).wf(),
            match r {
                Option::Some(cs) => spec_cached_comments(old(self)@, pid, now)
                    == Option::Some(cs@),
                Option::None => spec_cached_comments(old(self)@, pid, now)
                    is None,
            },
            forall|k: i32|
                k != pid ==> {
                    &&& final(self)@.contains_key(k) == old(self)@.contains_key(k)
                    &&& old(self)@.contains_key(k) ==> final(self)@[k] == old(self)@[k]
                },
            final(self)@.contains_key(pid) == old(self)@.contains_key(pid),
            old(self)@.contains_key(pid) ==> final(self)@[pid].comments@ == old(
                self,
            )@[pid].comments@,
    {
        let hit: Option<Vec<Comment>> = match self.map.get(pid) {
            Option::Some(e) => {
                if now < e.expires_at {
                    Option::Some(clone_comments(&e.comments))
                } else {
                    Option::None
                }
            }
            Option::None => Option::None,
        };
        match hit {
            Option::Some(cs) => {
                let entry = CommentsEntry {
                    comments: clone_comments(&cs),
                    expires_at: now + INSTANCE_EXPIRE_TIME,
                };
                self.map.insert(pid, entry);
                Option::Some(cs)
            }
            Option::None => Option::None,
        }
    }

    /// Drop the cached list of `pid`.
    pub fn clear(&mut self, pid: i32)
        requires
            old(self).wf(),
        ensures
            final(self).wf(),
            final(self)@ =~= old(self)@.remove(pid),
    {
        self.map.remove(pid);
    }
}

/// What a user-cache read of `token` at `now` yields.
pub open spec fn spec_cached_user(
    m: Map<Seq<char>, UserEntry>,
    token: Seq<char>,
    now: i64,
) -> Option<User> {
    if m.contains_key(token) && spec_alive(m[token].expires_at, now) {
        Option::Some(m[token].user)
    } else {
        Option::None
    }
}

/// Cache of user records keyed by login token.
pub struct UserCache {
    map: StrMap<UserEntry>,
}

impl View for UserCache {
    type V = Map<Seq<char>, UserEntry>;

    closed spec fn view(&self) -> Map<Seq<char>, UserEntry> {
        self.map@
    }
}

impl UserCache {
    pub closed spec fn wf(self) -> bool {
        self.map.wf()
    }

    pub fn init() -> (r: Self)
        ensures
            r.wf(),
            r@ =~= Map::<Seq<char>, UserEntry>::empty(),
    {
        UserCache { map: StrMap::new() }
    }

    /// Cache the user behind `token` with a fresh TTL.
    pub fn set(&mut self, token: &String, u: &User, now: i64)
        requires
            old(self).wf(),
            0 <= now <= i64::MAX - INSTANCE_EXPIRE_TIME,
        ensures
            final(self).wf(),
            final(self)@ =~= old(self)@.insert(
                token@,
                UserEntry { user: *u, expires_at: (now + INSTANCE_EXPIRE_TIME) as i64 },
            ),
    {
        let entry = UserEntry { user: u.clone(), expires_at: now + INSTANCE_EXPIRE_TIME };
        self.map.insert(token.clone(), entry);
    }

    /// Read the user behind `token`; a hit refreshes the TTL.
    pub fn get(&mut self, token: &String, now: i64) -> (r: Option<User>)
        requires
            old(self).wf(),
            0 <= now <= i64::MAX - INSTANCE_EXPIRE_TIME,
        ensures
            final(self).wf(),
            r == spec_cached_user(old(self)@, token@, now),
            match spec_cached_user(old(self)@, token@, now) {
                Option::Some(u) => final(self)@ =~= old(self)@.insert(
                    token@,
                    UserEntry { user: u, expires_at: (now + INSTANCE_EXPIRE_TIME) as i64 },
                ),
                Option::None => final(self)@ == old(self)@,
            },
    {
        let hit: Option<User> = match self.map.get(token) {
            Option::Some(e) => {
                if now < e.expires_at {
                    Option::Some(e.user.clone())
                } else {
                    Option::None
                }
            }
            Option::None => Option::None,
        };
        match hit {
            Option::Some(u) => {
                let entry = UserEntry { user: u.clone(), expires_at: now + INSTANCE_EXPIRE_TIME };
                self.map.insert(token.clone(), entry);
                Option::Some(u)
            }
            Option::None => Option::None,
        }
    }

    /// Purge the whole namespace.
    pub fn clear_all(&mut self)
        ensures
            final(self).wf(),
            final(self)@ =~= Map::<Seq<char>, UserEntry>::empty(),
    {
        self.map.clear();
    }
}

/// Round trip: a write-through of a batch ending with `p` followed by a
/// read of `p.id` within the expiry window yields `p` itself, the expiry
/// metadata aside.
pub proof fn lemma_set_get_round_trip(m: Map<i32, PostEntry>, p: Post, now: i64, now2: i64)
    requires
        0 <= now <= i64::MAX - INSTANCE_EXPIRE_TIME,
        now <= now2 < now + INSTANCE_EXPIRE_TIME,
    ensures
        spec_cached(spec_sets_map(m, seq![p], now), p.id, now2) == Option::Some(p),
{
    let s = seq![p];
    assert(s.len() == 1);
    assert(s[0] == p);
    assert(s.skip(1) =~= Seq::<Post>::empty());
    let m1 = m.insert(p.id, spec_entry(p, now));
    assert(spec_sets_map(m1, Seq::<Post>::empty(), now) == m1);
    assert(spec_sets_map(m, s, now) == spec_sets_map(m1, s.skip(1), now));
    assert(spec_sets_map(m, s, now) == m1);
    assert(m1.contains_key(p.id) && m1[p.id] == spec_entry(p, now));
}

} // verus!
