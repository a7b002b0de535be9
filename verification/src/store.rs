//! The authoritative store: full post and comment rows, serial ids,
//! atomic read-modify-write counter updates, ranked id queries and the
//! annealing decay batch.

use vstd::prelude::*;

use crate::policy::{decay_hot_score, spec_decay, HOT_SCORE_FLOOR};
use crate::post::{
    apply_op, lemma_apply_ops_same_id, lemma_apply_ops_wf, spec_apply_op, spec_apply_ops, Comment,
    NewComment, NewPost, Post, PostOp, User,
};
use crate::rng::random_string;
use crate::text_match::{
    contains_sub, parts_match, spec_contains_sub, spec_parts_match, spec_split_spaces,
    split_spaces,
};
use crate::ranked::{
    pair_lt, spec_contains_pair, spec_contains_pid, spec_distinct_pids, spec_page_pids,
    spec_sort_key, spec_sorted, spec_suppressed, PostListCache,
};

verus! {

/// A store failure a caller must abort on; the row a mutation addressed
/// does not exist.
#[derive(Clone, Copy, Debug, PartialEq, Eq, Structural)]
pub enum StoreError {
    NotFound,
}

/// Whether a post row shows up in a ranked page query: soft-deleted rows
/// never do; reported rows only in the newest-first mode 0; the
/// recently-active mode 1 needs at least one comment; a concrete room
/// scopes the query to that room.
pub open spec fn spec_page_eligible(mode: u8, room_id: Option<i32>, p: Post) -> bool {
    &&& !p.is_deleted
    &&& (mode == 0 || !p.is_reported)
    &&& (mode != 1 || p.n_comments > 0)
    &&& (room_id is None || p.room_id == room_id->0)
}

/// In-memory model of the relational store. Rows are kept in serial-id
/// order: the row with id `i` sits at index `i - 1`.
pub struct Store {
    pub posts: Vec<Post>,
    pub comments: Vec<Comment>,
    pub users: Vec<User>,
    pub next_user_id: i32,
}

impl Store {
    pub open spec fn wf(self) -> bool {
        &&& self.posts@.len() < i32::MAX as int
        &&& forall|i: int|
            0 <= i < self.posts@.len() ==> (#[trigger] self.posts@[i]).id == i + 1
                && self.posts@[i].wf()
        &&& self.comments@.len() < i32::MAX as int
        &&& forall|i: int|
            0 <= i < self.comments@.len() ==> (#[trigger] self.comments@[i]).id == i + 1
                && self.comments@[i].wf()
        &&& self.users@.len() < i32::MAX as int
        &&& self.next_user_id >= 1
        &&& forall|i: int|
            0 <= i < self.users@.len() ==> 1 <= (#[trigger] self.users@[i]).id
                < self.next_user_id
        &&& forall|i: int, j: int|
            0 <= i < j < self.users@.len() ==> self.users@[i].name@ != self.users@[j].name@
    }

    /// The row of post id `id`, if the store holds one.
    pub open spec fn spec_post(self, id: i32) -> Option<Post> {
        if 1 <= id <= self.posts@.len() {
            Option::Some(self.posts@[id - 1])
        } else {
            Option::None
        }
    }

    /// The row of comment id `id`, if the store holds one.
    pub open spec fn spec_comment(self, id: i32) -> Option<Comment> {
        if 1 <= id <= self.comments@.len() {
            Option::Some(self.comments@[id - 1])
        } else {
            Option::None
        }
    }

    pub fn init() -> (r: Self)
        ensures
            r.wf(),
            r.posts@ =~= Seq::<Post>::empty(),
            r.comments@ =~= Seq::<Comment>::empty(),
            r.users@ =~= Seq::<User>::empty(),
    {
        Store { posts: Vec::new(), comments: Vec::new(), users: Vec::new(), next_user_id: 1 }
    }

    /// Insert-and-return-row: the new post gets the next serial id, the
    /// caller's fields, both timestamps set to `now` and zeroed counters
    /// except the caller-chosen attention count.
    pub fn create_post(&mut self, np: NewPost, now: i64) -> (p: Post)
        requires
            old(self).wf(),
            old(self).posts@.len() + 1 < i32::MAX as int,
            np.n_attentions >= 0,
            now >= 0,
        ensures
            final(self).wf(),
            final(self).users@ == old(self).users@,
            final(self).next_user_id == old(self).next_user_id,
            final(self).comments@ == old(self).comments@,
            p.id as int == old(self).posts@.len() + 1,
            p == (Post {
                id: p.id,
                author_hash: np.author_hash,
                content: np.content,
                cw: np.cw,
                author_title: np.author_title,
                is_tmp: np.is_tmp,
                n_attentions: np.n_attentions,
                n_comments: 0,
                create_time: now,
                last_comment_time: now,
                is_deleted: false,
                is_reported: false,
                hot_score: 0,
                allow_search: np.allow_search,
                room_id: np.room_id,
                up_votes: 0,
                down_votes: 0,
            }),
            final(self).posts@ == old(self).posts@.push(p),
    {
        let id: i32 = (self.posts.len() + 1) as i32;
        let p = Post {
            id,
            author_hash: np.author_hash,
            content: np.content,
            cw: np.cw,
            author_title: np.author_title,
            is_tmp: np.is_tmp,
            n_attentions: np.n_attentions,
            n_comments: 0,
            create_time: now,
            last_comment_time: now,
            is_deleted: false,
            is_reported: false,
            hot_score: 0,
            allow_search: np.allow_search,
            room_id: np.room_id,
            up_votes: 0,
            down_votes: 0,
        };
        self.posts.push(p.clone());
        p
    }

    /// Point lookup by id.
    pub fn get_post(&self, id: i32) -> (r: Option<Post>)
        requires
            self.wf(),
        ensures
            r == self.spec_post(id),
    {
        if id >= 1 && (id as usize) <= self.posts.len() {
            Option::Some(self.posts[(id - 1) as usize].clone())
        } else {
            Option::None
        }
    }

    /// Multi-id lookup filtered by the deleted flag: for each requested
    /// id in order, the store's row if it exists and is not soft-deleted.
    pub fn load_multi(&self, ids: &Vec<i32>) -> (r: Vec<Post>)
        requires
            self.wf(),
        ensures
            r@ == spec_load_multi(*self, ids@),
    {
        let mut r: Vec<Post> = Vec::new();
        let n: usize = ids.len();
        let mut i: usize = 0;
        while i < n
            invariant
                i <= n,
                n == ids@.len(),
                self.wf(),
                r@ =~= spec_load_multi(*self, ids@.take(i as int)),
            decreases n - i,
        {
            let id: i32 = ids[i];
            if id >= 1 && (id as usize) <= self.posts.len() {
                let p: &Post = &self.posts[(id - 1) as usize];
                if !p.is_deleted {
                    r.push(p.clone());
                }
            }
            proof {
                assert(ids@.take(i + 1).drop_last() =~= ids@.take(i as int));
                assert(ids@.take(i + 1).last() == ids@[i as int]);
            }
            i += 1;
        }
        proof {
            assert(ids@.take(n as int) =~= ids@);
        }
        r
    }

    /// The atomic update-and-return-row primitive of the counter/mutation
    /// engine: applies the deltas to the addressed row in one step and
    /// returns the row as persisted, which the caller must treat as
    /// authoritative. Fails exactly on an id the store has no row for.
    pub fn update_post(&mut self, id: i32, ops: &Vec<PostOp>) -> (r: Result<Post, StoreError>)
        requires
            old(self).wf(),
            forall|i: int| 0 <= i < ops@.len() ==> (#[trigger] ops@[i]).wf(),
        ensures
            final(self).wf(),
            final(self).users@ == old(self).users@,
            final(self).next_user_id == old(self).next_user_id,
            final(self).comments@ == old(self).comments@,
            r is Ok <==> old(self).spec_post(id) is Some,
            match r {
                Result::Ok(p) => {
                    &&& p == spec_apply_ops(old(self).spec_post(id)->0, ops@)
                    &&& final(self).posts@ == old(self).posts@.update(id - 1, p)
                    &&& final(self).spec_post(id) == Option::Some(p)
                },
                Result::Err(e) => {
                    &&& e == StoreError::NotFound
                    &&& final(self).posts@ == old(self).posts@
                },
            },
    {
        if id >= 1 && (id as usize) <= self.posts.len() {
            let idx: usize = (id - 1) as usize;
            let mut p: Post = self.posts[idx].clone();
            let n: usize = ops.len();
            let mut i: usize = 0;
            while i < n
                invariant
                    i <= n,
                    n == ops@.len(),
                    forall|j: int| 0 <= j < ops@.len() ==> (#[trigger] ops@[j]).wf(),
                    p == spec_apply_ops(old(self).posts@[id - 1], ops@.take(i as int)),
                    *self == *old(self),
                    id >= 1,
                    id - 1 == idx as int,
                    idx < self.posts@.len(),
                decreases n - i,
            {
                apply_op(&mut p, &ops[i]);
                proof {
                    lemma_apply_ops_step(old(self).posts@[id - 1], ops@, i as int);
                }
                i += 1;
            }
            proof {
                assert(ops@.take(n as int) =~= ops@);
                lemma_apply_ops_wf(old(self).posts@[id - 1], ops@);
                lemma_apply_ops_same_id(old(self).posts@[id - 1], ops@);
            }
            let row: Post = p.clone();
            self.posts[idx] = p;
            proof {
                assert forall|j: int|
                    0 <= j < self.posts@.len() implies (#[trigger] self.posts@[j]).id == j + 1
                    && self.posts@[j].wf() by {
                    if j != idx as int {
                        assert(self.posts@[j] == old(self).posts@[j]);
                    }
                }
            }
            Result::Ok(row)
        } else {
            Result::Err(StoreError::NotFound)
        }
    }

    /// Insert-and-return-row for comments.
    pub fn create_comment(&mut self, nc: NewComment, now: i64) -> (c: Comment)
        requires
            old(self).wf(),
            old(self).comments@.len() + 1 < i32::MAX as int,
            nc.post_id >= 1,
            now >= 0,
        ensures
            final(self).wf(),
            final(self).users@ == old(self).users@,
            final(self).next_user_id == old(self).next_user_id,
            final(self).posts@ == old(self).posts@,
            c.id as int == old(self).comments@.len() + 1,
            c == (Comment {
                id: c.id,
                author_hash: nc.author_hash,
                author_title: nc.author_title,
                is_tmp: nc.is_tmp,
                content: nc.content,
                create_time: now,
                is_deleted: false,
                allow_search: true,
                post_id: nc.post_id,
            }),
            final(self).comments@ == old(self).comments@.push(c),
    {
        let id: i32 = (self.comments.len() + 1) as i32;
        let c = Comment {
            id,
            author_hash: nc.author_hash,
            author_title: nc.author_title,
            is_tmp: nc.is_tmp,
            content: nc.content,
            create_time: now,
            is_deleted: false,
            allow_search: true,
            post_id: nc.post_id,
        };
        self.comments.push(c.clone());
        c
    }

    /// Point lookup of a comment by id; comments are not cached singly.
    pub fn get_comment(&self, id: i32) -> (r: Option<Comment>)
        requires
            self.wf(),
        ensures
            r == self.spec_comment(id),
    {
        if id >= 1 && (id as usize) <= self.comments.len() {
            Option::Some(self.comments[(id - 1) as usize].clone())
        } else {
            Option::None
        }
    }

    /// Flip the deleted flag of a comment row; fails exactly on a
    /// missing id.
    pub fn set_comment_deleted(&mut self, id: i32) -> (r: Result<Comment, StoreError>)
        requires
            old(self).wf(),
        ensures
            final(self).wf(),
            final(self).users@ == old(self).users@,
            final(self).next_user_id == old(self).next_user_id,
            final(self).posts@ == old(self).posts@,
            r is Ok <==> old(self).spec_comment(id) is Some,
            match r {
                Result::Ok(c) => {
                    &&& c == (Comment { is_deleted: true, ..old(self).spec_comment(id)->0 })
                    &&& final(self).comments@ == old(self).comments@.update(id - 1, c)
                },
                Result::Err(e) => {
                    &&& e == StoreError::NotFound
                    &&& final(self).comments@ == old(self).comments@
                },
            },
    {
        if id >= 1 && (id as usize) <= self.comments.len() {
            let idx: usize = (id - 1) as usize;
            let mut c: Comment = self.comments[idx].clone();
            c.is_deleted = true;
            let row: Comment = c.clone();
            self.comments[idx] = c;
            proof {
                assert forall|j: int|
                    0 <= j < self.comments@.len() implies (#[trigger] self.comments@[j]).id == j + 1
                    && self.comments@[j].wf() by {
                    if j != idx as int {
                        assert(self.comments@[j] == old(self).comments@[j]);
                    }
                }
            }
            Result::Ok(row)
        } else {
            Result::Err(StoreError::NotFound)
        }
    }

    /// Every comment of a post, in ascending comment-id order.
    pub fn comments_of_post(&self, pid: i32) -> (r: Vec<Comment>)
        requires
            self.wf(),
        ensures
            r@ == spec_comments_of(self.comments@, pid),
    {
        let mut r: Vec<Comment> = Vec::new();
        let n: usize = self.comments.len();
        let mut i: usize = 0;
        while i < n
            invariant
                i <= n,
                n == self.comments@.len(),
                self.wf(),
                r@ =~= spec_comments_of(self.comments@.take(i as int), pid),
            decreases n - i,
        {
            if self.comments[i].post_id == pid {
                r.push(self.comments[i].clone());
            }
            proof {
                assert(self.comments@.take(i + 1).drop_last() =~= self.comments@.take(i as int));
                assert(self.comments@.take(i + 1).last() == self.comments@[i as int]);
            }
            i += 1;
        }
        proof {
            assert(self.comments@.take(n as int) =~= self.comments@);
        }
        r
    }

    /// Ranked page query against the full table: the ids of the posts a
    /// page of the given (room, mode) window shows, best rank first.
    /// Every id returned belongs to a row eligible for that page, and —
    /// the shuffle mode aside — the page descends by the mode's metric.
    pub fn get_ids_by_page(&self, room_id: Option<i32>, mode: u8, start: i64, limit: i64) -> (r:
        Vec<i32>)
        requires
            self.wf(),
            mode <= 4,
            0 <= start,
            0 <= limit,
        ensures
            r@.len() <= limit,
            forall|i: int|
                0 <= i < r@.len() ==> {
                    &&& self.spec_post(#[trigger] r@[i]) is Some
                    &&& spec_page_eligible(mode, room_id, self.spec_post(r@[i])->0)
                },
            mode != 3 ==> forall|a: int, b: int|
                0 <= a < b < r@.len() ==> spec_sort_key(mode, self.spec_post(#[trigger] r@[a])->0)
                    <= spec_sort_key(mode, self.spec_post(#[trigger] r@[b])->0),
            forall|a: int, b: int| 0 <= a < b < r@.len() ==> #[trigger] r@[a] != #[trigger] r@[b],
            exists|entries: Seq<(i64, i32)>|
                #![trigger spec_sorted(entries)]
                {
                    &&& spec_sorted(entries)
                    &&& spec_distinct_pids(entries)
                    &&& (forall|q: i32|
                        spec_contains_pid(entries, q as int) <==> (self.spec_post(q) is Some
                            && spec_page_eligible(mode, room_id, self.spec_post(q)->0)))
                    &&& (mode != 3 ==> forall|j: int|
                        0 <= j < entries.len() ==> (#[trigger] entries[j]).0 as int
                            == spec_sort_key(mode, self.spec_post(entries[j].1)->0))
                    &&& r@ == spec_page_pids(entries, start as int, limit as int)
                },
    {
        let mut list = PostListCache::init(room_id, mode);
        let n: usize = self.posts.len();
        let mut i: usize = 0;
        while i < n
            invariant
                i <= n,
                n == self.posts@.len(),
                self.wf(),
                list.wf(),
                list.mode == mode,
                forall|q: i32|
                    #[trigger] spec_contains_pid(list@, q as int) ==> {
                        &&& self.spec_post(q) is Some
                        &&& spec_page_eligible(mode, room_id, self.spec_post(q)->0)
                    },
                forall|j: int|
                    0 <= j < i && spec_page_eligible(mode, room_id, #[trigger] self.posts@[j])
                        ==> spec_contains_pid(list@, self.posts@[j].id as int),
                mode != 3 ==> forall|j: int|
                    0 <= j < list@.len() ==> (#[trigger] list@[j]).0 as int == spec_sort_key(
                        mode,
                        self.spec_post(list@[j].1)->0,
                    ),
            decreases n - i,
        {
            let p: &Post = &self.posts[i];
            let eligible: bool = !p.is_deleted && (mode == 0 || !p.is_reported) && (mode != 1
                || p.n_comments > 0) && (match room_id {
                Option::Some(ri) => p.room_id == ri,
                Option::None => true,
            });
            if eligible {
                let ghost pre = list@;
                list.put(p);
                proof {
                    assert(!spec_suppressed(mode, *p));
                    assert forall|q: i32| #[trigger] spec_contains_pid(list@, q as int) implies {
                        &&& self.spec_post(q) is Some
                        &&& spec_page_eligible(mode, room_id, self.spec_post(q)->0)
                    } by {
                        if q as int == p.id as int {
                            assert(self.spec_post(q) == Option::Some(*p));
                        } else {
                            let j = choose|j: int|
                                0 <= j < list@.len() && list@[j].1 == q as int;
                            assert(spec_contains_pair(list@, list@[j].0 as int, q as int));
                            assert(spec_contains_pair(pre, list@[j].0 as int, q as int));
                            assert(spec_contains_pid(pre, q as int));
                        }
                    }
                    assert forall|j: int|
                        0 <= j < i + 1 && spec_page_eligible(
                            mode,
                            room_id,
                            #[trigger] self.posts@[j],
                        ) implies spec_contains_pid(list@, self.posts@[j].id as int) by {
                        if j == i as int {
                            assert(spec_contains_pid(list@, p.id as int));
                        } else {
                            assert(self.posts@[j].id != p.id);
                            let l = choose|l: int|
                                0 <= l < pre.len() && pre[l].1 == self.posts@[j].id as int;
                            assert(spec_contains_pair(pre, pre[l].0 as int, pre[l].1 as int));
                            assert(spec_contains_pair(list@, pre[l].0 as int, pre[l].1 as int));
                        }
                    }
                    if mode != 3 {
                        assert forall|j: int|
                            0 <= j < list@.len() implies (#[trigger] list@[j]).0 as int
                            == spec_sort_key(mode, self.spec_post(list@[j].1)->0) by {
                            let e = list@[j];
                            if e.1 == p.id {
                                assert(spec_contains_pair(
                                    list@,
                                    spec_sort_key(mode, *p),
                                    p.id as int,
                                ));
                                let j2 = choose|j2: int|
                                    0 <= j2 < list@.len() && list@[j2].0 as int == spec_sort_key(
                                        mode,
                                        *p,
                                    ) && list@[j2].1 == p.id as int;
                                assert(j2 == j);
                                assert(self.spec_post(e.1) == Option::Some(*p));
                            } else {
                                assert(spec_contains_pair(list@, e.0 as int, e.1 as int));
                                assert(spec_contains_pair(pre, e.0 as int, e.1 as int));
                                let j2 = choose|j2: int|
                                    0 <= j2 < pre.len() && pre[j2].0 == e.0 && pre[j2].1 == e.1;
                                assert(pre[j2].0 as int == spec_sort_key(
                                    mode,
                                    self.spec_post(pre[j2].1)->0,
                                ));
                            }
                        }
                    }
                }
            }
            i += 1;
        }
        let r: Vec<i32> = list.get_pids(start, limit);
        proof {
            if mode != 3 {
                assert forall|a: int, b: int|
                    0 <= a < b < r@.len() implies spec_sort_key(
                    mode,
                    self.spec_post(#[trigger] r@[a])->0,
                ) <= spec_sort_key(mode, self.spec_post(#[trigger] r@[b])->0) by {
                    assert(r@[a] == list@[start + a].1);
                    assert(r@[b] == list@[start + b].1);
                    assert(pair_lt(list@[start + a], list@[start + b]));
                }
            }
            assert forall|a: int, b: int|
                0 <= a < b < r@.len() implies #[trigger] r@[a] != #[trigger] r@[b] by {
                assert(r@[a] == list@[start + a].1);
                assert(r@[b] == list@[start + b].1);
            }
            let entries = list@;
            assert forall|q: i32|
                spec_contains_pid(entries, q as int) <==> (self.spec_post(q) is Some
                    && spec_page_eligible(mode, room_id, self.spec_post(q)->0)) by {
                if self.spec_post(q) is Some && spec_page_eligible(
                    mode,
                    room_id,
                    self.spec_post(q)->0,
                ) {
                    assert(self.posts@[q - 1] == self.spec_post(q)->0);
                    assert(spec_page_eligible(mode, room_id, self.posts@[q - 1]));
                    assert(spec_contains_pid(entries, self.posts@[q - 1].id as int));
                }
            }
            assert(r@ =~= spec_page_pids(entries, start as int, limit as int));
            assert(spec_sorted(entries));
            assert(spec_distinct_pids(entries));
        }
        r
    }

    /// One annealing pass directly against the store: every hot score
    /// above the floor is decayed multiplicatively; rows at or below the
    /// floor, and every other field, are untouched.
    pub fn annealing(&mut self)
        requires
            old(self).wf(),
        ensures
            final(self).wf(),
            final(self).users@ == old(self).users@,
            final(self).next_user_id == old(self).next_user_id,
            final(self).comments@ == old(self).comments@,
            final(self).posts@.len() == old(self).posts@.len(),
            forall|i: int|
                0 <= i < old(self).posts@.len() ==> final(self).posts@[i] == (Post {
                    hot_score: spec_decay(old(self).posts@[i].hot_score as int) as i32,
                    ..old(self).posts@[i]
                }),
    {
        let n: usize = self.posts.len();
        let mut i: usize = 0;
        while i < n
            invariant
                i <= n,
                n == self.posts@.len(),
                old(self).wf(),
                self.comments@ == old(self).comments@,
                self.users == old(self).users,
                self.next_user_id == old(self).next_user_id,
                self.posts@.len() == old(self).posts@.len(),
                forall|j: int|
                    i <= j < n ==> self.posts@[j] == old(self).posts@[j],
                forall|j: int|
                    0 <= j < i ==> self.posts@[j] == (Post {
                        hot_score: spec_decay(old(self).posts@[j].hot_score as int) as i32,
                        ..old(self).posts@[j]
                    }),
            decreases n - i,
        {
            if self.posts[i].hot_score > HOT_SCORE_FLOOR {
                let h: i32 = self.posts[i].hot_score;
                let ghost prev = self.posts@;
                let decayed: i32 = decay_hot_score(h);
                let elem: &mut Post = &mut self.posts[i];
                elem.hot_score = decayed;
                proof {
                    assert(self.posts@ =~= prev.update(
                        i as int,
                        Post {
                            hot_score: spec_decay(old(self).posts@[i as int].hot_score as int)
                                as i32,
                            ..old(self).posts@[i as int]
                        },
                    ));
                }
            }
            i += 1;
        }
        proof {
            assert forall|j: int|
                0 <= j < self.posts@.len() implies (#[trigger] self.posts@[j]).id == j + 1
                && self.posts@[j].wf() by {
                assert(old(self).posts@[j].wf());
                crate::policy::lemma_decay_step(old(self).posts@[j].hot_score as int);
            }
        }
    }
}


/// Whether a post row answers a text search: live, unreported, in the
/// requested room, and matching the mode's pattern. The tag mode looks
/// for the exact label or the tagged keyword in the body or a live
/// comment; the keyword mode requires the post to opt into search and
/// matches the space-separated keywords in order; the title mode matches
/// the author title of the post or of any of its comments exactly.
pub open spec fn spec_search_matches(
    st: Store,
    search_mode: u8,
    room_id: Option<i32>,
    text: Seq<char>,
    p: Post,
) -> bool {
    &&& !p.is_deleted
    &&& !p.is_reported
    &&& (room_id is None || p.room_id == room_id->0)
    &&& (if search_mode == 0 {
        ||| p.cw@ == text
        ||| p.cw@ == "#"@ + text
        ||| spec_contains_sub(p.content@, "#"@ + text)
        ||| exists|j: int|
            0 <= j < st.comments@.len() && (#[trigger] st.comments@[j]).post_id == p.id
                && !st.comments@[j].is_deleted && spec_contains_sub(
                st.comments@[j].content@,
                "#"@ + text,
            )
    } else if search_mode == 1 {
        &&& p.allow_search
        &&& (spec_parts_match(p.content@, spec_split_spaces(text)) || exists|j: int|
            0 <= j < st.comments@.len() && (#[trigger] st.comments@[j]).post_id == p.id
                && !st.comments@[j].is_deleted && spec_parts_match(
                st.comments@[j].content@,
                spec_split_spaces(text),
            ))
    } else {
        ||| p.author_title@ == text
        ||| exists|j: int|
            0 <= j < st.comments@.len() && (#[trigger] st.comments@[j]).post_id == p.id
                && st.comments@[j].author_title@ == text
    })
}

impl Store {
    /// Whether some live comment of `pid` contains `needle`.
    fn any_comment_contains(&self, pid: i32, needle: &String) -> (r: bool)
        ensures
            r == exists|j: int|
                0 <= j < self.comments@.len() && (#[trigger] self.comments@[j]).post_id == pid
                    && !self.comments@[j].is_deleted && spec_contains_sub(
                    self.comments@[j].content@,
                    needle@,
                ),
    {
        let n: usize = self.comments.len();
        let mut j: usize = 0;
        while j < n
            invariant
                j <= n,
                n == self.comments@.len(),
                forall|l: int|
                    0 <= l < j ==> !((#[trigger] self.comments@[l]).post_id == pid
                        && !self.comments@[l].is_deleted && spec_contains_sub(
                        self.comments@[l].content@,
                        needle@,
                    )),
            decreases n - j,
        {
            let c: &Comment = &self.comments[j];
            if c.post_id == pid && !c.is_deleted && contains_sub(c.content.as_str(), needle.as_str())
            {
                return true;
            }
            j += 1;
        }
        false
    }

    /// Whether some live comment of `pid` matches the keywords in order.
    fn any_comment_parts(&self, pid: i32, parts: &Vec<String>) -> (r: bool)
        ensures
            r == exists|j: int|
                0 <= j < self.comments@.len() && (#[trigger] self.comments@[j]).post_id == pid
                    && !self.comments@[j].is_deleted && spec_parts_match(
                    self.comments@[j].content@,
                    parts.deep_view(),
                ),
    {
        let n: usize = self.comments.len();
        let mut j: usize = 0;
        while j < n
            invariant
                j <= n,
                n == self.comments@.len(),
                forall|l: int|
                    0 <= l < j ==> !((#[trigger] self.comments@[l]).post_id == pid
                        && !self.comments@[l].is_deleted && spec_parts_match(
                        self.comments@[l].content@,
                        parts.deep_view(),
                    )),
            decreases n - j,
        {
            let c: &Comment = &self.comments[j];
            if c.post_id == pid && !c.is_deleted && parts_match(c.content.as_str(), parts) {
                return true;
            }
            j += 1;
        }
        false
    }

    /// Whether some comment of `pid` carries the author title.
    fn any_comment_title(&self, pid: i32, text: &String) -> (r: bool)
        ensures
            r == exists|j: int|
                0 <= j < self.comments@.len() && (#[trigger] self.comments@[j]).post_id == pid
                    && self.comments@[j].author_title@ == text@,
    {
        let n: usize = self.comments.len();
        let mut j: usize = 0;
        while j < n
            invariant
                j <= n,
                n == self.comments@.len(),
                forall|l: int|
                    0 <= l < j ==> !((#[trigger] self.comments@[l]).post_id == pid
                        && self.comments@[l].author_title@ == text@),
            decreases n - j,
        {
            let c: &Comment = &self.comments[j];
            if c.post_id == pid && c.author_title == *text {
                return true;
            }
            j += 1;
        }
        false
    }

    /// The text-pattern search primitive: the ids of the posts matching
    /// the mode's pattern, newest first, one page's worth.
    pub fn search_ids(
        &self,
        room_id: Option<i32>,
        search_mode: u8,
        search_text: &String,
        start: i64,
        limit: i64,
    ) -> (r: Vec<i32>)
        requires
            self.wf(),
            search_mode <= 2,
            0 <= start,
            0 <= limit,
        ensures
            r@.len() <= limit,
            forall|i: int|
                0 <= i < r@.len() ==> {
                    &&& self.spec_post(#[trigger] r@[i]) is Some
                    &&& spec_search_matches(
                        *self,
                        search_mode,
                        room_id,
                        search_text@,
                        self.spec_post(r@[i])->0,
                    )
                },
            forall|a: int, b: int| 0 <= a < b < r@.len() ==> #[trigger] r@[a] > #[trigger] r@[b],
            exists|entries: Seq<(i64, i32)>|
                #![trigger spec_sorted(entries)]
                {
                    &&& spec_sorted(entries)
                    &&& spec_distinct_pids(entries)
                    &&& (forall|q: i32|
                        spec_contains_pid(entries, q as int) <==> (self.spec_post(q) is Some
                            && spec_search_matches(
                            *self,
                            search_mode,
                            room_id,
                            search_text@,
                            self.spec_post(q)->0,
                        )))
                    &&& (forall|j: int|
                        0 <= j < entries.len() ==> (#[trigger] entries[j]).0 as int == -(
                        entries[j].1 as int))
                    &&& r@ == spec_page_pids(entries, start as int, limit as int)
                },
    {
        let mut needle: String = String::from_str("#");
        needle.append(search_text.as_str());
        let parts: Vec<String> = split_spaces(search_text.as_str());
        let mut list = PostListCache::init(room_id, 0);
        let n: usize = self.posts.len();
        let mut i: usize = 0;
        while i < n
            invariant
                i <= n,
                n == self.posts@.len(),
                self.wf(),
                list.wf(),
                list.mode == 0,
                needle@ == "#"@ + search_text@,
                parts.deep_view() == spec_split_spaces(search_text@),
                forall|j: int|
                    0 <= j < list@.len() ==> (#[trigger] list@[j]).0 as int == -(
                    list@[j].1 as int),
                forall|j: int|
                    0 <= j < i && spec_search_matches(
                        *self,
                        search_mode,
                        room_id,
                        search_text@,
                        #[trigger] self.posts@[j],
                    ) ==> spec_contains_pid(list@, self.posts@[j].id as int),
                forall|q: i32|
                    #[trigger] spec_contains_pid(list@, q as int) ==> {
                        &&& self.spec_post(q) is Some
                        &&& spec_search_matches(
                            *self,
                            search_mode,
                            room_id,
                            search_text@,
                            self.spec_post(q)->0,
                        )
                    },
            decreases n - i,
        {
            let p: &Post = &self.posts[i];
            let room_ok: bool = match room_id {
                Option::Some(ri) => p.room_id == ri,
                Option::None => true,
            };
            let text_ok: bool = if search_mode == 0 {
                p.cw == *search_text || p.cw == needle || contains_sub(
                    p.content.as_str(),
                    needle.as_str(),
                ) || self.any_comment_contains(p.id, &needle)
            } else if search_mode == 1 {
                p.allow_search && (parts_match(p.content.as_str(), &parts)
                    || self.any_comment_parts(p.id, &parts))
            } else {
                p.author_title == *search_text || self.any_comment_title(p.id, search_text)
            };
            if !p.is_deleted && !p.is_reported && room_ok && text_ok {
                let ghost pre = list@;
                list.put(p);
                proof {
                    assert(!spec_suppressed(0, *p));
                    assert forall|q: i32| #[trigger] spec_contains_pid(list@, q as int) implies {
                        &&& self.spec_post(q) is Some
                        &&& spec_search_matches(
                            *self,
                            search_mode,
                            room_id,
                            search_text@,
                            self.spec_post(q)->0,
                        )
                    } by {
                        if q as int == p.id as int {
                            assert(self.spec_post(q) == Option::Some(*p));
                        } else {
                            let j = choose|j: int| 0 <= j < list@.len() && list@[j].1 == q as int;
                            assert(spec_contains_pair(list@, list@[j].0 as int, q as int));
                            assert(spec_contains_pair(pre, list@[j].0 as int, q as int));
                            assert(spec_contains_pid(pre, q as int));
                        }
                    }
                    assert forall|j: int|
                        0 <= j < i + 1 && spec_search_matches(
                            *self,
                            search_mode,
                            room_id,
                            search_text@,
                            #[trigger] self.posts@[j],
                        ) implies spec_contains_pid(list@, self.posts@[j].id as int) by {
                        if j == i as int {
                            assert(spec_contains_pid(list@, p.id as int));
                        } else {
                            assert(self.posts@[j].id != p.id);
                            let l = choose|l: int|
                                0 <= l < pre.len() && pre[l].1 == self.posts@[j].id as int;
                            assert(spec_contains_pair(pre, pre[l].0 as int, pre[l].1 as int));
                            assert(spec_contains_pair(list@, pre[l].0 as int, pre[l].1 as int));
                        }
                    }
                    assert forall|j: int|
                        0 <= j < list@.len() implies (#[trigger] list@[j]).0 as int == -(
                        list@[j].1 as int) by {
                        let e = list@[j];
                        if e.1 == p.id {
                            assert(spec_contains_pair(list@, spec_sort_key(0, *p), p.id as int));
                            let j2 = choose|j2: int|
                                0 <= j2 < list@.len() && list@[j2].0 as int == spec_sort_key(0, *p)
                                    && list@[j2].1 == p.id as int;
                            assert(j2 == j);
                        } else {
                            assert(spec_contains_pair(list@, e.0 as int, e.1 as int));
                            assert(spec_contains_pair(pre, e.0 as int, e.1 as int));
                            let j2 = choose|j2: int|
                                0 <= j2 < pre.len() && pre[j2].0 == e.0 && pre[j2].1 == e.1;
                            assert(pre[j2].0 as int == -(pre[j2].1 as int));
                        }
                    }
                }
            }
            i += 1;
        }
        let r: Vec<i32> = list.get_pids(start, limit);
        proof {
            assert forall|a: int, b: int|
                0 <= a < b < r@.len() implies #[trigger] r@[a] > #[trigger] r@[b] by {
                assert(r@[a] == list@[start + a].1);
                assert(r@[b] == list@[start + b].1);
                assert(pair_lt(list@[start + a], list@[start + b]));
            }
            let entries = list@;
            assert forall|q: i32|
                spec_contains_pid(entries, q as int) <==> (self.spec_post(q) is Some
                    && spec_search_matches(
                    *self,
                    search_mode,
                    room_id,
                    search_text@,
                    self.spec_post(q)->0,
                )) by {
                if self.spec_post(q) is Some && spec_search_matches(
                    *self,
                    search_mode,
                    room_id,
                    search_text@,
                    self.spec_post(q)->0,
                ) {
                    assert(self.posts@[q - 1] == self.spec_post(q)->0);
                    assert(spec_contains_pid(entries, self.posts@[q - 1].id as int));
                }
            }
            assert(r@ =~= spec_page_pids(entries, start as int, limit as int));
            assert(spec_sorted(entries));
            assert(spec_distinct_pids(entries));
        }
        r
    }
}

/// The rows a multi-id, deleted-filtered lookup returns, in request
/// order.
pub open spec fn spec_load_multi(st: Store, ids: Seq<i32>) -> Seq<Post>
    decreases ids.len(),
{
    if ids.len() == 0 {
        Seq::empty()
    } else {
        spec_load_multi(st, ids.drop_last()) + (match st.spec_post(ids.last()) {
            Option::Some(p) => if !p.is_deleted {
                seq![p]
            } else {
                Seq::empty()
            },
            Option::None => Seq::empty(),
        })
    }
}

/// The comments whose owning post is `pid`, in table order.
pub open spec fn spec_comments_of(s: Seq<Comment>, pid: i32) -> Seq<Comment>
    decreases s.len(),
{
    if s.len() == 0 {
        Seq::empty()
    } else {
        spec_comments_of(s.drop_last(), pid) + (if s.last().post_id == pid {
            seq![s.last()]
        } else {
            Seq::empty()
        })
    }
}


/// The first user row carrying the token, scanning from the front.
pub open spec fn spec_user_by_token(s: Seq<User>, token: Seq<char>) -> Option<User>
    decreases s.len(),
{
    if s.len() == 0 {
        Option::None
    } else if s[0].token@ == token {
        Option::Some(s[0])
    } else {
        spec_user_by_token(s.skip(1), token)
    }
}

/// The user row carrying the name; names are unique.
pub open spec fn spec_user_by_name(s: Seq<User>, name: Seq<char>) -> Option<User>
    decreases s.len(),
{
    if s.len() == 0 {
        Option::None
    } else if s[0].name@ == name {
        Option::Some(s[0])
    } else {
        spec_user_by_name(s.skip(1), name)
    }
}

/// The administrator rows alone, in order.
pub open spec fn spec_admins_of(s: Seq<User>) -> Seq<User>
    decreases s.len(),
{
    if s.len() == 0 {
        Seq::empty()
    } else {
        spec_admins_of(s.drop_last()) + (if s.last().is_admin {
            seq![s.last()]
        } else {
            Seq::empty()
        })
    }
}

impl Store {
    /// Point lookup of a user by login token.
    pub fn get_user_by_token(&self, token: &String) -> (r: Option<User>)
        requires
            self.wf(),
        ensures
            r == spec_user_by_token(self.users@, token@),
    {
        proof {
            assert(self.users@.skip(0) =~= self.users@);
        }
        let n: usize = self.users.len();
        let mut i: usize = 0;
        while i < n
            invariant
                i <= n,
                n == self.users@.len(),
                self.wf(),
                spec_user_by_token(self.users@, token@) == spec_user_by_token(
                    self.users@.skip(i as int),
                    token@,
                ),
                forall|j: int| 0 <= j < i ==> (#[trigger] self.users@[j]).token@ != token@,
            decreases n - i,
        {
            proof {
                assert(self.users@.skip(i as int)[0] == self.users@[i as int]);
                assert(self.users@.skip(i as int).skip(1) =~= self.users@.skip(i + 1));
            }
            if self.users[i].token == *token {
                return Option::Some(self.users[i].clone());
            }
            i += 1;
        }
        proof {
            assert(self.users@.skip(n as int) =~= Seq::<User>::empty());
        }
        Option::None
    }

    /// Look a user up by name and hand out its token; absent that — or
    /// on a forced refresh — a fresh random sixteen-character token is
    /// stored for the name, creating the row if the name is new.
    pub fn find_or_create_token(&mut self, name: &String, force_refresh: bool) -> (r: String)
        requires
            old(self).wf(),
            old(self).next_user_id < i32::MAX,
            old(self).users@.len() + 1 < i32::MAX as int,
        ensures
            final(self).wf(),
            final(self).posts@ == old(self).posts@,
            final(self).comments@ == old(self).comments@,
            spec_user_by_name(final(self).users@, name@) is Some,
            spec_user_by_name(final(self).users@, name@)->0.token@ == r@,
            !force_refresh && spec_user_by_name(old(self).users@, name@) is Some ==> {
                &&& final(self).users@ == old(self).users@
                &&& r@ == spec_user_by_name(old(self).users@, name@)->0.token@
            },
            r@.len() == 16 || (!force_refresh && spec_user_by_name(old(self).users@, name@)
                is Some),
    {
        proof {
            assert(self.users@.skip(0) =~= self.users@);
        }
        let n: usize = self.users.len();
        let mut i: usize = 0;
        while i < n
            invariant
                i <= n,
                n == self.users@.len(),
                old(self).wf(),
                *self == *old(self),
                spec_user_by_name(self.users@, name@) == spec_user_by_name(
                    self.users@.skip(i as int),
                    name@,
                ),
                forall|j: int| 0 <= j < i ==> (#[trigger] self.users@[j]).name@ != name@,
            decreases n - i,
        {
            proof {
                assert(self.users@.skip(i as int)[0] == self.users@[i as int]);
                assert(self.users@.skip(i as int).skip(1) =~= self.users@.skip(i + 1));
            }
            if self.users[i].name == *name {
                if !force_refresh {
                    return self.users[i].token.clone();
                }
                let token: String = random_string(16);
                let ghost pre = self.users@;
                let u: &mut User = &mut self.users[i];
                u.token = token.clone();
                proof {
                    assert(self.users@ =~= pre.update(
                        i as int,
                        User { token: token, ..pre[i as int] },
                    ));
                    assert forall|a: int, b: int|
                        0 <= a < b < self.users@.len() implies self.users@[a].name@
                        != self.users@[b].name@ by {
                        assert(self.users@[a].name@ == pre[a].name@);
                        assert(self.users@[b].name@ == pre[b].name@);
                    }
                    lemma_user_by_name_found(self.users@, name@, i as int);
                }
                return token;
            }
            i += 1;
        }
        proof {
            assert(self.users@.skip(n as int) =~= Seq::<User>::empty());
        }
        let token: String = random_string(16);
        let u = User {
            id: self.next_user_id,
            name: name.clone(),
            token: token.clone(),
            is_admin: false,
        };
        self.users.push(u);
        self.next_user_id = self.next_user_id + 1;
        proof {
            assert forall|a: int, b: int|
                0 <= a < b < self.users@.len() implies self.users@[a].name@
                != self.users@[b].name@ by {
                if b < self.users@.len() - 1 {
                    assert(self.users@[a] == old(self).users@[a]);
                    assert(self.users@[b] == old(self).users@[b]);
                } else {
                    assert(self.users@[a] == old(self).users@[a]);
                }
            }
            lemma_user_by_name_found(self.users@, name@, self.users@.len() - 1);
        }
        token
    }

    /// Delete every non-administrator account, keeping administrators.
    pub fn clear_non_admin_users(&mut self)
        requires
            old(self).wf(),
        ensures
            final(self).wf(),
            final(self).posts@ == old(self).posts@,
            final(self).comments@ == old(self).comments@,
            final(self).users@ == spec_admins_of(old(self).users@),
    {
        let mut kept: Vec<User> = Vec::new();
        let n: usize = self.users.len();
        let mut i: usize = 0;
        while i < n
            invariant
                i <= n,
                n == self.users@.len(),
                old(self).wf(),
                *self == *old(self),
                kept@.len() <= i,
                kept@ =~= spec_admins_of(self.users@.take(i as int)),
                forall|a: int|
                    0 <= a < kept@.len() ==> exists|j: int|
                        0 <= j < i && self.users@[j] == #[trigger] kept@[a],
            decreases n - i,
        {
            if self.users[i].is_admin {
                let ghost pre = kept@;
                kept.push(self.users[i].clone());
                proof {
                    assert forall|a: int|
                        0 <= a < kept@.len() implies exists|j: int|
                        0 <= j < i + 1 && self.users@[j] == #[trigger] kept@[a] by {
                        if a < pre.len() {
                            assert(kept@[a] == pre[a]);
                            let j = choose|j: int| 0 <= j < i && self.users@[j] == pre[a];
                            assert(self.users@[j] == kept@[a]);
                        } else {
                            assert(kept@[a] == self.users@[i as int]);
                        }
                    }
                }
            }
            proof {
                assert(self.users@.take(i + 1).drop_last() =~= self.users@.take(i as int));
                assert(self.users@.take(i + 1).last() == self.users@[i as int]);
            }
            i += 1;
        }
        proof {
            assert(self.users@.take(n as int) =~= self.users@);
            assert forall|a: int, b: int|
                0 <= a < b < kept@.len() implies kept@[a].name@ != kept@[b].name@ by {
                let ja = choose|j: int| 0 <= j < n && self.users@[j] == kept@[a];
                let jb = choose|j: int| 0 <= j < n && self.users@[j] == kept@[b];
                if ja < jb {
                    assert(self.users@[ja].name@ != self.users@[jb].name@);
                } else if jb < ja {
                    assert(self.users@[jb].name@ != self.users@[ja].name@);
                } else {
                    assert(kept@ =~= spec_admins_of(self.users@));
                    lemma_admins_distinct(self.users@, a, b);
                }
            }
            assert forall|a: int|
                0 <= a < kept@.len() implies 1 <= (#[trigger] kept@[a]).id
                < self.next_user_id by {
                let ja = choose|j: int| 0 <= j < n && self.users@[j] == kept@[a];
                assert(1 <= self.users@[ja].id < self.next_user_id);
            }
        }
        self.users = kept;
    }

    /// How many accounts the store holds.
    pub fn get_count(&self) -> (r: i64)
        requires
            self.wf(),
        ensures
            r == self.users@.len(),
    {
        self.users.len() as i64
    }
}

/// A scan that found the name at a slot reads that slot's row.
proof fn lemma_user_by_name_found(s: Seq<User>, name: Seq<char>, i: int)
    requires
        0 <= i < s.len(),
        s[i].name@ == name,
        forall|j: int| 0 <= j < i ==> (#[trigger] s[j]).name@ != name,
    ensures
        spec_user_by_name(s, name) == Option::Some(s[i]),
    decreases i,
{
    if i == 0 {
    } else {
        assert(s.skip(1)[i - 1] == s[i]);
        assert forall|j: int| 0 <= j < i - 1 implies (#[trigger] s.skip(1)[j]).name@ != name by {
            assert(s.skip(1)[j] == s[j + 1]);
        }
        lemma_user_by_name_found(s.skip(1), name, i - 1);
    }
}

/// Two distinct slots of the admin filter read distinctly-named rows.
proof fn lemma_admins_distinct(s: Seq<User>, a: int, b: int)
    requires
        forall|i: int, j: int| 0 <= i < j < s.len() ==> s[i].name@ != s[j].name@,
        0 <= a < b < spec_admins_of(s).len(),
    ensures
        spec_admins_of(s)[a].name@ != spec_admins_of(s)[b].name@,
    decreases s.len(),
{
    if s.len() > 0 {
        let pre = spec_admins_of(s.drop_last());
        assert(forall|i: int, j: int|
            0 <= i < j < s.drop_last().len() ==> s.drop_last()[i].name@ != s.drop_last()[j].name@);
        if b < pre.len() {
            lemma_admins_distinct(s.drop_last(), a, b);
            assert(spec_admins_of(s)[a] == pre[a]);
            assert(spec_admins_of(s)[b] == pre[b]);
        } else {
            assert(spec_admins_of(s)[b] == s.last());
            assert(spec_admins_of(s)[a] == pre[a]);
            lemma_admins_member(s.drop_last(), a);
            let k = choose|k: int| 0 <= k < s.drop_last().len() && s.drop_last()[k] == pre[a];
            assert(s[k] == pre[a]);
            assert(s[k].name@ != s[s.len() - 1].name@);
        }
    }
}

/// Every slot of the admin filter reads some row of the original.
proof fn lemma_admins_member(s: Seq<User>, j: int)
    requires
        0 <= j < spec_admins_of(s).len(),
    ensures
        exists|k: int| 0 <= k < s.len() && s[k] == spec_admins_of(s)[j],
    decreases s.len(),
{
    if s.len() > 0 {
        let pre = spec_admins_of(s.drop_last());
        if j < pre.len() {
            lemma_admins_member(s.drop_last(), j);
            let k = choose|k: int| 0 <= k < s.drop_last().len() && s.drop_last()[k] == pre[j];
            assert(s[k] == spec_admins_of(s)[j]);
        } else {
            assert(s[s.len() - 1] == spec_admins_of(s)[j]);
        }
    }
}

/// Splitting a delta sequence one step at a time agrees with applying it
/// whole.
pub proof fn lemma_apply_ops_step(p: Post, ops: Seq<PostOp>, i: int)
    requires
        0 <= i < ops.len(),
    ensures
        spec_apply_op(spec_apply_ops(p, ops.take(i)), ops[i]) == spec_apply_ops(
            p,
            ops.take(i + 1),
        ),
    decreases i,
{
    if i == 0 {
        assert(ops.take(0) =~= Seq::<PostOp>::empty());
        assert(ops.take(1)[0] == ops[0]);
        assert(ops.take(1).skip(1) =~= Seq::<PostOp>::empty());
        assert(spec_apply_ops(p, ops.take(0)) == p);
        assert(spec_apply_ops(p, ops.take(1)) == spec_apply_ops(
            spec_apply_op(p, ops[0]),
            ops.take(1).skip(1),
        ));
        assert(spec_apply_ops(spec_apply_op(p, ops[0]), Seq::<PostOp>::empty()) == spec_apply_op(
            p,
            ops[0],
        ));
    } else {
        let p1 = spec_apply_op(p, ops[0]);
        let t = ops.skip(1);
        lemma_apply_ops_step(p1, t, i - 1);
        assert(t.take(i - 1) =~= ops.take(i).skip(1));
        assert(t.take(i) =~= ops.take(i + 1).skip(1));
        assert(ops.take(i)[0] == ops[0]);
        assert(ops.take(i + 1)[0] == ops[0]);
        assert(t[i - 1] == ops[i]);
        assert(spec_apply_ops(p, ops.take(i)) == spec_apply_ops(p1, t.take(i - 1)));
        assert(spec_apply_ops(p, ops.take(i + 1)) == spec_apply_ops(p1, t.take(i)));
    }
}

} // verus!
