//! The assembled core: the store, the keyed object caches, the ranked
//! list registry and the durable block data, with the read and mutation
//! flows the request handlers call.

use vstd::prelude::*;

use crate::api::{
    spec_check_permission, AttentionInput, BlockInput, CommentInput, CurrentUser, CwInput,
    DeleteInput, PermissionCheck, PolicyError, PostInput, ReactionInput, ReportInput,
};
use crate::attention::{spec_attends, Attention};
use crate::reaction::{spec_reacts, Reaction};
use crate::block::{
    spec_all_cached, spec_completed_dict, AutoBlockRank, BannedUsers, BlockCounter, BlockDictCache,
    BlockedUsers,
};
use crate::intmap::IntMap;
use crate::strmap::StrMap;
use crate::object_cache::{
    spec_cached, spec_entry, spec_sets_map, PostCache, PostCommentCache, PostEntry, UserCache,
};
use crate::object_cache::{spec_cached_comments, spec_cached_user};
use crate::policy::{
    attention_deltas, comment_deltas, spec_attention_hot_delta, spec_comment_attention_delta,
    spec_comment_hot_delta,
};
use crate::post::{Comment, CounterField, NewComment, NewPost, Post, PostOp, User};
use crate::random_hasher::{normalize_token, spec_normalize_token};
use crate::store::{spec_admins_of, spec_user_by_token};
use crate::store::spec_comments_of;
use crate::systemlog::{LogType, Systemlog, SystemlogStore};
use crate::decimal::{i32_to_string, spec_dec_i32};
use crate::ranked::{
    spec_contains_pid, spec_distinct_pids, spec_page_pids, spec_sort_key, spec_sorted,
    spec_suppressed, PostListCache,
};
use crate::store::{Store, StoreError};
use crate::INSTANCE_EXPIRE_TIME;

verus! {

/// A failure of a flow: a store error the caller must abort on, or a
/// policy refusal.
#[derive(Clone, Copy, Debug, PartialEq, Eq, Structural)]
pub enum ApiError {
    Db(StoreError),
    Pc(PolicyError),
}

/// Whether a ranked list carries the given (room, mode) key.
pub open spec fn spec_key_matches(l: PostListCache, room_id: Option<i32>, mode: u8) -> bool {
    l.room_id == room_id && l.mode == mode
}

/// Which order modes an upsert refreshes: a brand-new post cannot yet
/// appear in the recently-active mode but must enter the newest-first
/// mode; an updated post re-ranks everywhere but mode 0, whose key never
/// changes.
pub open spec fn spec_refresh_mode(is_new: bool, mode: u8) -> bool {
    if is_new {
        mode == 0 || mode == 2 || mode == 3 || mode == 4
    } else {
        mode == 1 || mode == 2 || mode == 3 || mode == 4
    }
}

/// What an upsert-into-all-ranked-lists guarantees afterwards: in every
/// participating (room, mode) pair — the post's own room and the
/// room-agnostic aggregate, across the refreshed modes — a suppressed
/// post has no entry and any other post has one.
pub open spec fn spec_refreshed(f: Forum, p: Post, is_new: bool) -> bool {
    forall|room_id: Option<i32>, mode: u8|
        #![trigger f.spec_list_view(room_id, mode)]
        (room_id == Option::<i32>::None || room_id == Option::Some(p.room_id)) && mode <= 4
            && spec_refresh_mode(is_new, mode) ==> (if spec_suppressed(mode, p) {
            !spec_contains_pid(f.spec_list_view(room_id, mode), p.id as int)
        } else {
            spec_contains_pid(f.spec_list_view(room_id, mode), p.id as int)
        })
}

/// The whole core, each backing handle owned explicitly. The memoized
/// per-(viewer, post) visibility dictionaries live here too, so the
/// block flow can invalidate them itself.
pub struct Forum {
    pub store: Store,
    pub post_cache: PostCache,
    pub comment_cache: PostCommentCache,
    pub user_cache: UserCache,
    pub lists: Vec<PostListCache>,
    pub systemlog: SystemlogStore,
    pub attentions: Attention,
    pub reactions: Reaction,
    pub block_dicts: StrMap<IntMap<BlockDictCache>>,
    pub blocked: BlockedUsers,
    pub counter: BlockCounter,
    pub ranks: AutoBlockRank,
    pub banned: BannedUsers,
}

impl Forum {
    pub open spec fn wf(self) -> bool {
        &&& self.store.wf()
        &&& self.post_cache.wf()
        &&& self.post_cache.wf_posts()
        &&& self.comment_cache.wf()
        &&& self.user_cache.wf()
        &&& self.attentions.wf()
        &&& self.reactions.wf()
        &&& self.block_dicts.wf()
        &&& (forall|v: Seq<char>|
            self.block_dicts@.contains_key(v) ==> (#[trigger] self.block_dicts@[v]).wf())
        &&& (forall|v: Seq<char>, pid: i32|
            self.block_dicts@.contains_key(v) && self.block_dicts@[v]@.contains_key(pid) ==> (
            #[trigger] self.block_dicts@[v]@[pid]).wf())
        &&& self.blocked.wf()
        &&& self.counter.wf()
        &&& self.ranks.wf()
        &&& self.banned.wf()
        &&& forall|i: int| 0 <= i < self.lists@.len() ==> (#[trigger] self.lists@[i]).wf()
        &&& forall|i: int, j: int|
            0 <= i < j < self.lists@.len() ==> !(self.lists@[i].room_id == self.lists@[j].room_id
                && self.lists@[i].mode == self.lists@[j].mode)
    }

    /// Whether the registry holds a list under this key; a key never
    /// written is an implicitly empty list.
    pub open spec fn spec_has_list(self, room_id: Option<i32>, mode: u8) -> bool {
        exists|i: int|
            0 <= i < self.lists@.len() && spec_key_matches(#[trigger] self.lists@[i], room_id, mode)
    }

    /// The entries of the ranked list under this key.
    pub open spec fn spec_list_view(self, room_id: Option<i32>, mode: u8) -> Seq<(i64, i32)> {
        if self.spec_has_list(room_id, mode) {
            self.lists@[choose|i: int|
                0 <= i < self.lists@.len() && spec_key_matches(
                    #[trigger] self.lists@[i],
                    room_id,
                    mode,
                )]@
        } else {
            Seq::empty()
        }
    }

    /// The reported length of the ranked list under this key.
    pub open spec fn spec_list_len(self, room_id: Option<i32>, mode: u8) -> int {
        if self.spec_has_list(room_id, mode) {
            self.lists@[choose|i: int|
                0 <= i < self.lists@.len() && spec_key_matches(
                    #[trigger] self.lists@[i],
                    room_id,
                    mode,
                )].spec_reported_len()
        } else {
            0
        }
    }

    pub fn init() -> (r: Self)
        ensures
            r.wf(),
            r.store.posts@ =~= Seq::<Post>::empty(),
            r.store.comments@ =~= Seq::<Comment>::empty(),
            forall|room_id: Option<i32>, mode: u8| !r.spec_has_list(room_id, mode),
    {
        Forum {
            store: Store::init(),
            post_cache: PostCache::init(),
            comment_cache: PostCommentCache::init(),
            user_cache: UserCache::init(),
            lists: Vec::new(),
            systemlog: SystemlogStore::init(),
            attentions: Attention::init(),
            reactions: Reaction::init(),
            block_dicts: StrMap::new(),
            blocked: BlockedUsers::init(),
            counter: BlockCounter::init(),
            ranks: AutoBlockRank::init(),
            banned: BannedUsers::init(),
        }
    }

    /// The registry index holding the key, if any.
    fn find_list(&self, room_id: Option<i32>, mode: u8) -> (r: Option<usize>)
        requires
            self.wf(),
        ensures
            match r {
                Option::Some(i) => {
                    &&& i < self.lists@.len()
                    &&& spec_key_matches(self.lists@[i as int], room_id, mode)
                    &&& self.spec_has_list(room_id, mode)
                    &&& self.spec_list_view(room_id, mode) == self.lists@[i as int]@
                    &&& self.spec_list_len(room_id, mode) == self.lists@[
                        i as int
                    ].spec_reported_len()
                },
                Option::None => {
                    &&& !self.spec_has_list(room_id, mode)
                    &&& self.spec_list_view(room_id, mode) == Seq::<(i64, i32)>::empty()
                    &&& self.spec_list_len(room_id, mode) == 0
                },
            },
    {
        let n: usize = self.lists.len();
        let mut i: usize = 0;
        while i < n
            invariant
                i <= n,
                n == self.lists@.len(),
                self.wf(),
                forall|j: int|
                    0 <= j < i ==> !spec_key_matches(#[trigger] self.lists@[j], room_id, mode),
            decreases n - i,
        {
            let l: &PostListCache = &self.lists[i];
            let room_matches: bool = match (&l.room_id, &room_id) {
                (Option::Some(a), Option::Some(b)) => *a == *b,
                (Option::None, Option::None) => true,
                _ => false,
            };
            if room_matches && l.mode == mode {
                proof {
                    lemma_view_at(*self, room_id, mode, i as int);
                }
                return Option::Some(i);
            }
            i += 1;
        }
        Option::None
    }

    /// Find or create the registry slot of the key.
    fn ensure_list(&mut self, room_id: Option<i32>, mode: u8) -> (i: usize)
        requires
            old(self).wf(),
            mode <= 4,
        ensures
            final(self).wf(),
            i < final(self).lists@.len(),
            spec_key_matches(final(self).lists@[i as int], room_id, mode),
            final(self).spec_has_list(room_id, mode),
            final(self).spec_list_view(room_id, mode) == final(self).lists@[i as int]@,
            final(self).spec_list_len(room_id, mode) == final(self).lists@[
                i as int
            ].spec_reported_len(),
            final(self).lists@ == old(self).lists@ || final(self).lists@ == old(self).lists@.push(
                final(self).lists@[i as int],
            ),
            final(self).spec_list_view(room_id, mode) == old(self).spec_list_view(room_id, mode),
            forall|r2: Option<i32>, m2: u8|
                !(r2 == room_id && m2 == mode) ==> final(self).spec_list_view(r2, m2) == old(
                    self,
                ).spec_list_view(r2, m2) && final(self).spec_list_len(r2, m2) == old(
                    self,
                ).spec_list_len(r2, m2),
            final(self).store == old(self).store,
            final(self).post_cache == old(self).post_cache,
            final(self).comment_cache == old(self).comment_cache,
            final(self).user_cache == old(self).user_cache,
            final(self).systemlog == old(self).systemlog,
            final(self).attentions == old(self).attentions,
            final(self).reactions == old(self).reactions,
            final(self).block_dicts == old(self).block_dicts,
            final(self).blocked == old(self).blocked,
            final(self).counter == old(self).counter,
            final(self).ranks == old(self).ranks,
            final(self).banned == old(self).banned,
    {
        match self.find_list(room_id, mode) {
            Option::Some(i) => {
                proof {
                    assert(final(self).lists@ == old(self).lists@);
                    lemma_views_equal_when_lists_equal(*old(self), *self);
                }
                i
            }
            Option::None => {
                let l = PostListCache::init(room_id, mode);
                let i: usize = self.lists.len();
                self.lists.push(l);
                proof {
                    assert(self.lists@[i as int].room_id == room_id);
                    assert forall|a: int, b: int|
                        0 <= a < b < self.lists@.len() implies !(self.lists@[a].room_id
                        == self.lists@[b].room_id && self.lists@[a].mode == self.lists@[b].mode) by {
                        if b < i as int {
                            assert(self.lists@[a] == old(self).lists@[a]);
                            assert(self.lists@[b] == old(self).lists@[b]);
                        } else {
                            assert(self.lists@[a] == old(self).lists@[a]);
                            assert(!spec_key_matches(old(self).lists@[a], room_id, mode));
                        }
                    }
                    lemma_view_at(*self, room_id, mode, i as int);
                    assert(self.lists@[i as int]@ =~= Seq::<(i64, i32)>::empty());
                    assert(old(self).spec_list_view(room_id, mode) =~= Seq::<(i64, i32)>::empty());
                    assert forall|r2: Option<i32>, m2: u8| !(r2 == room_id && m2 == mode) implies {
                        &&& final(self).spec_list_view(r2, m2) == old(self).spec_list_view(r2, m2)
                        &&& final(self).spec_list_len(r2, m2) == old(self).spec_list_len(r2, m2)
                    } by {
                        lemma_view_push_other(*old(self), *self, room_id, mode, r2, m2);
                    }
                }
                i
            }
        }
    }
}

/// With unique keys, the list view under a key is the entries of the one
/// slot carrying it.
proof fn lemma_view_at(f: Forum, room_id: Option<i32>, mode: u8, i: int)
    requires
        forall|a: int, b: int|
            0 <= a < b < f.lists@.len() ==> !(f.lists@[a].room_id == f.lists@[b].room_id
                && f.lists@[a].mode == f.lists@[b].mode),
        0 <= i < f.lists@.len(),
        spec_key_matches(f.lists@[i], room_id, mode),
    ensures
        f.spec_has_list(room_id, mode),
        f.spec_list_view(room_id, mode) == f.lists@[i]@,
        f.spec_list_len(room_id, mode) == f.lists@[i].spec_reported_len(),
{
    assert(f.spec_has_list(room_id, mode));
    let j = choose|j: int|
        0 <= j < f.lists@.len() && spec_key_matches(#[trigger] f.lists@[j], room_id, mode);
    if i < j {
        assert(!(f.lists@[i].room_id == f.lists@[j].room_id && f.lists@[i].mode
            == f.lists@[j].mode));
    } else if j < i {
        assert(!(f.lists@[j].room_id == f.lists@[i].room_id && f.lists@[j].mode
            == f.lists@[i].mode));
    }
}

/// Two registries with the same slots agree on every view.
proof fn lemma_views_equal_when_lists_equal(f1: Forum, f2: Forum)
    requires
        f1.lists@ == f2.lists@,
    ensures
        forall|r2: Option<i32>, m2: u8|
            #![trigger f2.spec_list_view(r2, m2)]
            f1.spec_list_view(r2, m2) == f2.spec_list_view(r2, m2) && f1.spec_list_len(r2, m2)
                == f2.spec_list_len(r2, m2) && f1.spec_has_list(r2, m2) == f2.spec_has_list(
                r2,
                m2,
            ),
{
}

/// Appending a slot with one key leaves every other key's view alone.
proof fn lemma_view_push_other(
    f1: Forum,
    f2: Forum,
    room_id: Option<i32>,
    mode: u8,
    r2: Option<i32>,
    m2: u8,
)
    requires
        forall|a: int, b: int|
            0 <= a < b < f1.lists@.len() ==> !(f1.lists@[a].room_id == f1.lists@[b].room_id
                && f1.lists@[a].mode == f1.lists@[b].mode),
        f2.lists@ == f1.lists@.push(f2.lists@[f1.lists@.len() as int]),
        spec_key_matches(f2.lists@[f1.lists@.len() as int], room_id, mode),
        !(r2 == room_id && m2 == mode),
    ensures
        f2.spec_list_view(r2, m2) == f1.spec_list_view(r2, m2),
        f2.spec_list_len(r2, m2) == f1.spec_list_len(r2, m2),
{
    let n = f1.lists@.len() as int;
    assert(f2.lists@.len() == n + 1);
    assert forall|j: int| 0 <= j < n implies f2.lists@[j] == f1.lists@[j] by {}
    if f1.spec_has_list(r2, m2) {
        let j = choose|j: int|
            0 <= j < f1.lists@.len() && spec_key_matches(#[trigger] f1.lists@[j], r2, m2);
        assert(spec_key_matches(f2.lists@[j], r2, m2));
        assert(f2.spec_has_list(r2, m2));
        let j1 = choose|j1: int|
            0 <= j1 < f1.lists@.len() && spec_key_matches(#[trigger] f1.lists@[j1], r2, m2);
        let j2 = choose|j2: int|
            0 <= j2 < f2.lists@.len() && spec_key_matches(#[trigger] f2.lists@[j2], r2, m2);
        assert(j2 != n);
        assert(f2.lists@[j2] == f1.lists@[j2]);
        assert(spec_key_matches(f1.lists@[j2], r2, m2));
        if j1 < j2 {
            assert(!(f1.lists@[j1].room_id == f1.lists@[j2].room_id && f1.lists@[j1].mode
                == f1.lists@[j2].mode));
        } else if j2 < j1 {
            assert(!(f1.lists@[j2].room_id == f1.lists@[j1].room_id && f1.lists@[j2].mode
                == f1.lists@[j1].mode));
        }
        assert(j1 == j2);
    } else {
        if f2.spec_has_list(r2, m2) {
            let j2 = choose|j2: int|
                0 <= j2 < f2.lists@.len() && spec_key_matches(#[trigger] f2.lists@[j2], r2, m2);
            assert(j2 != n);
            assert(spec_key_matches(f1.lists@[j2], r2, m2));
            assert(f1.spec_has_list(r2, m2));
        }
    }
}

impl Forum {
    /// Upsert `p` into (or drop it from) the one ranked list under the
    /// key, leaving every other key's list alone.
    fn put_list(&mut self, room_id: Option<i32>, mode: u8, p: &Post)
        requires
            old(self).wf(),
            mode <= 4,
            p.wf(),
        ensures
            final(self).wf(),
            spec_suppressed(mode, *p) ==> !spec_contains_pid(
                final(self).spec_list_view(room_id, mode),
                p.id as int,
            ),
            !spec_suppressed(mode, *p) ==> spec_contains_pid(
                final(self).spec_list_view(room_id, mode),
                p.id as int,
            ),
            forall|r2: Option<i32>, m2: u8|
                !(r2 == room_id && m2 == mode) ==> final(self).spec_list_view(r2, m2) == old(
                    self,
                ).spec_list_view(r2, m2) && final(self).spec_list_len(r2, m2) == old(
                    self,
                ).spec_list_len(r2, m2),
            forall|q: int|
                q != p.id as int ==> (spec_contains_pid(
                    final(self).spec_list_view(room_id, mode),
                    q,
                ) <==> spec_contains_pid(old(self).spec_list_view(room_id, mode), q)),
            final(self).store == old(self).store,
            final(self).post_cache == old(self).post_cache,
            final(self).comment_cache == old(self).comment_cache,
            final(self).user_cache == old(self).user_cache,
            final(self).systemlog == old(self).systemlog,
            final(self).attentions == old(self).attentions,
            final(self).reactions == old(self).reactions,
            final(self).block_dicts == old(self).block_dicts,
            final(self).blocked == old(self).blocked,
            final(self).counter == old(self).counter,
            final(self).ranks == old(self).ranks,
            final(self).banned == old(self).banned,
    {
        let i: usize = self.ensure_list(room_id, mode);
        let ghost mid = *self;
        let ghost pre_view = self.lists@[i as int]@;
        let l: &mut PostListCache = &mut self.lists[i];
        l.put(p);
        proof {
            assert(self.lists@ == mid.lists@.update(i as int, self.lists@[i as int]));
            assert(spec_key_matches(self.lists@[i as int], room_id, mode));
            assert forall|a: int|
                0 <= a < self.lists@.len() && a != i as int implies self.lists@[a]
                == mid.lists@[a] by {}
            assert forall|a: int, b: int|
                0 <= a < b < self.lists@.len() implies !(self.lists@[a].room_id
                == self.lists@[b].room_id && self.lists@[a].mode == self.lists@[b].mode) by {
                assert(self.lists@[a].room_id == mid.lists@[a].room_id && self.lists@[a].mode
                    == mid.lists@[a].mode);
                assert(self.lists@[b].room_id == mid.lists@[b].room_id && self.lists@[b].mode
                    == mid.lists@[b].mode);
            }
            lemma_view_at(*self, room_id, mode, i as int);
            assert forall|r2: Option<i32>, m2: u8| !(r2 == room_id && m2 == mode) implies {
                &&& final(self).spec_list_view(r2, m2) == mid.spec_list_view(r2, m2)
                &&& final(self).spec_list_len(r2, m2) == mid.spec_list_len(r2, m2)
            } by {
                lemma_view_update_other(mid, *self, i as int, room_id, mode, r2, m2);
            }
            assert(mid.spec_list_view(room_id, mode) == pre_view);
            assert(old(self).spec_list_view(room_id, mode) == pre_view);
            let fin_view = self.spec_list_view(room_id, mode);
            assert(fin_view == self.lists@[i as int]@);
            assert forall|q: int|
                q != p.id as int implies (spec_contains_pid(fin_view, q) <==> spec_contains_pid(
                    pre_view,
                    q,
                )) by {
                if spec_contains_pid(fin_view, q) {
                    let a = choose|a: int| 0 <= a < fin_view.len() && fin_view[a].1 == q;
                    assert(crate::ranked::spec_contains_pair(fin_view, fin_view[a].0 as int, q));
                    assert(crate::ranked::spec_contains_pair(pre_view, fin_view[a].0 as int, q));
                }
                if spec_contains_pid(pre_view, q) {
                    let a = choose|a: int| 0 <= a < pre_view.len() && pre_view[a].1 == q;
                    assert(crate::ranked::spec_contains_pair(pre_view, pre_view[a].0 as int, q));
                    assert(crate::ranked::spec_contains_pair(fin_view, pre_view[a].0 as int, q));
                }
            }
        }
    }

    /// Write-through the single-object cache for `p`.
    pub fn set_instance_cache(&mut self, p: &Post, now: i64)
        requires
            old(self).wf(),
            p.wf(),
            0 <= now <= i64::MAX - INSTANCE_EXPIRE_TIME,
        ensures
            final(self).wf(),
            final(self).post_cache@ =~= old(self).post_cache@.insert(p.id, spec_entry(*p, now)),
            final(self).store == old(self).store,
            final(self).comment_cache == old(self).comment_cache,
            final(self).user_cache == old(self).user_cache,
            final(self).lists == old(self).lists,
            final(self).systemlog == old(self).systemlog,
            final(self).attentions == old(self).attentions,
            final(self).reactions == old(self).reactions,
            final(self).block_dicts == old(self).block_dicts,
            final(self).blocked == old(self).blocked,
            final(self).counter == old(self).counter,
            final(self).ranks == old(self).ranks,
            final(self).banned == old(self).banned,
    {
        let batch: Vec<Post> = vec![p.clone()];
        proof {
            assert(batch@[0] == *p);
        }
        self.post_cache.sets(&batch, now);
        proof {
            assert(batch@.skip(1) =~= Seq::<Post>::empty());
            assert(spec_sets_map(old(self).post_cache@, batch@, now) == spec_sets_map(
                old(self).post_cache@.insert(p.id, spec_entry(*p, now)),
                batch@.skip(1),
                now,
            ));
        }
    }

    /// Upsert-into-all-ranked-lists: push the fresh row into the object
    /// cache and into every ranked list the post participates in, both
    /// the room-scoped and the room-agnostic one. A suppressed post is
    /// dropped from those lists instead.
    pub fn refresh_cache(&mut self, p: &Post, is_new: bool, now: i64)
        requires
            old(self).wf(),
            p.wf(),
            0 <= now <= i64::MAX - INSTANCE_EXPIRE_TIME,
        ensures
            final(self).wf(),
            final(self).post_cache@ =~= old(self).post_cache@.insert(p.id, spec_entry(*p, now)),
            spec_refreshed(*final(self), *p, is_new),
            forall|room_id: Option<i32>, mode: u8|
                #![trigger final(self).spec_list_view(room_id, mode)]
                !((room_id == Option::<i32>::None || room_id == Option::Some(p.room_id))
                    && spec_refresh_mode(is_new, mode)) ==> final(self).spec_list_view(
                    room_id,
                    mode,
                ) == old(self).spec_list_view(room_id, mode),
            final(self).store == old(self).store,
            final(self).comment_cache == old(self).comment_cache,
            final(self).user_cache == old(self).user_cache,
            final(self).systemlog == old(self).systemlog,
            final(self).attentions == old(self).attentions,
            final(self).reactions == old(self).reactions,
            final(self).block_dicts == old(self).block_dicts,
            final(self).blocked == old(self).blocked,
            final(self).counter == old(self).counter,
            final(self).ranks == old(self).ranks,
            final(self).banned == old(self).banned,
    {
        self.set_instance_cache(p, now);
        let room: Option<i32> = Option::Some(p.room_id);
        if is_new {
            self.put_list(Option::None, 0, p);
            self.put_list(room, 0, p);
        } else {
            self.put_list(Option::None, 1, p);
            self.put_list(room, 1, p);
        }
        self.put_list(Option::None, 2, p);
        self.put_list(room, 2, p);
        self.put_list(Option::None, 3, p);
        self.put_list(room, 3, p);
        self.put_list(Option::None, 4, p);
        self.put_list(room, 4, p);
    }

    /// Drop one ranked list whole.
    pub fn clear_ranked_list(&mut self, room_id: Option<i32>, mode: u8)
        requires
            old(self).wf(),
            mode <= 4,
        ensures
            final(self).wf(),
            final(self).spec_list_view(room_id, mode) =~= Seq::<(i64, i32)>::empty(),
            forall|r2: Option<i32>, m2: u8|
                !(r2 == room_id && m2 == mode) ==> final(self).spec_list_view(r2, m2) == old(
                    self,
                ).spec_list_view(r2, m2),
            final(self).store == old(self).store,
            final(self).post_cache == old(self).post_cache,
            final(self).comment_cache == old(self).comment_cache,
            final(self).user_cache == old(self).user_cache,
            final(self).systemlog == old(self).systemlog,
            final(self).attentions == old(self).attentions,
            final(self).reactions == old(self).reactions,
            final(self).block_dicts == old(self).block_dicts,
            final(self).blocked == old(self).blocked,
            final(self).counter == old(self).counter,
            final(self).ranks == old(self).ranks,
            final(self).banned == old(self).banned,
    {
        let i: usize = self.ensure_list(room_id, mode);
        let ghost mid = *self;
        let l: &mut PostListCache = &mut self.lists[i];
        l.clear();
        proof {
            assert(self.lists@ == mid.lists@.update(i as int, self.lists@[i as int]));
            assert(spec_key_matches(self.lists@[i as int], room_id, mode));
            assert forall|a: int, b: int|
                0 <= a < b < self.lists@.len() implies !(self.lists@[a].room_id
                == self.lists@[b].room_id && self.lists@[a].mode == self.lists@[b].mode) by {
                assert(self.lists@[a].room_id == mid.lists@[a].room_id && self.lists@[a].mode
                    == mid.lists@[a].mode);
                assert(self.lists@[b].room_id == mid.lists@[b].room_id && self.lists@[b].mode
                    == mid.lists@[b].mode);
            }
            lemma_view_at(*self, room_id, mode, i as int);
            assert forall|r2: Option<i32>, m2: u8| !(r2 == room_id && m2 == mode) implies {
                &&& final(self).spec_list_view(r2, m2) == mid.spec_list_view(r2, m2)
                &&& final(self).spec_list_len(r2, m2) == mid.spec_list_len(r2, m2)
            } by {
                lemma_view_update_other(mid, *self, i as int, room_id, mode, r2, m2);
            }
        }
    }

    /// Drop the cached comment list of a post; every flow that changes
    /// the comment set calls this.
    pub fn clear_comments_cache(&mut self, pid: i32)
        requires
            old(self).wf(),
        ensures
            final(self).wf(),
            final(self).comment_cache@ =~= old(self).comment_cache@.remove(pid),
            final(self).store == old(self).store,
            final(self).post_cache == old(self).post_cache,
            final(self).user_cache == old(self).user_cache,
            final(self).lists == old(self).lists,
            final(self).systemlog == old(self).systemlog,
            final(self).attentions == old(self).attentions,
            final(self).reactions == old(self).reactions,
            final(self).block_dicts == old(self).block_dicts,
            final(self).blocked == old(self).blocked,
            final(self).counter == old(self).counter,
            final(self).ranks == old(self).ranks,
            final(self).banned == old(self).banned,
    {
        self.comment_cache.clear(pid);
    }

    /// Purge the whole single-object cache namespace.
    pub fn clear_all_object_cache(&mut self)
        requires
            old(self).wf(),
        ensures
            final(self).wf(),
            final(self).post_cache@ =~= Map::<i32, PostEntry>::empty(),
            final(self).store == old(self).store,
            final(self).comment_cache == old(self).comment_cache,
            final(self).user_cache == old(self).user_cache,
            final(self).lists == old(self).lists,
            final(self).systemlog == old(self).systemlog,
            final(self).attentions == old(self).attentions,
            final(self).reactions == old(self).reactions,
            final(self).block_dicts == old(self).block_dicts,
            final(self).blocked == old(self).blocked,
            final(self).counter == old(self).counter,
            final(self).ranks == old(self).ranks,
            final(self).banned == old(self).banned,
    {
        self.post_cache.clear_all();
    }

    /// One annealing cycle: decay every hot score above the floor
    /// directly against the store, discard the whole object-cache
    /// namespace, and drop the hot-score-ordered list of every room.
    /// Other ranked modes are left alone: they do not depend on the
    /// decayed values.
    pub fn annealing(&mut self)
        requires
            old(self).wf(),
        ensures
            final(self).wf(),
            final(self).store.posts@.len() == old(self).store.posts@.len(),
            forall|i: int|
                0 <= i < old(self).store.posts@.len() ==> final(self).store.posts@[i] == (Post {
                    hot_score: crate::policy::spec_decay(
                        old(self).store.posts@[i].hot_score as int,
                    ) as i32,
                    ..old(self).store.posts@[i]
                }),
            final(self).post_cache@ =~= Map::<i32, PostEntry>::empty(),
            forall|room_id: Option<i32>|
                #![trigger final(self).spec_list_view(room_id, 2)]
                final(self).spec_list_view(room_id, 2) =~= Seq::<(i64, i32)>::empty(),
            forall|room_id: Option<i32>, mode: u8|
                mode != 2 ==> final(self).spec_list_view(room_id, mode) == old(
                    self,
                ).spec_list_view(room_id, mode),
            final(self).comment_cache == old(self).comment_cache,
            final(self).user_cache == old(self).user_cache,
            final(self).systemlog == old(self).systemlog,
            final(self).attentions == old(self).attentions,
            final(self).reactions == old(self).reactions,
            final(self).block_dicts == old(self).block_dicts,
            final(self).blocked == old(self).blocked,
            final(self).counter == old(self).counter,
            final(self).ranks == old(self).ranks,
            final(self).banned == old(self).banned,
    {
        self.store.annealing();
        self.post_cache.clear_all();
        let ghost pre = *self;
        let n: usize = self.lists.len();
        let mut i: usize = 0;
        while i < n
            invariant
                i <= n,
                n == self.lists@.len(),
                self.wf(),
                forall|j: int|
                    0 <= j < i && old(self).lists@[j].mode == 2 ==> {
                        &&& (#[trigger] self.lists@[j]).room_id == old(self).lists@[j].room_id
                        &&& self.lists@[j].mode == 2
                        &&& self.lists@[j]@ =~= Seq::<(i64, i32)>::empty()
                        &&& self.lists@[j].spec_reported_len() == 0
                    },
                forall|j: int|
                    0 <= j < n && !(j < i && old(self).lists@[j].mode == 2) ==> (
                    #[trigger] self.lists@[j]) == old(self).lists@[j],
                self.store == pre.store,
                self.post_cache == pre.post_cache,
                self.comment_cache == old(self).comment_cache,
                self.user_cache == old(self).user_cache,
                self.systemlog == old(self).systemlog,
                self.attentions == old(self).attentions,
                self.reactions == old(self).reactions,
                self.block_dicts == old(self).block_dicts,
                self.blocked == old(self).blocked,
                self.counter == old(self).counter,
                self.ranks == old(self).ranks,
                self.banned == old(self).banned,
            decreases n - i,
        {
            if self.lists[i].mode == 2 {
                let ghost mid = *self;
                let l: &mut PostListCache = &mut self.lists[i];
                l.clear();
                proof {
                    assert(self.lists@ == mid.lists@.update(i as int, self.lists@[i as int]));
                    assert forall|j: int|
                        0 <= j < self.lists@.len() && j != i as int implies self.lists@[j]
                        == mid.lists@[j] by {}
                }
            }
            i += 1;
        }
        proof {
            assert forall|room_id: Option<i32>|
                self.spec_list_view(room_id, 2) =~= Seq::<(i64, i32)>::empty() by {
                if self.spec_has_list(room_id, 2) {
                    let j = choose|j: int|
                        0 <= j < self.lists@.len() && spec_key_matches(
                            #[trigger] self.lists@[j],
                            room_id,
                            2,
                        );
                    assert(self.lists@[j]@ =~= Seq::<(i64, i32)>::empty());
                }
            }
            assert forall|room_id: Option<i32>, mode: u8| mode != 2 implies self.spec_list_view(
                room_id,
                mode,
            ) == old(self).spec_list_view(room_id, mode) by {
                lemma_view_same_keys(*old(self), *self, room_id, mode);
            }
        }
    }
}

/// Updating one slot in place, without changing its key, leaves every
/// other key's view alone.
proof fn lemma_view_update_other(
    f1: Forum,
    f2: Forum,
    i: int,
    room_id: Option<i32>,
    mode: u8,
    r2: Option<i32>,
    m2: u8,
)
    requires
        forall|a: int, b: int|
            0 <= a < b < f1.lists@.len() ==> !(f1.lists@[a].room_id == f1.lists@[b].room_id
                && f1.lists@[a].mode == f1.lists@[b].mode),
        0 <= i < f1.lists@.len(),
        f2.lists@ == f1.lists@.update(i, f2.lists@[i]),
        spec_key_matches(f1.lists@[i], room_id, mode),
        spec_key_matches(f2.lists@[i], room_id, mode),
        !(r2 == room_id && m2 == mode),
    ensures
        f2.spec_list_view(r2, m2) == f1.spec_list_view(r2, m2),
        f2.spec_list_len(r2, m2) == f1.spec_list_len(r2, m2),
{
    assert(f2.lists@.len() == f1.lists@.len());
    assert forall|j: int| 0 <= j < f1.lists@.len() && j != i implies f2.lists@[j]
        == f1.lists@[j] by {}
    if f1.spec_has_list(r2, m2) {
        let j1 = choose|j1: int|
            0 <= j1 < f1.lists@.len() && spec_key_matches(#[trigger] f1.lists@[j1], r2, m2);
        assert(j1 != i);
        assert(spec_key_matches(f2.lists@[j1], r2, m2));
        assert(f2.spec_has_list(r2, m2));
        let j2 = choose|j2: int|
            0 <= j2 < f2.lists@.len() && spec_key_matches(#[trigger] f2.lists@[j2], r2, m2);
        assert(j2 != i);
        assert(spec_key_matches(f1.lists@[j2], r2, m2));
        if j1 < j2 {
            assert(!(f1.lists@[j1].room_id == f1.lists@[j2].room_id && f1.lists@[j1].mode
                == f1.lists@[j2].mode));
        } else if j2 < j1 {
            assert(!(f1.lists@[j2].room_id == f1.lists@[j1].room_id && f1.lists@[j2].mode
                == f1.lists@[j1].mode));
        }
        assert(j1 == j2);
    } else {
        if f2.spec_has_list(r2, m2) {
            let j2 = choose|j2: int|
                0 <= j2 < f2.lists@.len() && spec_key_matches(#[trigger] f2.lists@[j2], r2, m2);
            assert(j2 != i);
            assert(spec_key_matches(f1.lists@[j2], r2, m2));
        }
    }
}

/// Two registries whose slots carry the same keys in the same order and
/// equal entries wherever the key is of interest agree on that key's
/// view.
proof fn lemma_view_same_keys(f1: Forum, f2: Forum, room_id: Option<i32>, mode: u8)
    requires
        forall|a: int, b: int|
            0 <= a < b < f1.lists@.len() ==> !(f1.lists@[a].room_id == f1.lists@[b].room_id
                && f1.lists@[a].mode == f1.lists@[b].mode),
        f1.lists@.len() == f2.lists@.len(),
        forall|j: int|
            0 <= j < f1.lists@.len() ==> (#[trigger] f2.lists@[j]).room_id == f1.lists@[j].room_id
                && f2.lists@[j].mode == f1.lists@[j].mode,
        forall|j: int|
            0 <= j < f1.lists@.len() && spec_key_matches(#[trigger] f1.lists@[j], room_id, mode)
                ==> f2.lists@[j]@ == f1.lists@[j]@ && f2.lists@[j].spec_reported_len()
                == f1.lists@[j].spec_reported_len(),
    ensures
        f2.spec_list_view(room_id, mode) == f1.spec_list_view(room_id, mode),
        f2.spec_list_len(room_id, mode) == f1.spec_list_len(room_id, mode),
{
    if f1.spec_has_list(room_id, mode) {
        let j1 = choose|j1: int|
            0 <= j1 < f1.lists@.len() && spec_key_matches(#[trigger] f1.lists@[j1], room_id, mode);
        assert(spec_key_matches(f2.lists@[j1], room_id, mode));
        assert(f2.spec_has_list(room_id, mode));
        let j2 = choose|j2: int|
            0 <= j2 < f2.lists@.len() && spec_key_matches(#[trigger] f2.lists@[j2], room_id, mode);
        assert(spec_key_matches(f1.lists@[j2], room_id, mode));
        if j1 < j2 {
            assert(!(f1.lists@[j1].room_id == f1.lists@[j2].room_id && f1.lists@[j1].mode
                == f1.lists@[j2].mode));
        } else if j2 < j1 {
            assert(!(f1.lists@[j2].room_id == f1.lists@[j1].room_id && f1.lists@[j2].mode
                == f1.lists@[j1].mode));
        }
        assert(j1 == j2);
    } else {
        if f2.spec_has_list(room_id, mode) {
            let j2 = choose|j2: int|
                0 <= j2 < f2.lists@.len() && spec_key_matches(#[trigger] f2.lists@[j2], room_id, mode);
            assert(spec_key_matches(f1.lists@[j2], room_id, mode));
        }
    }
}

/// What a read-through point lookup yields: the cached copy on a live
/// hit, else the store row, else a not-found failure.
pub open spec fn spec_get_result(f: Forum, id: i32, now: i64) -> Result<Post, StoreError> {
    match spec_cached(f.post_cache@, id, now) {
        Option::Some(p) => Result::Ok(p),
        Option::None => match f.store.spec_post(id) {
            Option::Some(p) => Result::Ok(p),
            Option::None => Result::Err(StoreError::NotFound),
        },
    }
}

/// What one id contributes to a batched read-through: the cached copy on
/// a live hit (deleted or not), else the store row if it exists and is
/// not soft-deleted.
pub open spec fn spec_lookup_merged(f: Forum, id: i32, now: i64) -> Option<Post> {
    match spec_cached(f.post_cache@, id, now) {
        Option::Some(p) => Option::Some(p),
        Option::None => match f.store.spec_post(id) {
            Option::Some(p) => if !p.is_deleted {
                Option::Some(p)
            } else {
                Option::None
            },
            Option::None => Option::None,
        },
    }
}

/// The batched read-through result: the merged lookups in request order,
/// with misses and soft-deleted posts left out.
pub open spec fn spec_get_multi_result(f: Forum, ids: Seq<i32>, now: i64) -> Seq<Post>
    decreases ids.len(),
{
    if ids.len() == 0 {
        Seq::empty()
    } else {
        spec_get_multi_result(f, ids.drop_last(), now) + (match spec_lookup_merged(
            f,
            ids.last(),
            now,
        ) {
            Option::Some(p) => if !p.is_deleted {
                seq![p]
            } else {
                Seq::empty()
            },
            Option::None => Seq::empty(),
        })
    }
}

/// Every post of a batched read-through is live and well-formed.
proof fn lemma_get_multi_result_live(f: Forum, ids: Seq<i32>, now: i64)
    requires
        f.wf(),
    ensures
        forall|j: int|
            0 <= j < spec_get_multi_result(f, ids, now).len() ==> !(
            #[trigger] spec_get_multi_result(f, ids, now)[j]).is_deleted && spec_get_multi_result(
                f,
                ids,
                now,
            )[j].wf(),
        spec_get_multi_result(f, ids, now).len() <= ids.len(),
    decreases ids.len(),
{
    if ids.len() > 0 {
        lemma_get_multi_result_live(f, ids.drop_last(), now);
    }
}

impl Forum {
    /// Read-through point lookup: a live cache hit is returned as is —
    /// even a soft-deleted copy; visibility is the caller's policy — and
    /// refreshes its TTL; on a miss the store row is fetched and pushed
    /// into the cache; a row the store lacks is a hard error.
    pub fn get(&mut self, id: i32, now: i64) -> (r: Result<Post, StoreError>)
        requires
            old(self).wf(),
            0 <= now <= i64::MAX - INSTANCE_EXPIRE_TIME,
        ensures
            final(self).wf(),
            r == spec_get_result(*old(self), id, now),
            match r {
                Result::Ok(p) => {
                    &&& final(self).post_cache@.contains_key(id)
                    &&& final(self).post_cache@[id].post == p
                    &&& p.wf()
                },
                Result::Err(_) => final(self).post_cache@ == old(self).post_cache@,
            },
            final(self).store == old(self).store,
            final(self).comment_cache == old(self).comment_cache,
            final(self).user_cache == old(self).user_cache,
            final(self).lists == old(self).lists,
            final(self).systemlog == old(self).systemlog,
            final(self).attentions == old(self).attentions,
            final(self).reactions == old(self).reactions,
            final(self).block_dicts == old(self).block_dicts,
            final(self).blocked == old(self).blocked,
            final(self).counter == old(self).counter,
            final(self).ranks == old(self).ranks,
            final(self).banned == old(self).banned,
    {
        match self.post_cache.get(id, now) {
            Option::Some(p) => Result::Ok(p),
            Option::None => match self.store.get_post(id) {
                Option::Some(p) => {
                    self.set_instance_cache(&p, now);
                    Result::Ok(p)
                }
                Option::None => Result::Err(StoreError::NotFound),
            },
        }
    }

    /// Batched read-through: consult the cache for the whole id list,
    /// fetch the misses from the store in one filtered query, backfill
    /// the cache with them, and hand back the merged rows in request
    /// order with soft-deleted posts left out.
    pub fn get_multi(&mut self, ids: &Vec<i32>, now: i64) -> (r: Vec<Post>)
        requires
            old(self).wf(),
            0 <= now <= i64::MAX - INSTANCE_EXPIRE_TIME,
        ensures
            final(self).wf(),
            r@ == spec_get_multi_result(*old(self), ids@, now),
            forall|j: int| 0 <= j < r@.len() ==> !(#[trigger] r@[j]).is_deleted && r@[j].wf(),
            r@.len() <= ids@.len(),
            final(self).store == old(self).store,
            final(self).comment_cache == old(self).comment_cache,
            final(self).user_cache == old(self).user_cache,
            final(self).lists == old(self).lists,
            final(self).systemlog == old(self).systemlog,
            final(self).attentions == old(self).attentions,
            final(self).reactions == old(self).reactions,
            final(self).block_dicts == old(self).block_dicts,
            final(self).blocked == old(self).blocked,
            final(self).counter == old(self).counter,
            final(self).ranks == old(self).ranks,
            final(self).banned == old(self).banned,
    {
        proof {
            lemma_get_multi_result_live(*old(self), ids@, now);
        }
        let n: usize = ids.len();
        let cached: Vec<Option<Post>> = self.post_cache.gets(ids, now);
        let mut missing_ids: Vec<i32> = Vec::new();
        let mut i: usize = 0;
        while i < n
            invariant
                i <= n,
                n == ids@.len(),
                n == cached@.len(),
                forall|j: int|
                    0 <= j < n ==> cached@[j] == spec_cached(old(self).post_cache@, ids@[j], now),
                forall|j: int|
                    0 <= j < missing_ids@.len() ==> old(self).store.spec_post(
                        #[trigger] missing_ids@[j],
                    ) is Some,
                old(self).wf(),
                self.store == old(self).store,
            decreases n - i,
        {
            if matches!(&cached[i], Option::None) {
                if self.store.get_post(ids[i]).is_some() {
                    missing_ids.push(ids[i]);
                }
            }
            i += 1;
        }
        let fetched: Vec<Post> = self.store.load_multi(&missing_ids);
        proof {
            lemma_load_multi_rows(*old(self), missing_ids@);
        }
        self.post_cache.sets(&fetched, now);
        let mut r: Vec<Post> = Vec::new();
        let mut i2: usize = 0;
        while i2 < n
            invariant
                i2 <= n,
                n == ids@.len(),
                n == cached@.len(),
                old(self).wf(),
                self.store == old(self).store,
                forall|j: int|
                    0 <= j < n ==> cached@[j] == spec_cached(old(self).post_cache@, ids@[j], now),
                r@ =~= spec_get_multi_result(*old(self), ids@.take(i2 as int), now),
            decreases n - i2,
        {
            let ghost pre = r@;
            match &cached[i2] {
                Option::Some(p) => {
                    if !p.is_deleted {
                        r.push(p.clone());
                    }
                }
                Option::None => {
                    match self.store.get_post(ids[i2]) {
                        Option::Some(p) => {
                            if !p.is_deleted {
                                r.push(p.clone());
                            }
                        }
                        Option::None => {}
                    }
                }
            }
            proof {
                assert(ids@.take(i2 + 1).drop_last() =~= ids@.take(i2 as int));
                assert(ids@.take(i2 + 1).last() == ids@[i2 as int]);
            }
            i2 += 1;
        }
        proof {
            assert(ids@.take(n as int) =~= ids@);
        }
        r
    }
}

/// Every row a filtered multi-id load returns is a well-formed store
/// row.
proof fn lemma_load_multi_rows(f: Forum, ids: Seq<i32>)
    requires
        f.store.wf(),
    ensures
        forall|j: int|
            0 <= j < crate::store::spec_load_multi(f.store, ids).len() ==> (
            #[trigger] crate::store::spec_load_multi(f.store, ids)[j]).wf(),
    decreases ids.len(),
{
    if ids.len() > 0 {
        lemma_load_multi_rows(f, ids.drop_last());
        let id = ids.last();
        let pre = crate::store::spec_load_multi(f.store, ids.drop_last());
        let whole = crate::store::spec_load_multi(f.store, ids);
        if f.store.spec_post(id) is Some {
            assert(f.store.posts@[id - 1].wf());
        }
        assert forall|j: int| 0 <= j < whole.len() implies (#[trigger] whole[j]).wf() by {
            if j < pre.len() {
                assert(whole[j] == pre[j]);
            } else {
                assert(whole[j] == f.store.spec_post(id)->0);
            }
        }
    }
}

impl Forum {
    /// One page of a ranked listing. The ranked list under the key is
    /// compacted and, when below the minimum watermark, backfilled from
    /// a full store query; the page's ids are then read from the list
    /// when the window lies inside its reported length, directly from
    /// the store otherwise, and resolved through the batched
    /// read-through. When the list was already warm (its cardinality
    /// between the watermarks) and the window fits, the result is
    /// exactly the cached page, resolved against the state as it was.
    pub fn gets_by_page(
        &mut self,
        room_id: Option<i32>,
        order_mode: u8,
        start: i64,
        limit: i64,
        now: i64,
    ) -> (r: Vec<Post>)
        requires
            old(self).wf(),
            order_mode <= 4,
            0 <= start,
            0 <= limit,
            start + limit <= i64::MAX,
            0 <= now <= i64::MAX - INSTANCE_EXPIRE_TIME,
        ensures
            final(self).wf(),
            forall|j: int| 0 <= j < r@.len() ==> !(#[trigger] r@[j]).is_deleted && r@[j].wf(),
            r@.len() <= limit,
            final(self).spec_list_view(room_id, order_mode).len() <= crate::ranked::MAX_LENGTH as int,
            (forall|j: int|
                0 <= j < r@.len() ==> spec_contains_pid(
                    final(self).spec_list_view(room_id, order_mode),
                    (#[trigger] r@[j]).id as int,
                )) || ({
                &&& (forall|j: int|
                    0 <= j < r@.len() ==> final(self).store.spec_post((#[trigger] r@[j]).id)
                        is Some && crate::store::spec_page_eligible(
                        order_mode,
                        room_id,
                        final(self).store.spec_post(r@[j].id)->0,
                    ))
                &&& (order_mode != 3 ==> forall|a: int, b: int|
                    0 <= a < b < r@.len() ==> spec_sort_key(
                        order_mode,
                        final(self).store.spec_post((#[trigger] r@[a]).id)->0,
                    ) <= spec_sort_key(
                        order_mode,
                        final(self).store.spec_post((#[trigger] r@[b]).id)->0,
                    ))
            }),
            final(self).store == old(self).store,
            final(self).comment_cache == old(self).comment_cache,
            final(self).user_cache == old(self).user_cache,
            final(self).systemlog == old(self).systemlog,
            final(self).attentions == old(self).attentions,
            final(self).reactions == old(self).reactions,
            final(self).block_dicts == old(self).block_dicts,
            final(self).blocked == old(self).blocked,
            final(self).counter == old(self).counter,
            final(self).ranks == old(self).ranks,
            final(self).banned == old(self).banned,
            crate::ranked::MIN_LENGTH as int <= old(self).spec_list_view(room_id, order_mode).len()
                <= crate::ranked::MAX_LENGTH as int && start + limit <= old(self).spec_list_view(
                room_id,
                order_mode,
            ).len() ==> r@ == spec_get_multi_result(
                *old(self),
                spec_page_pids(old(self).spec_list_view(room_id, order_mode), start as int, limit as int),
                now,
            ),
    {
        let idx: usize = self.ensure_list(room_id, order_mode);
        let ghost mid = *self;
        let l: &mut PostListCache = &mut self.lists[idx];
        let needs: bool = l.need_fill();
        let minlen: i64 = l.i64_minlen();
        proof {
            assert(self.lists@ == mid.lists@.update(idx as int, self.lists@[idx as int]));
            assert(spec_key_matches(self.lists@[idx as int], room_id, order_mode));
            assert forall|a: int, b: int|
                0 <= a < b < self.lists@.len() implies !(self.lists@[a].room_id
                == self.lists@[b].room_id && self.lists@[a].mode == self.lists@[b].mode) by {
                assert(self.lists@[a].room_id == mid.lists@[a].room_id && self.lists@[a].mode
                    == mid.lists@[a].mode);
                assert(self.lists@[b].room_id == mid.lists@[b].room_id && self.lists@[b].mode
                    == mid.lists@[b].mode);
            }
            lemma_view_at(*self, room_id, order_mode, idx as int);
        }
        if needs {
            let pids: Vec<i32> = self.store.get_ids_by_page(room_id, order_mode, 0, minlen);
            let ps: Vec<Post> = self.get_multi(&pids, now);
            let ghost mid2 = *self;
            let l2: &mut PostListCache = &mut self.lists[idx];
            l2.fill(&ps);
            proof {
                assert(self.lists@ == mid2.lists@.update(idx as int, self.lists@[idx as int]));
                assert(spec_key_matches(self.lists@[idx as int], room_id, order_mode));
                assert forall|a: int, b: int|
                    0 <= a < b < self.lists@.len() implies !(self.lists@[a].room_id
                    == self.lists@[b].room_id && self.lists@[a].mode == self.lists@[b].mode) by {
                    assert(self.lists@[a].room_id == mid2.lists@[a].room_id && self.lists@[a].mode
                        == mid2.lists@[a].mode);
                    assert(self.lists@[b].room_id == mid2.lists@[b].room_id && self.lists@[b].mode
                        == mid2.lists@[b].mode);
                }
                lemma_view_at(*self, room_id, order_mode, idx as int);
            }
        }
        let reported: i64 = self.lists[idx].i64_len();
        let from_store: bool = start + limit > reported;
        let pids: Vec<i32> = if from_store {
            self.store.get_ids_by_page(room_id, order_mode, start, limit)
        } else {
            self.lists[idx].get_pids(start, limit)
        };
        let ghost pre_merge = *self;
        let r: Vec<Post> = self.get_multi(&pids, now);
        proof {
            lemma_get_multi_member(pre_merge, pids@, now);
            lemma_views_equal_when_lists_equal(pre_merge, *self);
            if from_store {
                lemma_get_multi_pairs(pre_merge, pids@, now);
                assert forall|j: int|
                    0 <= j < r@.len() implies final(self).store.spec_post((#[trigger] r@[j]).id)
                    is Some && crate::store::spec_page_eligible(
                    order_mode,
                    room_id,
                    final(self).store.spec_post(r@[j].id)->0,
                ) by {
                    let k = choose|k: int|
                        0 <= k < pids@.len() && spec_lookup_merged(pre_merge, pids@[k], now)
                            == Option::Some(r@[j]) && pids@[k] == r@[j].id;
                }
                if order_mode != 3 {
                    assert forall|a: int, b: int|
                        0 <= a < b < r@.len() implies spec_sort_key(
                        order_mode,
                        final(self).store.spec_post((#[trigger] r@[a]).id)->0,
                    ) <= spec_sort_key(
                        order_mode,
                        final(self).store.spec_post((#[trigger] r@[b]).id)->0,
                    ) by {
                        let (ka, kb) = choose|ka: int, kb: int|
                            0 <= ka < kb < pids@.len() && pids@[ka] == r@[a].id && pids@[kb]
                                == r@[b].id;
                        assert(spec_sort_key(
                            order_mode,
                            pre_merge.store.spec_post(pids@[ka])->0,
                        ) <= spec_sort_key(order_mode, pre_merge.store.spec_post(pids@[kb])->0));
                    }
                }
            } else {
                assert forall|j: int|
                    0 <= j < r@.len() implies spec_contains_pid(
                    final(self).spec_list_view(room_id, order_mode),
                    (#[trigger] r@[j]).id as int,
                ) by {
                    let k = choose|k: int|
                        0 <= k < pids@.len() && spec_lookup_merged(pre_merge, pids@[k], now)
                            == Option::Some(r@[j]) && pids@[k] == r@[j].id;
                    assert(pids@[k] == pre_merge.lists@[idx as int]@[start + k].1);
                    assert(spec_contains_pid(
                        pre_merge.lists@[idx as int]@,
                        pids@[k] as int,
                    ));
                    assert(pre_merge.spec_list_view(room_id, order_mode) == pre_merge.lists@[
                        idx as int
                    ]@);
                }
            }
            let v0 = old(self).spec_list_view(room_id, order_mode);
            if crate::ranked::MIN_LENGTH as int <= v0.len() <= crate::ranked::MAX_LENGTH as int
                && start + limit <= v0.len() {
                assert(!needs);
                assert(pre_merge.lists@[idx as int]@ == v0);
                assert(pids@ =~= spec_page_pids(v0, start as int, limit as int));
                lemma_get_multi_result_congruent(pre_merge, *old(self), pids@, now);
            }
        }
        r
    }
}

/// The batched read-through result depends only on the object cache and
/// the store.
proof fn lemma_get_multi_result_congruent(f1: Forum, f2: Forum, ids: Seq<i32>, now: i64)
    requires
        f1.post_cache@ == f2.post_cache@,
        f1.store == f2.store,
    ensures
        spec_get_multi_result(f1, ids, now) == spec_get_multi_result(f2, ids, now),
    decreases ids.len(),
{
    if ids.len() > 0 {
        lemma_get_multi_result_congruent(f1, f2, ids.drop_last(), now);
    }
}

/// A live post pushed by `refresh_cache` is served by the ranked page
/// reads: every list the upsert touched contains the post's id, so the
/// page covering the whole list yields it. Together with the ensures of
/// `refresh_cache` — membership in the room-scoped and room-agnostic
/// list of every participating mode — this says a fresh, unsuppressed
/// post becomes visible in each of its ranked views.
pub proof fn lemma_ranked_page_covers(v: Seq<(i64, i32)>, pid: int)
    requires
        spec_contains_pid(v, pid),
    ensures
        exists|i: int|
            0 <= i < spec_page_pids(v, 0, v.len() as int).len() && spec_page_pids(
                v,
                0,
                v.len() as int,
            )[i] == pid,
{
    let j = choose|j: int| 0 <= j < v.len() && v[j].1 == pid;
    assert(spec_page_pids(v, 0, v.len() as int)[j] == pid);
}

/// A soft-deleted post is suppressed from every ranked view, the
/// newest-first one included: the removal path drops its entry wherever
/// it ran.
pub proof fn lemma_deleted_suppressed_everywhere(p: Post, mode: u8)
    requires
        p.is_deleted,
    ensures
        spec_suppressed(mode, p),
{
}

/// Moderation visibility: a reported but undeleted post is suppressed
/// from every ranked view except the newest-first mode 0, which retains
/// it so that moderators still see it.
pub proof fn lemma_reported_moderation_visibility(p: Post, mode: u8)
    requires
        !p.is_deleted,
        p.is_reported,
    ensures
        spec_suppressed(mode, p) <==> mode != 0,
{
}

/// What the attention toggle reports back.
#[derive(Debug, PartialEq)]
pub struct AttentionOutcome {
    pub attention: bool,
    pub n_attentions: i32,
}

/// The deltas an attention toggle applies to the post row.
pub open spec fn spec_attention_ops(switch_to: bool, p0: Post) -> Seq<PostOp> {
    seq![
        PostOp::Add(
            CounterField::NAttentions,
            if switch_to {
                1i32
            } else {
                -1i32
            },
        ),
        PostOp::Add(
            CounterField::HotScore,
            spec_attention_hot_delta(switch_to, p0.n_attentions as int, p0.n_comments as int) as i32,
        ),
    ]
}

impl Forum {
    /// Toggle the caller's attention to a post. A temporary user may
    /// not; reading a deleted post is refused for non-administrators.
    /// When the stored switch state actually changes, the attention
    /// relation, the post row's attention count and hot score, and — for
    /// an administrator switching attention on — the reported flag are
    /// updated in the store, and the fresh row is pushed into the object
    /// cache and the ranked lists. A repeated toggle in the same
    /// direction changes nothing.
    pub fn attention_post(&mut self, user: &CurrentUser, ai: &AttentionInput, now: i64) -> (r:
        Result<AttentionOutcome, ApiError>)
        requires
            old(self).wf(),
            0 <= now <= i64::MAX - INSTANCE_EXPIRE_TIME,
        ensures
            final(self).wf(),
            final(self).store.comments@ == old(self).store.comments@,
            user.id is None ==> r == Result::<AttentionOutcome, ApiError>::Err(
                ApiError::Pc(PolicyError::YouAreTmp),
            ) && *final(self) == *old(self),
            user.id is Some ==> match spec_get_result(*old(self), ai.pid, now) {
                Result::Err(e) => {
                    &&& r == Result::<AttentionOutcome, ApiError>::Err(ApiError::Db(e))
                    &&& final(self).store == old(self).store
                    &&& final(self).attentions == old(self).attentions
                    &&& final(self).lists == old(self).lists
                    &&& final(self).post_cache@ == old(self).post_cache@
                },
                Result::Ok(p0) => {
                    if !user.is_admin && p0.is_deleted {
                        &&& r == Result::<AttentionOutcome, ApiError>::Err(
                            ApiError::Pc(PolicyError::IsDeleted),
                        )
                        &&& final(self).store == old(self).store
                        &&& final(self).attentions == old(self).attentions
                        &&& final(self).lists == old(self).lists
                    } else {
                        let switch_to = ai.switch == 1;
                        let had = spec_attends(old(self).attentions, user.namehash@, ai.pid);
                        if had == switch_to {
                            &&& r == Result::<AttentionOutcome, ApiError>::Ok(
                                AttentionOutcome {
                                    attention: switch_to,
                                    n_attentions: p0.n_attentions,
                                },
                            )
                            &&& final(self).store == old(self).store
                            &&& final(self).attentions == old(self).attentions
                            &&& final(self).lists == old(self).lists
                        } else {
                            &&& spec_attends(final(self).attentions, user.namehash@, ai.pid)
                                == switch_to
                            &&& match old(self).store.spec_post(p0.id) {
                                Option::None => {
                                    &&& r == Result::<AttentionOutcome, ApiError>::Err(
                                        ApiError::Db(StoreError::NotFound),
                                    )
                                    &&& final(self).store.posts@ == old(self).store.posts@
                                },
                                Option::Some(row) => {
                                    let u1 = crate::post::spec_apply_ops(
                                        row,
                                        spec_attention_ops(switch_to, p0),
                                    );
                                    let u = if switch_to && user.is_admin {
                                        Post { is_reported: false, ..u1 }
                                    } else {
                                        u1
                                    };
                                    &&& r == Result::<AttentionOutcome, ApiError>::Ok(
                                        AttentionOutcome {
                                            attention: switch_to,
                                            n_attentions: u.n_attentions,
                                        },
                                    )
                                    &&& final(self).store.spec_post(p0.id) == Option::Some(u)
                                    &&& final(self).post_cache@.contains_key(u.id)
                                    &&& final(self).post_cache@[u.id].post == u
                                    &&& spec_refreshed(*final(self), u, false)
                                },
                            }
                        }
                    }
                },
            },
    {
        if user.id.is_none() {
            return Result::Err(ApiError::Pc(PolicyError::YouAreTmp));
        }
        let p0: Post = match self.get(ai.pid, now) {
            Result::Ok(p) => p,
            Result::Err(e) => {
                return Result::Err(ApiError::Db(e));
            }
        };
        if !user.is_admin && p0.is_deleted {
            return Result::Err(ApiError::Pc(PolicyError::IsDeleted));
        }
        let switch_to: bool = ai.switch == 1;
        let had: bool = self.attentions.has(&user.namehash, ai.pid);
        if had == switch_to {
            return Result::Ok(
                AttentionOutcome { attention: switch_to, n_attentions: p0.n_attentions },
            );
        }
        if switch_to {
            self.attentions.add(&user.namehash, ai.pid);
        } else {
            self.attentions.remove(&user.namehash, ai.pid);
        }
        let deltas: (i32, i32) = attention_deltas(switch_to, p0.n_attentions, p0.n_comments);
        let ops: Vec<PostOp> = vec![
            PostOp::Add(CounterField::NAttentions, deltas.0),
            PostOp::Add(CounterField::HotScore, deltas.1),
        ];
        proof {
            assert(ops@ =~= spec_attention_ops(switch_to, p0));
        }
        let ghost row0 = self.store.spec_post(p0.id)->0;
        let mut u: Post = match self.store.update_post(p0.id, &ops) {
            Result::Ok(row) => row,
            Result::Err(e) => {
                return Result::Err(ApiError::Db(e));
            }
        };
        proof {
            assert(u == crate::post::spec_apply_ops(row0, spec_attention_ops(switch_to, p0)));
        }
        let ghost u1g = u;
        if switch_to && user.is_admin {
            let ops2: Vec<PostOp> = vec![PostOp::SetIsReported(false)];
            u = match self.store.update_post(p0.id, &ops2) {
                Result::Ok(row) => row,
                Result::Err(_) => {
                    return Result::Err(ApiError::Db(StoreError::NotFound));
                }
            };
            proof {
                assert(ops2@[0] == PostOp::SetIsReported(false));
                assert(ops2@.skip(1) =~= Seq::<PostOp>::empty());
                assert(crate::post::spec_apply_ops(u1g, ops2@) == crate::post::spec_apply_ops(
                    crate::post::spec_apply_op(u1g, ops2@[0]),
                    ops2@.skip(1),
                ));
                assert(crate::post::spec_apply_op(u1g, ops2@[0]) == (Post {
                    is_reported: false,
                    ..u1g
                }));
                assert(u == (Post { is_reported: false, ..u1g }));
            }
        }
        let u2: Post = u.clone();
        self.refresh_cache(&u2, false, now);
        Result::Ok(AttentionOutcome { attention: switch_to, n_attentions: u.n_attentions })
    }
}

/// The deltas a fresh comment applies to its post row: the comment count
/// rises, the last-activity stamp moves to the comment's creation time,
/// and the attention count and hot score move per the commenter's
/// attention state.
pub open spec fn spec_comment_ops(already_attending: bool, p0: Post, t: i64) -> Seq<PostOp> {
    seq![
        PostOp::Add(CounterField::NComments, 1i32),
        PostOp::SetLastCommentTime(t),
        PostOp::Add(
            CounterField::NAttentions,
            spec_comment_attention_delta(already_attending) as i32,
        ),
        PostOp::Add(
            CounterField::HotScore,
            spec_comment_hot_delta(
                already_attending,
                p0.n_attentions as int,
                p0.n_comments as int,
            ) as i32,
        ),
    ]
}

/// Whether a commenting or publishing user gets their custom title shown.
pub open spec fn spec_use_title(explicit: Option<i8>, user: CurrentUser) -> bool {
    explicit is Some || user.is_admin || user.is_candidate
}

impl Forum {
    /// The comment list of a post, read through the per-post cache: a
    /// live cached list is returned as is, a miss reads the store and
    /// backfills the cache.
    pub fn get_comments(&mut self, pid: i32, now: i64) -> (r: Vec<Comment>)
        requires
            old(self).wf(),
            0 <= now <= i64::MAX - INSTANCE_EXPIRE_TIME,
        ensures
            final(self).wf(),
            r@ == (match spec_cached_comments(old(self).comment_cache@, pid, now) {
                Option::Some(cs) => cs,
                Option::None => spec_comments_of(old(self).store.comments@, pid),
            }),
            final(self).comment_cache@.contains_key(pid),
            final(self).comment_cache@[pid].comments@ == r@,
            final(self).store == old(self).store,
            final(self).post_cache == old(self).post_cache,
            final(self).user_cache == old(self).user_cache,
            final(self).lists == old(self).lists,
            final(self).systemlog == old(self).systemlog,
            final(self).attentions == old(self).attentions,
            final(self).reactions == old(self).reactions,
            final(self).block_dicts == old(self).block_dicts,
            final(self).blocked == old(self).blocked,
            final(self).counter == old(self).counter,
            final(self).ranks == old(self).ranks,
            final(self).banned == old(self).banned,
    {
        match self.comment_cache.get(pid, now) {
            Option::Some(cs) => cs,
            Option::None => {
                let cs: Vec<Comment> = self.store.comments_of_post(pid);
                self.comment_cache.set(pid, &cs, now);
                cs
            }
        }
    }

    /// Submit a comment under a post. An author may always comment under
    /// their own post; anyone else needs a registered account. The
    /// comment row is created first; then the commenter starts attending
    /// the post if they did not yet, the post row's counters move in one
    /// atomic update per the hot-score policy, the fresh row is pushed
    /// into the caches and ranked lists, and the post's cached comment
    /// list is invalidated.
    pub fn add_comment(&mut self, pid: i32, user: &CurrentUser, ci: &CommentInput, now: i64) -> (r:
        Result<Comment, ApiError>)
        requires
            old(self).wf(),
            old(self).store.comments@.len() + 1 < i32::MAX as int,
            0 <= now <= i64::MAX - INSTANCE_EXPIRE_TIME,
        ensures
            final(self).wf(),
            match spec_get_result(*old(self), pid, now) {
                Result::Err(e) => {
                    &&& r == Result::<Comment, ApiError>::Err(ApiError::Db(e))
                    &&& final(self).store == old(self).store
                    &&& final(self).attentions == old(self).attentions
                    &&& final(self).comment_cache == old(self).comment_cache
                },
                Result::Ok(p0) => {
                    if p0.author_hash@ != user.namehash@ && user.id is None {
                        &&& r == Result::<Comment, ApiError>::Err(
                            ApiError::Pc(PolicyError::YouAreTmp),
                        )
                        &&& final(self).store == old(self).store
                        &&& final(self).attentions == old(self).attentions
                        &&& final(self).comment_cache == old(self).comment_cache
                    } else {
                        let already = spec_attends(old(self).attentions, user.namehash@, p0.id);
                        let c = final(self).store.comments@.last();
                        {
                            &&& final(self).store.comments@.len() == old(
                                self,
                            ).store.comments@.len() + 1
                            &&& final(self).store.comments@.drop_last() == old(
                                self,
                            ).store.comments@
                            &&& c.id as int == old(self).store.comments@.len() + 1
                            &&& c.post_id == p0.id
                            &&& c.create_time == now
                            &&& !c.is_deleted
                            &&& c.content@ == ci.text@
                            &&& c.author_hash@ == user.namehash@
                            &&& c.is_tmp == (user.id is None)
                            &&& c.author_title@ == (if spec_use_title(ci.use_title, *user)
                                && user.custom_title is Some {
                                user.custom_title->0@
                            } else {
                                Seq::<char>::empty()
                            })
                            &&& spec_attends(final(self).attentions, user.namehash@, p0.id)
                            &&& match old(self).store.spec_post(p0.id) {
                                Option::None => r == Result::<Comment, ApiError>::Err(
                                    ApiError::Db(StoreError::NotFound),
                                ),
                                Option::Some(row) => {
                                    let u = crate::post::spec_apply_ops(
                                        row,
                                        spec_comment_ops(already, p0, now),
                                    );
                                    &&& r == Result::<Comment, ApiError>::Ok(c)
                                    &&& final(self).store.spec_post(p0.id) == Option::Some(u)
                                    &&& final(self).post_cache@.contains_key(u.id)
                                    &&& final(self).post_cache@[u.id].post == u
                                    &&& spec_refreshed(*final(self), u, false)
                                    &&& !final(self).comment_cache@.contains_key(p0.id)
                                },
                            }
                        }
                    }
                },
            },
    {
        let p0: Post = match self.get(pid, now) {
            Result::Ok(p) => p,
            Result::Err(e) => {
                return Result::Err(ApiError::Db(e));
            }
        };
        if !(p0.author_hash == user.namehash) && user.id.is_none() {
            return Result::Err(ApiError::Pc(PolicyError::YouAreTmp));
        }
        let use_title: bool = ci.use_title.is_some() || user.is_admin || user.is_candidate;
        let author_title: String = match &user.custom_title {
            Option::Some(t) => {
                if use_title {
                    t.clone()
                } else {
                    String::new()
                }
            }
            Option::None => String::new(),
        };
        let c: Comment = self.store.create_comment(
            NewComment {
                content: ci.text.clone(),
                author_hash: user.namehash.clone(),
                author_title,
                is_tmp: user.id.is_none(),
                post_id: p0.id,
            },
            now,
        );
        proof {
            assert(self.store.comments@.drop_last() =~= old(self).store.comments@);
            assert(self.store.comments@.last() == c);
        }
        let already: bool = self.attentions.has(&user.namehash, p0.id);
        if !already {
            self.attentions.add(&user.namehash, p0.id);
        }
        let deltas: (i32, i32, i32) = comment_deltas(already, p0.n_attentions, p0.n_comments);
        let ops: Vec<PostOp> = vec![
            PostOp::Add(CounterField::NComments, deltas.0),
            PostOp::SetLastCommentTime(c.create_time),
            PostOp::Add(CounterField::NAttentions, deltas.1),
            PostOp::Add(CounterField::HotScore, deltas.2),
        ];
        proof {
            assert(ops@ =~= spec_comment_ops(already, p0, now));
        }
        let ghost row0 = self.store.spec_post(p0.id)->0;
        let u: Post = match self.store.update_post(p0.id, &ops) {
            Result::Ok(row) => row,
            Result::Err(e) => {
                return Result::Err(ApiError::Db(e));
            }
        };
        proof {
            assert(u == crate::post::spec_apply_ops(row0, spec_comment_ops(already, p0, now)));
        }
        let u2: Post = u.clone();
        self.refresh_cache(&u2, false, now);
        let ghost after_refresh = *self;
        self.clear_comments_cache(p0.id);
        proof {
            lemma_views_equal_when_lists_equal(after_refresh, *self);
            assert(spec_refreshed(after_refresh, u2, false));
        }
        Result::Ok(c)
    }
}

/// What the reaction toggle reports back.
#[derive(Debug, PartialEq)]
pub struct ReactionOutcome {
    pub up_votes: i32,
    pub down_votes: i32,
    pub reaction_status: i32,
}

/// The vote-tally deltas a reaction change applies: moving to an up-vote
/// adds the up-vote if it was absent and withdraws any down-vote, and
/// symmetrically; clearing the reaction withdraws both.
pub open spec fn spec_reaction_deltas(rx: Reaction, pid: i32, h: Seq<char>, status: i32) -> (
    int,
    int,
) {
    let had_up: int = if spec_reacts(rx, pid, true, h) {
        1
    } else {
        0
    };
    let had_down: int = if spec_reacts(rx, pid, false, h) {
        1
    } else {
        0
    };
    if status == 1 {
        (1 - had_up, -had_down)
    } else if status == -1 {
        (-had_up, 1 - had_down)
    } else {
        (-had_up, -had_down)
    }
}

impl Forum {
    /// Up-vote, down-vote or clear the caller's reaction on a post. The
    /// reaction sets move first; when any tally actually changes, the
    /// post row's vote counters move in one atomic update and the fresh
    /// row is pushed into the caches and ranked lists.
    pub fn reaction(&mut self, pid: i32, user: &CurrentUser, ri: &ReactionInput, now: i64) -> (r:
        Result<ReactionOutcome, ApiError>)
        requires
            old(self).wf(),
            0 <= now <= i64::MAX - INSTANCE_EXPIRE_TIME,
        ensures
            final(self).wf(),
            final(self).store.comments@ == old(self).store.comments@,
            user.id is None ==> r == Result::<ReactionOutcome, ApiError>::Err(
                ApiError::Pc(PolicyError::YouAreTmp),
            ) && *final(self) == *old(self),
            user.id is Some ==> match spec_get_result(*old(self), pid, now) {
                Result::Err(e) => {
                    &&& r == Result::<ReactionOutcome, ApiError>::Err(ApiError::Db(e))
                    &&& final(self).store == old(self).store
                    &&& final(self).reactions == old(self).reactions
                },
                Result::Ok(p0) => {
                    if !user.is_admin && p0.is_deleted {
                        &&& r == Result::<ReactionOutcome, ApiError>::Err(
                            ApiError::Pc(PolicyError::IsDeleted),
                        )
                        &&& final(self).store == old(self).store
                        &&& final(self).reactions == old(self).reactions
                    } else {
                        let deltas = spec_reaction_deltas(
                            old(self).reactions,
                            pid,
                            user.namehash@,
                            ri.status,
                        );
                        {
                            &&& spec_reacts(final(self).reactions, pid, true, user.namehash@) == (
                            ri.status == 1)
                            &&& spec_reacts(final(self).reactions, pid, false, user.namehash@) == (
                            ri.status == -1)
                            &&& if deltas.0 == 0 && deltas.1 == 0 {
                                &&& r == Result::<ReactionOutcome, ApiError>::Ok(
                                    ReactionOutcome {
                                        up_votes: p0.up_votes,
                                        down_votes: p0.down_votes,
                                        reaction_status: ri.status,
                                    },
                                )
                                &&& final(self).store == old(self).store
                            } else {
                                match old(self).store.spec_post(p0.id) {
                                    Option::None => {
                                        &&& r == Result::<ReactionOutcome, ApiError>::Err(
                                            ApiError::Db(StoreError::NotFound),
                                        )
                                        &&& final(self).store.posts@ == old(self).store.posts@
                                    },
                                    Option::Some(row) => {
                                        let u = crate::post::spec_apply_ops(
                                            row,
                                            seq![
                                                PostOp::Add(CounterField::UpVotes, deltas.0 as i32),
                                                PostOp::Add(
                                                    CounterField::DownVotes,
                                                    deltas.1 as i32,
                                                ),
                                            ],
                                        );
                                        &&& r == Result::<ReactionOutcome, ApiError>::Ok(
                                            ReactionOutcome {
                                                up_votes: u.up_votes,
                                                down_votes: u.down_votes,
                                                reaction_status: ri.status,
                                            },
                                        )
                                        &&& final(self).store.spec_post(p0.id) == Option::Some(u)
                                        &&& final(self).post_cache@.contains_key(u.id)
                                        &&& final(self).post_cache@[u.id].post == u
                                        &&& spec_refreshed(*final(self), u, false)
                                    },
                                }
                            }
                        }
                    }
                },
            },
    {
        if user.id.is_none() {
            return Result::Err(ApiError::Pc(PolicyError::YouAreTmp));
        }
        let p0: Post = match self.get(pid, now) {
            Result::Ok(p) => p,
            Result::Err(e) => {
                return Result::Err(ApiError::Db(e));
            }
        };
        if !user.is_admin && p0.is_deleted {
            return Result::Err(ApiError::Pc(PolicyError::IsDeleted));
        }
        let mut delta_up: i32 = 0;
        let mut delta_down: i32 = 0;
        if ri.status == 1 {
            delta_up = self.reactions.add(pid, true, &user.namehash) as i32;
            delta_down = -(self.reactions.rem(pid, false, &user.namehash) as i32);
        } else if ri.status == -1 {
            delta_up = -(self.reactions.rem(pid, true, &user.namehash) as i32);
            delta_down = self.reactions.add(pid, false, &user.namehash) as i32;
        } else {
            delta_up = -(self.reactions.rem(pid, true, &user.namehash) as i32);
            delta_down = -(self.reactions.rem(pid, false, &user.namehash) as i32);
        }
        if delta_up == 0 && delta_down == 0 {
            return Result::Ok(
                ReactionOutcome {
                    up_votes: p0.up_votes,
                    down_votes: p0.down_votes,
                    reaction_status: ri.status,
                },
            );
        }
        let ops: Vec<PostOp> = vec![
            PostOp::Add(CounterField::UpVotes, delta_up),
            PostOp::Add(CounterField::DownVotes, delta_down),
        ];
        let ghost row0 = self.store.spec_post(p0.id)->0;
        let u: Post = match self.store.update_post(p0.id, &ops) {
            Result::Ok(row) => row,
            Result::Err(e) => {
                return Result::Err(ApiError::Db(e));
            }
        };
        proof {
            assert(ops@ =~= seq![
                PostOp::Add(
                    CounterField::UpVotes,
                    spec_reaction_deltas(old(self).reactions, pid, user.namehash@, ri.status).0
                        as i32,
                ),
                PostOp::Add(
                    CounterField::DownVotes,
                    spec_reaction_deltas(old(self).reactions, pid, user.namehash@, ri.status).1
                        as i32,
                ),
            ]);
        }
        let u2: Post = u.clone();
        self.refresh_cache(&u2, false, now);
        Result::Ok(
            ReactionOutcome {
                up_votes: u.up_votes,
                down_votes: u.down_votes,
                reaction_status: ri.status,
            },
        )
    }

    /// Change a post's content-warning label: the author's privilege, or
    /// an administrator's.
    pub fn edit_cw(&mut self, user: &CurrentUser, cwi: &CwInput, now: i64) -> (r: Result<
        Post,
        ApiError,
    >)
        requires
            old(self).wf(),
            0 <= now <= i64::MAX - INSTANCE_EXPIRE_TIME,
        ensures
            final(self).wf(),
            final(self).store.comments@ == old(self).store.comments@,
            match spec_get_result(*old(self), cwi.pid, now) {
                Result::Err(e) => {
                    &&& r == Result::<Post, ApiError>::Err(ApiError::Db(e))
                    &&& final(self).store == old(self).store
                },
                Result::Ok(p0) => {
                    if !user.is_admin && p0.author_hash@ != user.namehash@ {
                        &&& r == Result::<Post, ApiError>::Err(
                            ApiError::Pc(PolicyError::NotAllowed),
                        )
                        &&& final(self).store == old(self).store
                    } else {
                        match old(self).store.spec_post(p0.id) {
                            Option::None => {
                                &&& r == Result::<Post, ApiError>::Err(
                                    ApiError::Db(StoreError::NotFound),
                                )
                                &&& final(self).store.posts@ == old(self).store.posts@
                            },
                            Option::Some(row) => {
                                let u = Post { cw: r->Ok_0.cw, ..row };
                                {
                                    &&& r is Ok
                                    &&& r->Ok_0 == u
                                    &&& r->Ok_0.cw@ == cwi.cw@
                                    &&& final(self).store.spec_post(p0.id) == Option::Some(u)
                                    &&& final(self).post_cache@.contains_key(u.id)
                                    &&& final(self).post_cache@[u.id].post == u
                                    &&& spec_refreshed(*final(self), u, false)
                                }
                            },
                        }
                    }
                },
            },
    {
        let p0: Post = match self.get(cwi.pid, now) {
            Result::Ok(p) => p,
            Result::Err(e) => {
                return Result::Err(ApiError::Db(e));
            }
        };
        if !user.is_admin && !(p0.author_hash == user.namehash) {
            return Result::Err(ApiError::Pc(PolicyError::NotAllowed));
        }
        let ops: Vec<PostOp> = vec![PostOp::SetCw(cwi.cw.clone())];
        let ghost row0 = self.store.spec_post(p0.id)->0;
        let u: Post = match self.store.update_post(p0.id, &ops) {
            Result::Ok(row) => row,
            Result::Err(e) => {
                return Result::Err(ApiError::Db(e));
            }
        };
        proof {
            assert(ops@[0] == PostOp::SetCw(cwi.cw));
            assert(ops@.skip(1) =~= Seq::<PostOp>::empty());
            let step = crate::post::spec_apply_op(row0, ops@[0]);
            assert(crate::post::spec_apply_ops(row0, ops@) == crate::post::spec_apply_ops(
                step,
                ops@.skip(1),
            ));
            assert(crate::post::spec_apply_ops(step, Seq::<PostOp>::empty()) == step);
            assert(step == (Post { cw: cwi.cw, ..row0 }));
            assert(u == (Post { cw: cwi.cw, ..row0 }));
        }
        let u2: Post = u.clone();
        self.refresh_cache(&u2, false, now);
        Result::Ok(u)
    }

    /// Publish a post: the store assigns the serial id and timestamps,
    /// the author starts attending their own post, and the fresh row
    /// enters the object cache and every ranked list a new post
    /// participates in.
    pub fn publish_post(&mut self, user: &CurrentUser, poi: &PostInput, now: i64) -> (r: Post)
        requires
            old(self).wf(),
            old(self).store.posts@.len() + 1 < i32::MAX as int,
            0 <= now <= i64::MAX - INSTANCE_EXPIRE_TIME,
        ensures
            final(self).wf(),
            final(self).store.comments@ == old(self).store.comments@,
            final(self).store.posts@ == old(self).store.posts@.push(r),
            r.id as int == old(self).store.posts@.len() + 1,
            r.content@ == poi.text@,
            r.cw@ == poi.cw@,
            r.author_hash@ == user.namehash@,
            r.author_title@ == (if spec_use_title(poi.use_title, *user) && user.custom_title
                is Some {
                user.custom_title->0@
            } else {
                Seq::<char>::empty()
            }),
            r.is_tmp == (user.id is None),
            r.n_attentions == 1,
            r.n_comments == 0,
            r.hot_score == 0,
            r.create_time == now,
            r.last_comment_time == now,
            !r.is_deleted,
            !r.is_reported,
            r.allow_search == (poi.allow_search is Some),
            r.room_id == (match poi.room_id {
                Option::Some(ri) => ri,
                Option::None => 0,
            }),
            spec_attends(final(self).attentions, user.namehash@, r.id),
            final(self).post_cache@.contains_key(r.id),
            final(self).post_cache@[r.id].post == r,
            spec_refreshed(*final(self), r, true),
    {
        let use_title: bool = poi.use_title.is_some() || user.is_admin || user.is_candidate;
        let author_title: String = match &user.custom_title {
            Option::Some(t) => {
                if use_title {
                    t.clone()
                } else {
                    String::new()
                }
            }
            Option::None => String::new(),
        };
        let room_id: i32 = match poi.room_id {
            Option::Some(ri) => ri,
            Option::None => 0,
        };
        let p: Post = self.store.create_post(
            NewPost {
                content: poi.text.clone(),
                cw: poi.cw.clone(),
                author_hash: user.namehash.clone(),
                author_title,
                is_tmp: user.id.is_none(),
                n_attentions: 1,
                allow_search: poi.allow_search.is_some(),
                room_id,
            },
            now,
        );
        self.attentions.add(&user.namehash, p.id);
        let p2: Post = p.clone();
        self.refresh_cache(&p2, true, now);
        p
    }
}

/// Whether a moderation note asks for a ban of the content's author.
pub open spec fn spec_note_requests_ban(note: Seq<char>) -> bool {
    note.len() >= 5 && note.subrange(0, 5) == "!ban "@
}

/// Whether the admin tail of the delete flow writes a log entry.
pub open spec fn spec_admin_logging(user: CurrentUser, author_hash: Seq<char>) -> bool {
    user.is_admin && user.namehash@ != author_hash
}

fn note_requests_ban(note: &String) -> (r: bool)
    ensures
        r == spec_note_requests_ban(note@),
{
    let n: usize = note.as_str().unicode_len();
    if n >= 5 {
        let pre: &str = note.as_str().substring_char(0, 5);
        let prefix: String = String::from_str("!ban ");
        pre.to_owned() == prefix
    } else {
        false
    }
}

impl Forum {
    /// The shared tail of the delete flow: an administrator deleting
    /// someone else's content leaves a moderation log entry, and a note
    /// beginning with the ban keyword additionally suspends the author.
    fn admin_delete_tail(&mut self, user: &CurrentUser, di: &DeleteInput, author_hash: &String, now: i64)
        requires
            old(self).wf(),
        ensures
            final(self).wf(),
            spec_admin_logging(*user, author_hash@) && spec_note_requests_ban(di.note@) ==> {
                &&& final(self).banned@.contains_key(author_hash@)
                &&& final(self).systemlog@.len() >= 2
                &&& final(self).systemlog@[0].action_type == LogType::Ban
                &&& final(self).systemlog@[1].action_type == LogType::AdminDelete
            },
            spec_admin_logging(*user, author_hash@) && !spec_note_requests_ban(di.note@) ==> {
                &&& final(self).banned == old(self).banned
                &&& final(self).systemlog@.len() >= 1
                &&& final(self).systemlog@[0].action_type == LogType::AdminDelete
                &&& final(self).systemlog@[0].user_hash@ == user.namehash@
            },
            !spec_admin_logging(*user, author_hash@) ==> final(self).banned == old(self).banned
                && final(self).systemlog == old(self).systemlog,
            final(self).store == old(self).store,
            final(self).post_cache == old(self).post_cache,
            final(self).comment_cache == old(self).comment_cache,
            final(self).user_cache == old(self).user_cache,
            final(self).lists == old(self).lists,
            final(self).attentions == old(self).attentions,
            final(self).reactions == old(self).reactions,
            final(self).block_dicts == old(self).block_dicts,
            final(self).blocked == old(self).blocked,
            final(self).counter == old(self).counter,
            final(self).ranks == old(self).ranks,
    {
        if user.is_admin && !(user.namehash == *author_hash) {
            let mut target: String = String::from_str("#");
            target.append(i32_to_string(di.id).as_str());
            target.append(", ");
            target.append(di.id_type.as_str());
            self.systemlog.create(
                Systemlog {
                    user_hash: user.namehash.clone(),
                    action_type: LogType::AdminDelete,
                    target,
                    detail: di.note.clone(),
                    time: now,
                },
            );
            if note_requests_ban(&di.note) {
                self.systemlog.create(
                    Systemlog {
                        user_hash: user.namehash.clone(),
                        action_type: LogType::Ban,
                        target: author_hash.clone(),
                        detail: di.note.clone(),
                        time: now,
                    },
                );
                self.banned.add(author_hash);
            }
        }
    }

    /// Soft-delete a post or a comment. The author may delete their own
    /// content — a post that already drew comments has its body blanked
    /// instead of disappearing — and an administrator may delete
    /// anything, leaving a moderation log entry and, on request,
    /// suspending the author. The owning post's counters and every cache
    /// it sits in are refreshed; a deleted post leaves all ranked lists,
    /// the newest-first one included.
    pub fn delete(&mut self, user: &CurrentUser, di: &DeleteInput, now: i64) -> (r: Result<
        (),
        ApiError,
    >)
        requires
            old(self).wf(),
            0 <= now <= i64::MAX - INSTANCE_EXPIRE_TIME,
        ensures
            final(self).wf(),
            di.id_type@ != "cid"@ && di.id_type@ != "pid"@ ==> r == Result::<(), ApiError>::Err(
                ApiError::Pc(PolicyError::NotAllowed),
            ) && *final(self) == *old(self),
            di.id_type@ == "cid"@ ==> match old(self).store.spec_comment(di.id) {
                Option::None => r == Result::<(), ApiError>::Err(ApiError::Db(StoreError::NotFound))
                    && *final(self) == *old(self),
                Option::Some(c0) => match spec_check_permission(
                    user.is_admin,
                    user.namehash@,
                    c0.author_hash@,
                    c0.is_deleted,
                    false,
                    true,
                    PermissionCheck { read: true, report_guard: false, write: true, delete: true },
                ) {
                    Result::Err(e) => r == Result::<(), ApiError>::Err(ApiError::Pc(e))
                        && *final(self) == *old(self),
                    Result::Ok(_) => {
                        &&& final(self).store.comments@ == old(self).store.comments@.update(
                            di.id - 1,
                            Comment { is_deleted: true, ..c0 },
                        )
                        &&& match spec_get_result(*old(self), c0.post_id, now) {
                            Result::Err(e) => r == Result::<(), ApiError>::Err(ApiError::Db(e)),
                            Result::Ok(p0) => match old(self).store.spec_post(p0.id) {
                                Option::None => r == Result::<(), ApiError>::Err(
                                    ApiError::Db(StoreError::NotFound),
                                ),
                                Option::Some(row) => {
                                    let u = crate::post::spec_apply_ops(
                                        row,
                                        seq![
                                            PostOp::Add(CounterField::NComments, -1i32),
                                            PostOp::Add(CounterField::HotScore, -1i32),
                                        ],
                                    );
                                    &&& r == Result::<(), ApiError>::Ok(())
                                    &&& final(self).store.spec_post(p0.id) == Option::Some(u)
                                    &&& final(self).post_cache@.contains_key(u.id)
                                    &&& final(self).post_cache@[u.id].post == u
                                    &&& !final(self).comment_cache@.contains_key(p0.id)
                                    &&& (spec_admin_logging(*user, c0.author_hash@)
                                        && spec_note_requests_ban(di.note@) ==> final(self).banned@.contains_key(c0.author_hash@))
                                },
                            },
                        }
                    },
                },
            },
            di.id_type@ == "pid"@ && di.id_type@ != "cid"@ ==> match spec_get_result(
                *old(self),
                di.id,
                now,
            ) {
                Result::Err(e) => {
                    &&& r == Result::<(), ApiError>::Err(ApiError::Db(e))
                    &&& final(self).store == old(self).store
                },
                Result::Ok(p0) => {
                    if p0.author_hash@ == user.namehash@ && p0.n_comments > 0 {
                        match old(self).store.spec_post(p0.id) {
                            Option::None => r == Result::<(), ApiError>::Err(
                                ApiError::Db(StoreError::NotFound),
                            ),
                            Option::Some(row) => {
                                let u = final(self).store.spec_post(p0.id)->0;
                                {
                                    &&& r == Result::<(), ApiError>::Ok(())
                                    &&& final(self).store.spec_post(p0.id) is Some
                                    &&& u == (Post { content: u.content, ..row })
                                    &&& u.content@ == "[洞主已删除]"@
                                    &&& spec_refreshed(*final(self), u, true)
                                }
                            },
                        }
                    } else {
                        match spec_check_permission(
                            user.is_admin,
                            user.namehash@,
                            p0.author_hash@,
                            p0.is_deleted,
                            false,
                            p0.spec_deletable(),
                            PermissionCheck {
                                read: true,
                                report_guard: false,
                                write: true,
                                delete: true,
                            },
                        ) {
                            Result::Err(e) => {
                                &&& r == Result::<(), ApiError>::Err(ApiError::Pc(e))
                                &&& final(self).store == old(self).store
                            },
                            Result::Ok(_) => match old(self).store.spec_post(p0.id) {
                                Option::None => r == Result::<(), ApiError>::Err(
                                    ApiError::Db(StoreError::NotFound),
                                ),
                                Option::Some(row) => {
                                    let u = Post { is_deleted: true, ..row };
                                    {
                                        &&& r == Result::<(), ApiError>::Ok(())
                                        &&& final(self).store.spec_post(p0.id) == Option::Some(u)
                                        &&& spec_refreshed(*final(self), u, true)
                                        &&& (spec_admin_logging(*user, p0.author_hash@)
                                            && spec_note_requests_ban(di.note@) ==> final(self).banned@.contains_key(p0.author_hash@))
                                    }
                                },
                            },
                        }
                    }
                },
            },
    {
        let cid_type: String = String::from_str("cid");
        let pid_type: String = String::from_str("pid");
        if di.id_type == cid_type {
            let c0: Comment = match self.store.get_comment(di.id) {
                Option::Some(c) => c,
                Option::None => {
                    return Result::Err(ApiError::Db(StoreError::NotFound));
                }
            };
            let m = PermissionCheck { read: true, report_guard: false, write: true, delete: true };
            match c0.check_permission(user, m) {
                Result::Ok(_) => {}
                Result::Err(e) => {
                    return Result::Err(ApiError::Pc(e));
                }
            }
            let c1: Result<Comment, StoreError> = self.store.set_comment_deleted(di.id);
            proof {
                assert(c1 is Ok);
            }
            let p0: Post = match self.get(c0.post_id, now) {
                Result::Ok(p) => p,
                Result::Err(e) => {
                    return Result::Err(ApiError::Db(e));
                }
            };
            let ops: Vec<PostOp> = vec![
                PostOp::Add(CounterField::NComments, -1),
                PostOp::Add(CounterField::HotScore, -1),
            ];
            let u: Post = match self.store.update_post(p0.id, &ops) {
                Result::Ok(row) => row,
                Result::Err(e) => {
                    return Result::Err(ApiError::Db(e));
                }
            };
            let u2: Post = u.clone();
            self.refresh_cache(&u2, false, now);
            let ghost after_refresh = *self;
            self.clear_comments_cache(p0.id);
            self.admin_delete_tail(user, di, &c0.author_hash, now);
            proof {
                lemma_views_equal_when_lists_equal(after_refresh, *self);
            }
            Result::Ok(())
        } else if di.id_type == pid_type {
            let p0: Post = match self.get(di.id, now) {
                Result::Ok(p) => p,
                Result::Err(e) => {
                    return Result::Err(ApiError::Db(e));
                }
            };
            let u: Post;
            let ghost row0 = self.store.spec_post(p0.id)->0;
            if p0.author_hash == user.namehash && p0.n_comments > 0 {
                let marker: String = String::from_str("[洞主已删除]");
                let ghost markerg = marker;
                let ops: Vec<PostOp> = vec![PostOp::SetContent(marker)];
                u = match self.store.update_post(p0.id, &ops) {
                    Result::Ok(row) => row,
                    Result::Err(e) => {
                        return Result::Err(ApiError::Db(e));
                    }
                };
                proof {
                    assert(ops@.skip(1) =~= Seq::<PostOp>::empty());
                    assert(ops@[0] == PostOp::SetContent(markerg));
                    let step = crate::post::spec_apply_op(row0, ops@[0]);
                    assert(crate::post::spec_apply_ops(row0, ops@) == crate::post::spec_apply_ops(
                        step,
                        ops@.skip(1),
                    ));
                    assert(crate::post::spec_apply_ops(step, Seq::<PostOp>::empty()) == step);
                    assert(u == (Post { content: markerg, ..row0 }));
                }
            } else {
                let m = PermissionCheck {
                    read: true,
                    report_guard: false,
                    write: true,
                    delete: true,
                };
                match p0.check_permission(user, m) {
                    Result::Ok(_) => {}
                    Result::Err(e) => {
                        return Result::Err(ApiError::Pc(e));
                    }
                }
                let ops: Vec<PostOp> = vec![PostOp::SetIsDeleted(true)];
                u = match self.store.update_post(p0.id, &ops) {
                    Result::Ok(row) => row,
                    Result::Err(e) => {
                        return Result::Err(ApiError::Db(e));
                    }
                };
                proof {
                    assert(ops@.skip(1) =~= Seq::<PostOp>::empty());
                    assert(ops@[0] == PostOp::SetIsDeleted(true));
                    let step = crate::post::spec_apply_op(row0, ops@[0]);
                    assert(crate::post::spec_apply_ops(row0, ops@) == crate::post::spec_apply_ops(
                        step,
                        ops@.skip(1),
                    ));
                    assert(crate::post::spec_apply_ops(step, Seq::<PostOp>::empty()) == step);
                    assert(u == (Post { is_deleted: true, ..row0 }));
                }
            }
            let u2: Post = u.clone();
            self.refresh_cache(&u2, true, now);
            let ghost after_refresh = *self;
            self.admin_delete_tail(user, di, &p0.author_hash, now);
            proof {
                lemma_views_equal_when_lists_equal(after_refresh, *self);
                assert(spec_refreshed(after_refresh, u2, true));
            }
            Result::Ok(())
        } else {
            Result::Err(ApiError::Pc(PolicyError::NotAllowed))
        }
    }
}

/// The body of the auto-published report post: a fixed prologue, the
/// reported post's id, and the reporter's reason.
pub open spec fn spec_report_content(pid: i32, reason: Seq<char>) -> Seq<char> {
    "[系统自动代发]\n我举报了 #"@ + spec_dec_i32(pid as int) + "\n理由: "@ + reason
}

impl Forum {
    /// Report a post for moderation. Temporary users, and users whose
    /// own content was blocked ten or more times, may not report; a
    /// reason is mandatory. On request the target is hidden: its
    /// reported flag is set and it leaves every ranked view except the
    /// newest-first one. A moderation log entry is written and a system
    /// post announcing the report is published into the report room,
    /// with the reporter attending it.
    pub fn report(&mut self, user: &CurrentUser, ri: &ReportInput, now: i64) -> (r: Result<
        Post,
        ApiError,
    >)
        requires
            old(self).wf(),
            old(self).store.posts@.len() + 1 < i32::MAX as int,
            0 <= now <= i64::MAX - INSTANCE_EXPIRE_TIME,
        ensures
            final(self).wf(),
            user.id is None ==> r == Result::<Post, ApiError>::Err(
                ApiError::Pc(PolicyError::NotAllowed),
            ) && *final(self) == *old(self),
            user.id is Some && crate::block::spec_block_count(old(self).counter, user.namehash@)
                >= 10 ==> r == Result::<Post, ApiError>::Err(ApiError::Pc(PolicyError::NotAllowed))
                && *final(self) == *old(self),
            user.id is Some && crate::block::spec_block_count(old(self).counter, user.namehash@)
                < 10 && ri.reason@.len() == 0 ==> r == Result::<Post, ApiError>::Err(
                ApiError::Pc(PolicyError::NoReason),
            ) && *final(self) == *old(self),
            user.id is Some && crate::block::spec_block_count(old(self).counter, user.namehash@)
                < 10 && ri.reason@.len() > 0 ==> match spec_get_result(*old(self), ri.pid, now) {
                Result::Err(e) => {
                    &&& r == Result::<Post, ApiError>::Err(ApiError::Db(e))
                    &&& final(self).store == old(self).store
                },
                Result::Ok(p0) => {
                    let hide = ri.should_hide is Some;
                    {
                        &&& (hide ==> match old(self).store.spec_post(p0.id) {
                            Option::None => r == Result::<Post, ApiError>::Err(
                                ApiError::Db(StoreError::NotFound),
                            ),
                            Option::Some(row) => final(self).store.spec_post(p0.id)
                                == Option::Some(Post { is_reported: true, ..row }),
                        })
                        &&& (r is Ok ==> {
                            let np = r->Ok_0;
                            {
                                &&& final(self).store.posts@.last() == np
                                &&& np.id as int == old(self).store.posts@.len() + 1
                                &&& np.room_id == 42
                                &&& np.n_attentions == 1
                                &&& !np.is_deleted
                                &&& !np.is_reported
                                &&& np.author_hash@ == user.namehash@
                                &&& np.content@ == spec_report_content(p0.id, ri.reason@)
                                &&& np.cw@ == "举报"@
                                &&& spec_attends(final(self).attentions, user.namehash@, np.id)
                                &&& spec_refreshed(*final(self), np, true)
                                &&& final(self).systemlog@.len() >= 1
                                &&& final(self).systemlog@[0].action_type == LogType::Report
                                &&& final(self).systemlog@[0].user_hash@ == user.namehash@
                            }
                        })
                        &&& (hide && old(self).store.spec_post(p0.id) is None ==> r is Err)
                        &&& (!(hide && old(self).store.spec_post(p0.id) is None) ==> r is Ok)
                    }
                },
            },
    {
        if user.id.is_none() {
            return Result::Err(ApiError::Pc(PolicyError::NotAllowed));
        }
        let cnt: i32 = match self.counter.get_count(&user.namehash) {
            Option::Some(c) => c,
            Option::None => 0,
        };
        if cnt >= 10 {
            return Result::Err(ApiError::Pc(PolicyError::NotAllowed));
        }
        if ri.reason.as_str().is_empty() {
            return Result::Err(ApiError::Pc(PolicyError::NoReason));
        }
        let p0: Post = match self.get(ri.pid, now) {
            Result::Ok(p) => p,
            Result::Err(e) => {
                return Result::Err(ApiError::Db(e));
            }
        };
        if ri.should_hide.is_some() {
            let ops: Vec<PostOp> = vec![PostOp::SetIsReported(true)];
            let ghost row0 = self.store.spec_post(p0.id)->0;
            let u: Post = match self.store.update_post(p0.id, &ops) {
                Result::Ok(row) => row,
                Result::Err(e) => {
                    return Result::Err(ApiError::Db(e));
                }
            };
            proof {
                assert(ops@.skip(1) =~= Seq::<PostOp>::empty());
                assert(ops@[0] == PostOp::SetIsReported(true));
                let step = crate::post::spec_apply_op(row0, ops@[0]);
                assert(crate::post::spec_apply_ops(row0, ops@) == crate::post::spec_apply_ops(
                    step,
                    ops@.skip(1),
                ));
                assert(crate::post::spec_apply_ops(step, Seq::<PostOp>::empty()) == step);
                assert(u == (Post { is_reported: true, ..row0 }));
            }
            let u2: Post = u.clone();
            self.refresh_cache(&u2, false, now);
        }
        let mut target: String = String::from_str("#");
        target.append(i32_to_string(ri.pid).as_str());
        self.systemlog.create(
            Systemlog {
                user_hash: user.namehash.clone(),
                action_type: LogType::Report,
                target,
                detail: ri.reason.clone(),
                time: now,
            },
        );
        let mut content: String = String::from_str("[系统自动代发]\n我举报了 #");
        content.append(i32_to_string(p0.id).as_str());
        content.append("\n理由: ");
        content.append(ri.reason.as_str());
        proof {
            assert(content@ == spec_report_content(p0.id, ri.reason@));
        }
        let np: Post = self.store.create_post(
            NewPost {
                content,
                cw: String::from_str("举报"),
                author_hash: user.namehash.clone(),
                author_title: String::new(),
                is_tmp: false,
                n_attentions: 1,
                allow_search: true,
                room_id: 42,
            },
            now,
        );
        self.attentions.add(&user.namehash, np.id);
        let np2: Post = np.clone();
        self.refresh_cache(&np2, true, now);
        Result::Ok(np)
    }
}

impl Forum {
    /// Look the user behind a login token up, read-through the per-token
    /// cache. A token presented in hashed form is first normalized, so
    /// the raw secret is neither stored nor used as a cache key. A miss
    /// reads the store and backfills the cache; an unknown token yields
    /// nothing.
    pub fn get_by_token(&mut self, token: &String, now: i64) -> (r: Option<User>)
        requires
            old(self).wf(),
            0 <= now <= i64::MAX - INSTANCE_EXPIRE_TIME,
        ensures
            final(self).wf(),
            r == (match spec_cached_user(
                old(self).user_cache@,
                spec_normalize_token(token@),
                now,
            ) {
                Option::Some(u) => Option::Some(u),
                Option::None => spec_user_by_token(
                    old(self).store.users@,
                    spec_normalize_token(token@),
                ),
            }),
            final(self).store == old(self).store,
            final(self).post_cache == old(self).post_cache,
            final(self).comment_cache == old(self).comment_cache,
            final(self).lists == old(self).lists,
            final(self).systemlog == old(self).systemlog,
            final(self).attentions == old(self).attentions,
            final(self).reactions == old(self).reactions,
            final(self).block_dicts == old(self).block_dicts,
            final(self).blocked == old(self).blocked,
            final(self).counter == old(self).counter,
            final(self).ranks == old(self).ranks,
            final(self).banned == old(self).banned,
    {
        let actual: String = normalize_token(token);
        match self.user_cache.get(&actual, now) {
            Option::Some(u) => Option::Some(u),
            Option::None => {
                match self.store.get_user_by_token(&actual) {
                    Option::Some(u) => {
                        self.user_cache.set(&actual, &u, now);
                        Option::Some(u)
                    }
                    Option::None => Option::None,
                }
            }
        }
    }

    /// Drop every non-administrator account and purge the whole
    /// per-token cache, as done at process start.
    pub fn clear_non_admin_users(&mut self)
        requires
            old(self).wf(),
        ensures
            final(self).wf(),
            final(self).store.users@ == spec_admins_of(old(self).store.users@),
            final(self).store.posts@ == old(self).store.posts@,
            final(self).store.comments@ == old(self).store.comments@,
            final(self).user_cache@ =~= Map::<Seq<char>, crate::object_cache::UserEntry>::empty(),
            final(self).post_cache == old(self).post_cache,
            final(self).comment_cache == old(self).comment_cache,
            final(self).lists == old(self).lists,
            final(self).systemlog == old(self).systemlog,
            final(self).attentions == old(self).attentions,
            final(self).reactions == old(self).reactions,
            final(self).block_dicts == old(self).block_dicts,
            final(self).blocked == old(self).blocked,
            final(self).counter == old(self).counter,
            final(self).ranks == old(self).ranks,
            final(self).banned == old(self).banned,
    {
        self.store.clear_non_admin_users();
        self.user_cache.clear_all();
    }
}

/// How long the cached registered-user count stays valid.
pub const USER_COUNT_EXPIRE_TIME: i64 = 300;

/// A small cache in front of the store's account count.
pub struct UserCountCache {
    pub value: i64,
    pub expires_at: i64,
}

impl UserCountCache {
    pub fn init() -> (r: Self)
        ensures
            r.expires_at == 0,
    {
        UserCountCache { value: 0, expires_at: 0 }
    }
}

/// The registered-user count, served from the short-lived cache while it
/// is alive and recounted from the store otherwise.
pub fn cached_user_count(cache: &mut UserCountCache, store: &Store, now: i64) -> (r: i64)
    requires
        store.wf(),
        0 <= now <= i64::MAX - USER_COUNT_EXPIRE_TIME,
    ensures
        now < old(cache).expires_at ==> r == old(cache).value && *final(cache) == *old(cache),
        now >= old(cache).expires_at ==> {
            &&& r == store.users@.len()
            &&& final(cache).value == r
            &&& final(cache).expires_at == now + USER_COUNT_EXPIRE_TIME
        },
{
    if now < cache.expires_at {
        cache.value
    } else {
        let v: i64 = store.get_count();
        cache.value = v;
        cache.expires_at = now + USER_COUNT_EXPIRE_TIME;
        v
    }
}

/// Sort post ids into descending order in place; the ids present do not
/// change.
fn sort_pids_desc(v: &mut Vec<i32>)
    ensures
        final(v)@.len() == old(v)@.len(),
        forall|a: int, b: int| 0 <= a < b < final(v)@.len() ==> final(v)@[a] >= final(v)@[b],
        forall|x: i32| final(v)@.contains(x) <==> old(v)@.contains(x),
{
    let n: usize = v.len();
    let mut i: usize = 0;
    while i < n
        invariant
            i <= n,
            n == v@.len(),
            forall|a: int, b: int| 0 <= a < b < i ==> v@[a] >= v@[b],
            forall|a: int, b: int| 0 <= a < i && i <= b < n ==> v@[a] >= v@[b],
            forall|x: i32| v@.contains(x) <==> old(v)@.contains(x),
        decreases n - i,
    {
        let ghost pre = v@;
        let mut best: usize = i;
        let mut j: usize = i + 1;
        while j < n
            invariant
                i <= best < j <= n,
                n == v@.len(),
                v@ == pre,
                forall|k: int| i as int <= k < j ==> v@[best as int] >= v@[k],
            decreases n - j,
        {
            if v[j] > v[best] {
                best = j;
            }
            j += 1;
        }
        let vi: i32 = v[i];
        let vb: i32 = v[best];
        v[i] = vb;
        v[best] = vi;
        proof {
            assert(v@ =~= pre.update(i as int, vb).update(best as int, vi));
            assert forall|x: i32| v@.contains(x) <==> pre.contains(x) by {
                if v@.contains(x) {
                    let k = choose|k: int| 0 <= k < v@.len() && v@[k] == x;
                    if k == i as int {
                        assert(pre[best as int] == x);
                    } else if k == best as int {
                        assert(pre[i as int] == x);
                    } else {
                        assert(pre[k] == x);
                    }
                    assert(pre.contains(x));
                }
                if pre.contains(x) {
                    let k = choose|k: int| 0 <= k < pre.len() && pre[k] == x;
                    if k == i as int {
                        assert(v@[best as int] == x);
                    } else if k == best as int {
                        assert(v@[i as int] == x);
                    } else {
                        assert(v@[k] == x);
                    }
                    assert(v@.contains(x));
                }
            }
        }
        i += 1;
    }
}

impl Forum {
    /// Every post the caller attends, newest id first, resolved through
    /// the batched read-through; deleted posts drop out, and every
    /// attended post whose merged lookup is live appears.
    pub fn get_attention(&mut self, user: &CurrentUser, now: i64) -> (r: Vec<Post>)
        requires
            old(self).wf(),
            0 <= now <= i64::MAX - INSTANCE_EXPIRE_TIME,
        ensures
            final(self).wf(),
            forall|j: int| 0 <= j < r@.len() ==> !(#[trigger] r@[j]).is_deleted && r@[j].wf(),
            forall|j: int|
                0 <= j < r@.len() ==> spec_attends(
                    old(self).attentions,
                    user.namehash@,
                    (#[trigger] r@[j]).id,
                ),
            forall|pid: i32|
                spec_attends(old(self).attentions, user.namehash@, pid) && (
                #[trigger] spec_lookup_merged(*old(self), pid, now)) is Some
                    && !spec_lookup_merged(*old(self), pid, now)->0.is_deleted ==> exists|j: int|
                    0 <= j < r@.len() && r@[j] == spec_lookup_merged(*old(self), pid, now)->0,
            final(self).store == old(self).store,
            final(self).attentions == old(self).attentions,
            final(self).lists == old(self).lists,
    {
        let mut ids: Vec<i32> = self.attentions.all(&user.namehash);
        sort_pids_desc(&mut ids);
        let ghost sorted_ids = ids@;
        let r: Vec<Post> = self.get_multi(&ids, now);
        proof {
            lemma_get_multi_member(*old(self), sorted_ids, now);
            lemma_get_multi_complete(*old(self), sorted_ids, now);
            assert forall|pid: i32|
                spec_attends(old(self).attentions, user.namehash@, pid) && (
                #[trigger] spec_lookup_merged(*old(self), pid, now)) is Some
                    && !spec_lookup_merged(*old(self), pid, now)->0.is_deleted implies exists|
                j: int,
            |
                0 <= j < r@.len() && r@[j] == spec_lookup_merged(*old(self), pid, now)->0 by {
                assert(sorted_ids.contains(pid));
                let k = choose|k: int| 0 <= k < sorted_ids.len() && sorted_ids[k] == pid;
                assert(spec_lookup_merged(*old(self), sorted_ids[k], now) is Some);
                assert(r@.contains(spec_lookup_merged(*old(self), pid, now)->0));
                let j = choose|j: int|
                    0 <= j < r@.len() && r@[j] == spec_lookup_merged(*old(self), pid, now)->0;
                assert(0 <= j < r@.len() && r@[j] == spec_lookup_merged(*old(self), pid, now)->0);
            }
            assert forall|j: int|
                0 <= j < r@.len() implies spec_attends(
                old(self).attentions,
                user.namehash@,
                (#[trigger] r@[j]).id,
            ) by {
                assert(exists|k: int|
                    0 <= k < sorted_ids.len() && spec_lookup_merged(
                        *old(self),
                        sorted_ids[k],
                        now,
                    ) == Option::Some(r@[j]) && sorted_ids[k] == r@[j].id);
                let k = choose|k: int|
                    0 <= k < sorted_ids.len() && spec_lookup_merged(*old(self), sorted_ids[k], now)
                        == Option::Some(r@[j]) && sorted_ids[k] == r@[j].id;
                assert(sorted_ids.contains(sorted_ids[k]));
            }
        }
        r
    }
}

/// A batched read-through keeps the request order: two result positions
/// come from two request positions in the same order, each under its own
/// id.
proof fn lemma_get_multi_pairs(f: Forum, ids: Seq<i32>, now: i64)
    requires
        f.wf(),
    ensures
        forall|a: int, b: int|
            0 <= a < b < spec_get_multi_result(f, ids, now).len() ==> exists|ka: int, kb: int|
                0 <= ka < kb < ids.len() && ids[ka] == (#[trigger] spec_get_multi_result(
                    f,
                    ids,
                    now,
                )[a]).id && ids[kb] == (#[trigger] spec_get_multi_result(f, ids, now)[b]).id,
    decreases ids.len(),
{
    if ids.len() > 0 {
        lemma_get_multi_pairs(f, ids.drop_last(), now);
        lemma_get_multi_member(f, ids.drop_last(), now);
        let pre = spec_get_multi_result(f, ids.drop_last(), now);
        let whole = spec_get_multi_result(f, ids, now);
        assert forall|a: int, b: int|
            0 <= a < b < whole.len() implies exists|ka: int, kb: int|
            0 <= ka < kb < ids.len() && ids[ka] == (#[trigger] whole[a]).id && ids[kb] == (
            #[trigger] whole[b]).id by {
            if b < pre.len() {
                assert(whole[a] == pre[a] && whole[b] == pre[b]);
                let (ka, kb) = choose|ka: int, kb: int|
                    0 <= ka < kb < ids.drop_last().len() && ids.drop_last()[ka] == pre[a].id
                        && ids.drop_last()[kb] == pre[b].id;
                assert(ids[ka] == whole[a].id && ids[kb] == whole[b].id);
            } else {
                let p = spec_lookup_merged(f, ids.last(), now)->0;
                assert(whole[b] == p);
                assert(whole[a] == pre[a]);
                match spec_cached(f.post_cache@, ids.last(), now) {
                    Option::Some(q) => {
                        assert(f.post_cache@[ids.last()].post == q);
                    },
                    Option::None => {},
                }
                assert(p.id == ids.last());
                let ka = choose|ka: int|
                    0 <= ka < ids.drop_last().len() && spec_lookup_merged(
                        f,
                        ids.drop_last()[ka],
                        now,
                    ) == Option::Some(pre[a]) && ids.drop_last()[ka] == pre[a].id;
                let kb = ids.len() - 1;
                assert(ids[ka] == whole[a].id && ids[kb] == whole[b].id);
            }
        }
    }
}

/// A batched read-through is complete: a requested id whose merged
/// lookup yields a live post contributes that post to the result.
proof fn lemma_get_multi_complete(f: Forum, ids: Seq<i32>, now: i64)
    ensures
        forall|k: int|
            0 <= k < ids.len() && (#[trigger] spec_lookup_merged(f, ids[k], now)) is Some
                && !spec_lookup_merged(f, ids[k], now)->0.is_deleted ==> spec_get_multi_result(
                f,
                ids,
                now,
            ).contains(spec_lookup_merged(f, ids[k], now)->0),
    decreases ids.len(),
{
    if ids.len() > 0 {
        lemma_get_multi_complete(f, ids.drop_last(), now);
        let pre = spec_get_multi_result(f, ids.drop_last(), now);
        let whole = spec_get_multi_result(f, ids, now);
        assert forall|k: int|
            0 <= k < ids.len() && (#[trigger] spec_lookup_merged(f, ids[k], now)) is Some
                && !spec_lookup_merged(f, ids[k], now)->0.is_deleted implies whole.contains(
            spec_lookup_merged(f, ids[k], now)->0,
        ) by {
            if k < ids.len() - 1 {
                assert(ids.drop_last()[k] == ids[k]);
                assert(pre.contains(spec_lookup_merged(f, ids[k], now)->0));
                let j = choose|j: int|
                    0 <= j < pre.len() && pre[j] == spec_lookup_merged(f, ids[k], now)->0;
                assert(whole[j] == pre[j]);
            } else {
                assert(whole[whole.len() - 1] == spec_lookup_merged(f, ids[k], now)->0);
            }
        }
    }
}

/// Every post of a batched read-through was looked up under its own id,
/// which is one of the requested ids.
proof fn lemma_get_multi_member(f: Forum, ids: Seq<i32>, now: i64)
    requires
        f.wf(),
    ensures
        forall|j: int|
            0 <= j < spec_get_multi_result(f, ids, now).len() ==> exists|k: int|
                0 <= k < ids.len() && spec_lookup_merged(f, ids[k], now) == Option::Some(
                    #[trigger] spec_get_multi_result(f, ids, now)[j],
                ) && ids[k] == spec_get_multi_result(f, ids, now)[j].id,
    decreases ids.len(),
{
    if ids.len() > 0 {
        lemma_get_multi_member(f, ids.drop_last(), now);
        let pre = spec_get_multi_result(f, ids.drop_last(), now);
        let whole = spec_get_multi_result(f, ids, now);
        assert forall|j: int|
            0 <= j < whole.len() implies exists|k: int|
            0 <= k < ids.len() && spec_lookup_merged(f, ids[k], now) == Option::Some(
                #[trigger] whole[j],
            ) && ids[k] == whole[j].id by {
            if j < pre.len() {
                assert(whole[j] == pre[j]);
                let k = choose|k: int|
                    0 <= k < ids.drop_last().len() && spec_lookup_merged(
                        f,
                        ids.drop_last()[k],
                        now,
                    ) == Option::Some(pre[j]) && ids.drop_last()[k] == pre[j].id;
                assert(ids[k] == ids.drop_last()[k]);
            } else {
                let p = spec_lookup_merged(f, ids.last(), now)->0;
                assert(whole[j] == p);
                assert(ids[ids.len() - 1] == ids.last());
                match spec_cached(f.post_cache@, ids.last(), now) {
                    Option::Some(q) => {
                        assert(f.post_cache@[ids.last()].post == q);
                    },
                    Option::None => {},
                }
            }
        }
    }
}

/// What a successful block leaves behind: blocking yourself is refused;
/// otherwise the pair is recorded, a newly recorded pair bumps the
/// author's global counter, whose new value comes back — a repeated
/// pair answers with a sentinel instead — and the caller's memoized
/// visibility dictionary for the post is dropped, conservatively.
pub open spec fn spec_block_outcome(
    f0: Forum,
    f1: Forum,
    user: CurrentUser,
    author: Seq<char>,
    pid: i32,
    r: Result<i32, ApiError>,
) -> bool {
    if author == user.namehash@ {
        &&& r == Result::<i32, ApiError>::Err(ApiError::Pc(PolicyError::NotAllowed))
        &&& f1.blocked == f0.blocked
        &&& f1.block_dicts == f0.block_dicts
    } else {
        &&& crate::block::spec_blocks(f1.blocked, user.id->0, author)
        &&& (forall|t: i64|
            f1.spec_block_dict(user.namehash@, pid, t) =~= Map::<Seq<char>, bool>::empty())
        &&& (if crate::block::spec_blocks(f0.blocked, user.id->0, author) {
            r == Result::<i32, ApiError>::Ok(114514i32) && f1.counter == f0.counter
        } else {
            &&& r is Ok
            &&& r->Ok_0 as int == (if crate::block::spec_block_count(f0.counter, author)
                < i32::MAX {
                crate::block::spec_block_count(f0.counter, author) + 1
            } else {
                i32::MAX as int
            })
            &&& crate::block::spec_block_count(f1.counter, author) == r->Ok_0 as int
        })
    }
}

impl Forum {
    /// Hide an author: record the block relationship for the caller and,
    /// when the pair is new, bump the author's global counter; the new
    /// counter value comes back, or a sentinel when the pair already
    /// existed. The caller must afterwards discard any memoized
    /// visibility dictionary it holds for this post, since the
    /// dictionary is conservative, not precise.
    pub fn block(&mut self, user: &CurrentUser, bi: &BlockInput, now: i64) -> (r: Result<
        i32,
        ApiError,
    >)
        requires
            old(self).wf(),
            0 <= now <= i64::MAX - INSTANCE_EXPIRE_TIME,
        ensures
            final(self).wf(),
            final(self).store.comments@ == old(self).store.comments@,
            user.id is None ==> r == Result::<i32, ApiError>::Err(
                ApiError::Pc(PolicyError::NotAllowed),
            ) && *final(self) == *old(self),
            user.id is Some && bi.content_type@ != "post"@ && bi.content_type@ != "comment"@ ==> r
                == Result::<i32, ApiError>::Err(ApiError::Pc(PolicyError::NotAllowed))
                && *final(self) == *old(self),
            user.id is Some && bi.content_type@ == "post"@ ==> match spec_get_result(
                *old(self),
                bi.id,
                now,
            ) {
                Result::Err(e) => r == Result::<i32, ApiError>::Err(ApiError::Db(e)),
                Result::Ok(p0) => spec_block_outcome(
                    *old(self),
                    *final(self),
                    *user,
                    p0.author_hash@,
                    p0.id,
                    r,
                ),
            },
            user.id is Some && bi.content_type@ == "comment"@ && bi.content_type@ != "post"@
                ==> match old(self).store.spec_comment(bi.id) {
                Option::None => r == Result::<i32, ApiError>::Err(
                    ApiError::Db(StoreError::NotFound),
                ) && final(self).blocked == old(self).blocked,
                Option::Some(c0) => spec_block_outcome(
                    *old(self),
                    *final(self),
                    *user,
                    c0.author_hash@,
                    c0.post_id,
                    r,
                ),
            },
    {
        let uid: i32 = match user.id {
            Option::Some(i) => i,
            Option::None => {
                return Result::Err(ApiError::Pc(PolicyError::NotAllowed));
            }
        };
        let post_type: String = String::from_str("post");
        let comment_type: String = String::from_str("comment");
        let nh_to_block: String;
        let pid: i32;
        if bi.content_type == post_type {
            let p: Post = match self.get(bi.id, now) {
                Result::Ok(p) => p,
                Result::Err(e) => {
                    return Result::Err(ApiError::Db(e));
                }
            };
            pid = p.id;
            nh_to_block = p.author_hash;
        } else if bi.content_type == comment_type {
            let c: Comment = match self.store.get_comment(bi.id) {
                Option::Some(c) => c,
                Option::None => {
                    return Result::Err(ApiError::Db(StoreError::NotFound));
                }
            };
            pid = c.post_id;
            nh_to_block = c.author_hash;
        } else {
            return Result::Err(ApiError::Pc(PolicyError::NotAllowed));
        }
        if nh_to_block == user.namehash {
            return Result::Err(ApiError::Pc(PolicyError::NotAllowed));
        }
        let added: usize = self.blocked.add(uid, &nh_to_block);
        let curr: i32 = if added > 0 {
            self.counter.count_incr(&nh_to_block)
        } else {
            114514
        };
        self.clear_block_dict(&user.namehash, pid);
        Result::Ok(curr)
    }
}

impl Forum {
    /// Full-text search: the store's text-pattern primitive yields one
    /// page of matching ids, newest first, and the batched read-through
    /// resolves them. Every post returned is live, and its store row
    /// answers the search.
    pub fn search(
        &mut self,
        room_id: Option<i32>,
        search_mode: u8,
        search_text: &String,
        start: i64,
        limit: i64,
        now: i64,
    ) -> (r: Vec<Post>)
        requires
            old(self).wf(),
            search_mode <= 2,
            0 <= start,
            0 <= limit,
            0 <= now <= i64::MAX - INSTANCE_EXPIRE_TIME,
        ensures
            final(self).wf(),
            r@.len() <= limit,
            forall|j: int| 0 <= j < r@.len() ==> !(#[trigger] r@[j]).is_deleted && r@[j].wf(),
            forall|j: int|
                0 <= j < r@.len() ==> old(self).store.spec_post((#[trigger] r@[j]).id) is Some
                    && crate::store::spec_search_matches(
                    old(self).store,
                    search_mode,
                    room_id,
                    search_text@,
                    old(self).store.spec_post(r@[j].id)->0,
                ),
            forall|a: int, b: int|
                0 <= a < b < r@.len() ==> (#[trigger] r@[a]).id > (#[trigger] r@[b]).id,
            exists|entries: Seq<(i64, i32)>|
                #![trigger spec_sorted(entries)]
                {
                    &&& spec_sorted(entries)
                    &&& spec_distinct_pids(entries)
                    &&& (forall|q: i32|
                        spec_contains_pid(entries, q as int) <==> (old(self).store.spec_post(q)
                            is Some && crate::store::spec_search_matches(
                            old(self).store,
                            search_mode,
                            room_id,
                            search_text@,
                            old(self).store.spec_post(q)->0,
                        )))
                    &&& (forall|j: int|
                        0 <= j < entries.len() ==> (#[trigger] entries[j]).0 as int == -(
                        entries[j].1 as int))
                    &&& r@ == spec_get_multi_result(
                        *old(self),
                        spec_page_pids(entries, start as int, limit as int),
                        now,
                    )
                },
            final(self).store == old(self).store,
            final(self).comment_cache == old(self).comment_cache,
            final(self).user_cache == old(self).user_cache,
            final(self).lists == old(self).lists,
            final(self).systemlog == old(self).systemlog,
            final(self).attentions == old(self).attentions,
            final(self).reactions == old(self).reactions,
            final(self).block_dicts == old(self).block_dicts,
            final(self).blocked == old(self).blocked,
            final(self).counter == old(self).counter,
            final(self).ranks == old(self).ranks,
            final(self).banned == old(self).banned,
    {
        let pids: Vec<i32> = self.store.search_ids(room_id, search_mode, search_text, start, limit);
        let ghost pids_g = pids@;
        let r: Vec<Post> = self.get_multi(&pids, now);
        proof {
            lemma_get_multi_member(*old(self), pids_g, now);
            lemma_get_multi_pairs(*old(self), pids_g, now);
            let entries = choose|entries: Seq<(i64, i32)>|
                #![trigger spec_sorted(entries)]
                {
                    &&& spec_sorted(entries)
                    &&& spec_distinct_pids(entries)
                    &&& (forall|q: i32|
                        spec_contains_pid(entries, q as int) <==> (old(self).store.spec_post(q)
                            is Some && crate::store::spec_search_matches(
                            old(self).store,
                            search_mode,
                            room_id,
                            search_text@,
                            old(self).store.spec_post(q)->0,
                        )))
                    &&& (forall|j: int|
                        0 <= j < entries.len() ==> (#[trigger] entries[j]).0 as int == -(
                        entries[j].1 as int))
                    &&& pids_g == spec_page_pids(entries, start as int, limit as int)
                };
            assert(r@ == spec_get_multi_result(
                *old(self),
                spec_page_pids(entries, start as int, limit as int),
                now,
            ));
            assert forall|a: int, b: int|
                0 <= a < b < r@.len() implies (#[trigger] r@[a]).id > (#[trigger] r@[b]).id by {
                let (ka, kb) = choose|ka: int, kb: int|
                    0 <= ka < kb < pids_g.len() && pids_g[ka] == r@[a].id && pids_g[kb] == r@[b].id;
                assert(pids_g[ka] > pids_g[kb]);
            }
            assert forall|j: int|
                0 <= j < r@.len() implies old(self).store.spec_post((#[trigger] r@[j]).id) is Some
                && crate::store::spec_search_matches(
                old(self).store,
                search_mode,
                room_id,
                search_text@,
                old(self).store.spec_post(r@[j].id)->0,
            ) by {
                let k = choose|k: int|
                    0 <= k < pids_g.len() && spec_lookup_merged(*old(self), pids_g[k], now)
                        == Option::Some(r@[j]) && pids_g[k] == r@[j].id;
                assert(old(self).store.spec_post(pids_g[k]) is Some);
            }
        }
        r
    }
}

impl Forum {
    /// Permission-guarded point read: the post behind `pid`, refused for
    /// non-administrators when it is deleted or under moderation.
    pub fn get_one(&mut self, user: &CurrentUser, pid: i32, now: i64) -> (r: Result<
        Post,
        ApiError,
    >)
        requires
            old(self).wf(),
            0 <= now <= i64::MAX - INSTANCE_EXPIRE_TIME,
        ensures
            final(self).wf(),
            r == (match spec_get_result(*old(self), pid, now) {
                Result::Err(e) => Result::<Post, ApiError>::Err(ApiError::Db(e)),
                Result::Ok(p0) => match spec_check_permission(
                    user.is_admin,
                    user.namehash@,
                    p0.author_hash@,
                    p0.is_deleted,
                    p0.is_reported,
                    p0.spec_deletable(),
                    PermissionCheck { read: true, report_guard: true, write: false, delete: false },
                ) {
                    Result::Err(e) => Result::<Post, ApiError>::Err(ApiError::Pc(e)),
                    Result::Ok(_) => Result::<Post, ApiError>::Ok(p0),
                },
            }),
            final(self).store == old(self).store,
            final(self).lists == old(self).lists,
            final(self).comment_cache == old(self).comment_cache,
            final(self).user_cache == old(self).user_cache,
            final(self).systemlog == old(self).systemlog,
            final(self).attentions == old(self).attentions,
            final(self).reactions == old(self).reactions,
            final(self).block_dicts == old(self).block_dicts,
            final(self).blocked == old(self).blocked,
            final(self).counter == old(self).counter,
            final(self).ranks == old(self).ranks,
            final(self).banned == old(self).banned,
    {
        let p0: Post = match self.get(pid, now) {
            Result::Ok(p) => p,
            Result::Err(e) => {
                return Result::Err(ApiError::Db(e));
            }
        };
        let m = PermissionCheck { read: true, report_guard: true, write: false, delete: false };
        match p0.check_permission(user, m) {
            Result::Ok(_) => Result::Ok(p0),
            Result::Err(e) => Result::Err(ApiError::Pc(e)),
        }
    }
}

impl Forum {
    /// The memoized visibility dictionary of one (viewer, post) pair as
    /// a read at `t` sees it: its live entries, nothing once expired or
    /// never written.
    pub open spec fn spec_block_dict(self, viewer: Seq<char>, pid: i32, t: i64) -> Map<
        Seq<char>,
        bool,
    > {
        if self.block_dicts@.contains_key(viewer) && self.block_dicts@[viewer]@.contains_key(pid) {
            self.block_dicts@[viewer]@[pid].spec_dict(t)
        } else {
            Map::empty()
        }
    }

    /// Read the viewer's memoized visibility dictionary for a post and
    /// complete it against the durable block stores, exactly as the
    /// instance-level read does; the registry slot is created on first
    /// use. The second component counts the durable lookups made.
    pub fn get_or_create_block_dict(
        &mut self,
        user: &CurrentUser,
        pid: i32,
        hash_list: &Vec<String>,
        now: i64,
    ) -> (r: (StrMap<bool>, usize))
        requires
            old(self).wf(),
            0 <= now <= i64::MAX - INSTANCE_EXPIRE_TIME,
        ensures
            final(self).wf(),
            r.0.wf(),
            r.1 == 0 <==> spec_all_cached(
                old(self).spec_block_dict(user.namehash@, pid, now),
                hash_list@,
            ),
            spec_completed_dict(
                old(self).spec_block_dict(user.namehash@, pid, now),
                old(self).blocked,
                old(self).counter,
                user.id,
                user.auto_block_rank,
                hash_list@,
                r.0@,
            ),
            r.1 > 0 ==> forall|t: i64|
                #![trigger final(self).spec_block_dict(user.namehash@, pid, t)]
                now <= t < now + INSTANCE_EXPIRE_TIME ==> final(self).spec_block_dict(
                    user.namehash@,
                    pid,
                    t,
                ) =~= r.0@,
            r.1 == 0 ==> forall|t: i64|
                #![trigger final(self).spec_block_dict(user.namehash@, pid, t)]
                now <= t ==> final(self).spec_block_dict(user.namehash@, pid, t) =~= old(
                    self,
                ).spec_block_dict(user.namehash@, pid, t),
            forall|v: Seq<char>, q: i32, t: i64|
                !(v == user.namehash@ && q == pid) ==> final(self).spec_block_dict(v, q, t) == old(
                    self,
                ).spec_block_dict(v, q, t),
            final(self).store == old(self).store,
            final(self).post_cache == old(self).post_cache,
            final(self).comment_cache == old(self).comment_cache,
            final(self).user_cache == old(self).user_cache,
            final(self).lists == old(self).lists,
            final(self).systemlog == old(self).systemlog,
            final(self).attentions == old(self).attentions,
            final(self).reactions == old(self).reactions,
            final(self).blocked == old(self).blocked,
            final(self).counter == old(self).counter,
            final(self).ranks == old(self).ranks,
            final(self).banned == old(self).banned,
    {
        let mut inner: IntMap<BlockDictCache> = match self.block_dicts.take(&user.namehash) {
            Option::Some(m) => m,
            Option::None => IntMap::new(),
        };
        let mut entry: BlockDictCache = match inner.take(pid) {
            Option::Some(e) => e,
            Option::None => BlockDictCache::init(),
        };
        let ghost d0 = old(self).spec_block_dict(user.namehash@, pid, now);
        let ghost entry_pre = entry;
        proof {
            assert forall|t: i64|
                #![trigger entry_pre.spec_dict(t)]
                entry_pre.spec_dict(t) =~= old(self).spec_block_dict(user.namehash@, pid, t) by {}
            assert(entry_pre.spec_dict(now) == d0);
        }
        let r: (StrMap<bool>, usize) = entry.get_or_create(
            &self.blocked,
            &self.counter,
            user,
            hash_list,
            now,
        );
        proof {
            assert(r.1 == 0 <==> spec_all_cached(d0, hash_list@));
            assert(spec_completed_dict(
                d0,
                old(self).blocked,
                old(self).counter,
                user.id,
                user.auto_block_rank,
                hash_list@,
                r.0@,
            ));
        }
        inner.insert(pid, entry);
        self.block_dicts.insert(user.namehash.clone(), inner);
        proof {
            assert(self.block_dicts@.contains_key(user.namehash@));
            assert(self.block_dicts@[user.namehash@]@.contains_key(pid));
            assert(self.block_dicts@[user.namehash@]@[pid] == entry);
            assert forall|v: Seq<char>, q: i32, t: i64|
                !(v == user.namehash@ && q == pid) implies final(self).spec_block_dict(v, q, t)
                == old(self).spec_block_dict(v, q, t) by {}
        }
        r
    }

    /// Drop the viewer's memoized dictionary for a post; the block flow
    /// does this whenever a new block relationship involves one of the
    /// post's participants.
    pub fn clear_block_dict(&mut self, viewer: &String, pid: i32)
        requires
            old(self).wf(),
        ensures
            final(self).wf(),
            forall|t: i64|
                final(self).spec_block_dict(viewer@, pid, t) =~= Map::<Seq<char>, bool>::empty(),
            forall|v: Seq<char>, q: i32, t: i64|
                !(v == viewer@ && q == pid) ==> final(self).spec_block_dict(v, q, t) == old(
                    self,
                ).spec_block_dict(v, q, t),
            final(self).store == old(self).store,
            final(self).post_cache == old(self).post_cache,
            final(self).comment_cache == old(self).comment_cache,
            final(self).user_cache == old(self).user_cache,
            final(self).lists == old(self).lists,
            final(self).systemlog == old(self).systemlog,
            final(self).attentions == old(self).attentions,
            final(self).reactions == old(self).reactions,
            final(self).blocked == old(self).blocked,
            final(self).counter == old(self).counter,
            final(self).ranks == old(self).ranks,
            final(self).banned == old(self).banned,
    {
        let mut inner: IntMap<BlockDictCache> = match self.block_dicts.take(viewer) {
            Option::Some(m) => m,
            Option::None => IntMap::new(),
        };
        inner.remove(pid);
        self.block_dicts.insert(viewer.clone(), inner);
        proof {
            assert(self.block_dicts@.contains_key(viewer@));
            assert(!self.block_dicts@[viewer@]@.contains_key(pid));
            assert forall|v: Seq<char>, q: i32, t: i64|
                !(v == viewer@ && q == pid) implies final(self).spec_block_dict(v, q, t) == old(
                self,
            ).spec_block_dict(v, q, t) by {}
        }
    }
}

} // verus!
