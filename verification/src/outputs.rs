//! Rendering a comment thread for one viewer: anonymous per-thread name
//! numbers, block-dict driven hiding, and per-comment permissions.

use vstd::prelude::*;

use crate::api::{spec_check_permission, CurrentUser, PermissionCheck};
use crate::post::{Comment, Post};
use crate::strmap::{lemma_strmap_len, StrMap};

verus! {

/// One rendered comment.
#[derive(Debug, PartialEq)]
pub struct CommentOutput {
    pub cid: i32,
    pub text: String,
    pub author_title: String,
    pub can_del: bool,
    pub name_id: i32,
    pub is_tmp: bool,
    pub create_time: i64,
    pub is_blocked: bool,
    pub timestamp: i64,
    pub blocked: bool,
}

/// The anonymous-number dictionary after the first `upto` comments: the
/// post's author is number zero, and every further distinct fingerprint
/// gets the next number in order of first appearance — soft-deleted
/// comments included, so numbers stay stable when comments disappear.
pub open spec fn spec_name_map(p: Post, cs: Seq<Comment>, upto: nat) -> Map<Seq<char>, i32>
    decreases upto,
{
    if upto == 0 {
        Map::empty().insert(p.author_hash@, 0)
    } else {
        let m = spec_name_map(p, cs, (upto - 1) as nat);
        let h = cs[upto - 1].author_hash@;
        if m.contains_key(h) {
            m
        } else {
            m.insert(h, m.len() as i32)
        }
    }
}

/// The anonymous number of the comment at index `i`.
pub open spec fn spec_name_id(p: Post, cs: Seq<Comment>, i: int) -> i32 {
    let m = spec_name_map(p, cs, i as nat);
    let h = cs[i].author_hash@;
    if m.contains_key(h) {
        m[h]
    } else {
        m.len() as i32
    }
}

/// The indices of the comments a rendering keeps: the non-deleted ones,
/// in order.
pub open spec fn spec_kept(cs: Seq<Comment>) -> Seq<int>
    decreases cs.len(),
{
    if cs.len() == 0 {
        Seq::empty()
    } else {
        spec_kept(cs.drop_last()) + (if cs.last().is_deleted {
            Seq::empty()
        } else {
            seq![cs.len() - 1]
        })
    }
}

/// Kept indices point at live comments, in strictly increasing order.
pub proof fn lemma_kept_bounds(cs: Seq<Comment>)
    ensures
        forall|k: int|
            0 <= k < spec_kept(cs).len() ==> 0 <= #[trigger] spec_kept(cs)[k] < cs.len()
                && !cs[spec_kept(cs)[k]].is_deleted,
    decreases cs.len(),
{
    if cs.len() > 0 {
        lemma_kept_bounds(cs.drop_last());
        let pre = spec_kept(cs.drop_last());
        assert forall|k: int|
            0 <= k < spec_kept(cs).len() implies 0 <= #[trigger] spec_kept(cs)[k] < cs.len()
            && !cs[spec_kept(cs)[k]].is_deleted by {
            if k < pre.len() {
                assert(spec_kept(cs)[k] == pre[k]);
                assert(cs.drop_last()[pre[k]] == cs[pre[k]]);
            } else {
                assert(spec_kept(cs)[k] == cs.len() - 1);
            }
        }
    }
}

/// Whether the viewer may read a comment: administrators always, anyone
/// not blocking the author if registered, and the author themselves.
pub open spec fn spec_can_view(user: CurrentUser, author_hash: Seq<char>, is_blocked: bool) -> bool {
    user.is_admin || (!is_blocked && user.id is Some || user.namehash@ == author_hash)
}

/// What a correct rendering of a comment list looks like, comment by
/// comment.
pub open spec fn spec_comments_rendered(
    p: Post,
    cs: Seq<Comment>,
    user: CurrentUser,
    dict: Map<Seq<char>, bool>,
    out: Seq<CommentOutput>,
) -> bool {
    &&& out.len() == spec_kept(cs).len()
    &&& forall|k: int|
        0 <= k < out.len() ==> {
            let i = spec_kept(cs)[k];
            let c = cs[i];
            let blocked = dict[c.author_hash@];
            {
                &&& (#[trigger] out[k]).cid == c.id
                &&& out[k].name_id == spec_name_id(p, cs, i)
                &&& out[k].is_blocked == blocked
                &&& out[k].blocked == blocked
                &&& out[k].is_tmp == c.is_tmp
                &&& out[k].create_time == c.create_time
                &&& out[k].timestamp == c.create_time
                &&& out[k].author_title@ == c.author_title@
                &&& out[k].text@ == (if spec_can_view(user, c.author_hash@, blocked) {
                    c.content@
                } else {
                    Seq::<char>::empty()
                })
                &&& out[k].can_del == (spec_check_permission(
                    user.is_admin,
                    user.namehash@,
                    c.author_hash@,
                    c.is_deleted,
                    false,
                    true,
                    PermissionCheck { read: false, report_guard: false, write: true, delete: true },
                ) is Ok)
            }
        }
}

/// Render a post's comment list for one viewer. Every comment — deleted
/// ones included — advances the anonymous numbering, so the numbers do
/// not shift when a comment is removed; only live comments are emitted.
/// A comment whose author the block dictionary hides keeps its slot but
/// loses its text for non-privileged viewers.
pub fn c2output(
    p: &Post,
    cs: &Vec<Comment>,
    user: &CurrentUser,
    cached_block_dict: &StrMap<bool>,
) -> (r: Vec<CommentOutput>)
    requires
        cached_block_dict.wf(),
        cs@.len() + 1 < i32::MAX as int,
        forall|i: int|
            0 <= i < cs@.len() ==> cached_block_dict@.contains_key(
                (#[trigger] cs@[i]).author_hash@,
            ),
    ensures
        spec_comments_rendered(*p, cs@, *user, cached_block_dict@, r@),
{
    proof {
        lemma_kept_bounds(cs@);
    }
    let mut hash2id: StrMap<i32> = StrMap::new();
    hash2id.insert(p.author_hash.clone(), 0);
    let mut r: Vec<CommentOutput> = Vec::new();
    let n: usize = cs.len();
    let mut i: usize = 0;
    while i < n
        invariant
            i <= n,
            n == cs@.len(),
            cs@.len() + 1 < i32::MAX as int,
            cached_block_dict.wf(),
            forall|j: int|
                0 <= j < cs@.len() ==> cached_block_dict@.contains_key(
                    (#[trigger] cs@[j]).author_hash@,
                ),
            hash2id.wf(),
            hash2id@ == spec_name_map(*p, cs@, i as nat),
            r@.len() == spec_kept(cs@.take(i as int)).len(),
            forall|k: int|
                0 <= k < r@.len() ==> {
                    let i2 = spec_kept(cs@.take(i as int))[k];
                    let c = cs@[i2];
                    let blocked = cached_block_dict@[c.author_hash@];
                    {
                        &&& 0 <= i2 < i as int
                        &&& (#[trigger] r@[k]).cid == c.id
                        &&& r@[k].name_id == spec_name_id(*p, cs@, i2)
                        &&& r@[k].is_blocked == blocked
                        &&& r@[k].blocked == blocked
                        &&& r@[k].is_tmp == c.is_tmp
                        &&& r@[k].create_time == c.create_time
                        &&& r@[k].timestamp == c.create_time
                        &&& r@[k].author_title@ == c.author_title@
                        &&& r@[k].text@ == (if spec_can_view(*user, c.author_hash@, blocked) {
                            c.content@
                        } else {
                            Seq::<char>::empty()
                        })
                        &&& r@[k].can_del == (spec_check_permission(
                            user.is_admin,
                            user.namehash@,
                            c.author_hash@,
                            c.is_deleted,
                            false,
                            true,
                            PermissionCheck {
                                read: false,
                                report_guard: false,
                                write: true,
                                delete: true,
                            },
                        ) is Ok)
                    }
                },
        decreases n - i,
    {
        let ghost m0 = hash2id@;
        let ghost r0 = r@;
        let c: &Comment = &cs[i];
        let name_id: i32 = match hash2id.get(&c.author_hash) {
            Option::Some(id) => *id,
            Option::None => {
                proof {
                    lemma_strmap_len(&hash2id);
                    lemma_name_map_bound(*p, cs@, i as nat);
                }
                let fresh: i32 = hash2id.len() as i32;
                hash2id.insert(c.author_hash.clone(), fresh);
                fresh
            }
        };
        proof {
            lemma_strmap_len(&hash2id);
        }
        if !c.is_deleted {
            let is_blocked: bool = match cached_block_dict.get(&c.author_hash) {
                Option::Some(b) => *b,
                Option::None => false,
            };
            let can_view: bool = user.is_admin || (!is_blocked && user.id.is_some()
                || user.namehash == c.author_hash);
            let m = PermissionCheck { read: false, report_guard: false, write: true, delete: true };
            let can_del: bool = c.check_permission(user, m).is_ok();
            let text: String = if can_view {
                c.content.clone()
            } else {
                String::new()
            };
            r.push(
                CommentOutput {
                    cid: c.id,
                    text,
                    author_title: c.author_title.clone(),
                    can_del,
                    name_id,
                    is_tmp: c.is_tmp,
                    create_time: c.create_time,
                    is_blocked,
                    timestamp: c.create_time,
                    blocked: is_blocked,
                },
            );
        }
        proof {
            assert(cs@.take(i + 1).drop_last() =~= cs@.take(i as int));
            assert(cs@.take(i + 1).last() == cs@[i as int]);
            let kept1 = spec_kept(cs@.take(i + 1));
            let kept0 = spec_kept(cs@.take(i as int));
            if cs@[i as int].is_deleted {
                assert(kept1 =~= kept0);
                assert(r@ == r0);
            } else {
                assert(kept1 =~= kept0.push(i as int));
                assert(r@.len() == r0.len() + 1);
                let k0 = r@.len() - 1;
                assert(kept1[k0] == i as int);
                assert(r@[k0].name_id == name_id);
                assert(name_id == spec_name_id(*p, cs@, i as int));
            }
            assert forall|k: int| 0 <= k < r@.len() && k < r0.len() implies r@[k] == r0[k]
                && kept1[k] == kept0[k] by {}
        }
        i += 1;
    }
    proof {
        assert(cs@.take(n as int) =~= cs@);
    }
    r
}

/// The anonymous-number dictionary never outgrows the comments seen plus
/// the author's seed entry.
pub proof fn lemma_name_map_bound(p: Post, cs: Seq<Comment>, upto: nat)
    ensures
        spec_name_map(p, cs, upto).dom().finite(),
        1 <= spec_name_map(p, cs, upto).len() <= upto + 1,
    decreases upto,
{
    if upto == 0 {
        assert(spec_name_map(p, cs, 0).dom() =~= Set::empty().insert(p.author_hash@));
    } else {
        lemma_name_map_bound(p, cs, (upto - 1) as nat);
        let m = spec_name_map(p, cs, (upto - 1) as nat);
        let h = cs[upto - 1].author_hash@;
        if !m.contains_key(h) {
            assert(spec_name_map(p, cs, upto).dom() =~= m.dom().insert(h));
        }
    }
}

/// One rendered post, with everything the frontend shows.
#[derive(Debug, PartialEq)]
pub struct PostOutput {
    pub pid: i32,
    pub room_id: i32,
    pub text: String,
    pub cw: Option<String>,
    pub author_title: Option<String>,
    pub is_tmp: bool,
    pub n_attentions: i32,
    pub n_comments: i32,
    pub create_time: i64,
    pub last_comment_time: i64,
    pub allow_search: bool,
    pub is_reported: Option<bool>,
    pub comments: Option<Vec<CommentOutput>>,
    pub can_del: bool,
    pub attention: bool,
    pub hot_score: Option<i32>,
    pub is_blocked: bool,
    pub poll: Option<crate::poll::PollDict>,
    pub timestamp: i64,
    pub likenum: i32,
    pub reply: i32,
    pub blocked: bool,
}

/// Render one post for one viewer. The caller supplies what the
/// surrounding read path fetched: the comment list when the thread is
/// short enough to inline, the viewer's attention state, the rendered
/// poll, and the memoized visibility dictionary covering the post's
/// author and every comment author. Moderation-only fields — the
/// reported flag and the hot score — are shown to administrators alone,
/// and a hidden author's text and poll are withheld from ordinary
/// viewers.
pub fn p2output(
    p: &Post,
    comments: &Option<Vec<Comment>>,
    attention: bool,
    poll: Option<crate::poll::PollDict>,
    user: &CurrentUser,
    cached_block_dict: &StrMap<bool>,
) -> (r: PostOutput)
    requires
        cached_block_dict.wf(),
        cached_block_dict@.contains_key(p.author_hash@),
        comments is Some ==> comments->0@.len() + 1 < i32::MAX as int,
        comments is Some ==> forall|i: int|
            0 <= i < comments->0@.len() ==> cached_block_dict@.contains_key(
                (#[trigger] comments->0@[i]).author_hash@,
            ),
    ensures
        ({
            let blocked = cached_block_dict@[p.author_hash@];
            let can_view = spec_can_view(*user, p.author_hash@, blocked);
            {
                &&& r.pid == p.id
                &&& r.room_id == p.room_id
                &&& r.text@ == (if can_view {
                    p.content@
                } else {
                    Seq::<char>::empty()
                })
                &&& (r.cw is Some <==> p.cw@.len() > 0)
                &&& (r.cw is Some ==> r.cw->0@ == p.cw@)
                &&& (r.author_title is Some <==> p.author_title@.len() > 0)
                &&& (r.author_title is Some ==> r.author_title->0@ == p.author_title@)
                &&& r.is_tmp == p.is_tmp
                &&& r.n_attentions == p.n_attentions
                &&& r.n_comments == p.n_comments
                &&& r.create_time == p.create_time
                &&& r.last_comment_time == p.last_comment_time
                &&& r.allow_search == p.allow_search
                &&& r.is_reported == (if user.is_admin {
                    Option::Some(p.is_reported)
                } else {
                    Option::<bool>::None
                })
                &&& (r.comments is Some <==> comments is Some)
                &&& (comments is Some ==> spec_comments_rendered(
                    *p,
                    comments->0@,
                    *user,
                    cached_block_dict@,
                    r.comments->0@,
                ))
                &&& r.can_del == (spec_check_permission(
                    user.is_admin,
                    user.namehash@,
                    p.author_hash@,
                    p.is_deleted,
                    false,
                    p.spec_deletable(),
                    PermissionCheck { read: false, report_guard: false, write: true, delete: true },
                ) is Ok)
                &&& r.attention == attention
                &&& r.hot_score == (if user.is_admin {
                    Option::Some(p.hot_score)
                } else {
                    Option::<i32>::None
                })
                &&& r.is_blocked == blocked
                &&& (can_view ==> r.poll == poll)
                &&& (!can_view ==> r.poll is None)
                &&& r.timestamp == p.create_time
                &&& r.likenum == p.n_attentions
                &&& r.reply == p.n_comments
                &&& r.blocked == blocked
            }
        }),
{
    let is_blocked: bool = match cached_block_dict.get(&p.author_hash) {
        Option::Some(b) => *b,
        Option::None => false,
    };
    let can_view: bool = user.is_admin || (!is_blocked && user.id.is_some()
        || user.namehash == p.author_hash);
    let text: String = if can_view {
        p.content.clone()
    } else {
        String::new()
    };
    let cw: Option<String> = if p.cw.as_str().is_empty() {
        Option::None
    } else {
        Option::Some(p.cw.clone())
    };
    let author_title: Option<String> = if p.author_title.as_str().is_empty() {
        Option::None
    } else {
        Option::Some(p.author_title.clone())
    };
    let rendered: Option<Vec<CommentOutput>> = match comments {
        Option::Some(cs) => Option::Some(c2output(p, cs, user, cached_block_dict)),
        Option::None => Option::None,
    };
    let m = PermissionCheck { read: false, report_guard: false, write: true, delete: true };
    let can_del: bool = p.check_permission(user, m).is_ok();
    PostOutput {
        pid: p.id,
        room_id: p.room_id,
        text,
        cw,
        author_title,
        is_tmp: p.is_tmp,
        n_attentions: p.n_attentions,
        n_comments: p.n_comments,
        create_time: p.create_time,
        last_comment_time: p.last_comment_time,
        allow_search: p.allow_search,
        is_reported: if user.is_admin {
            Option::Some(p.is_reported)
        } else {
            Option::None
        },
        comments: rendered,
        can_del,
        attention,
        hot_score: if user.is_admin {
            Option::Some(p.hot_score)
        } else {
            Option::None
        },
        is_blocked,
        poll: if can_view {
            poll
        } else {
            Option::None
        },
        timestamp: p.create_time,
        likenum: p.n_attentions,
        reply: p.n_comments,
        blocked: is_blocked,
    }
}

} // verus!
