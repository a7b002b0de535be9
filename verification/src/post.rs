//! Entity records of the forum core: posts, comments, users, and the
//! counter-delta operations that mutate a post row.

use vstd::prelude::*;

verus! {

/// A full post row as the store persists it and the caches copy it.
/// Times are seconds since the epoch.
#[derive(Debug, PartialEq)]
pub struct Post {
    pub id: i32,
    pub author_hash: String,
    pub content: String,
    pub cw: String,
    pub author_title: String,
    pub is_tmp: bool,
    pub n_attentions: i32,
    pub n_comments: i32,
    pub create_time: i64,
    pub last_comment_time: i64,
    pub is_deleted: bool,
    pub is_reported: bool,
    pub hot_score: i32,
    pub allow_search: bool,
    pub room_id: i32,
    pub up_votes: i32,
    pub down_votes: i32,
}

impl Clone for Post {
    fn clone(&self) -> (res: Self)
        ensures
            res == *self,
    {
        Post {
            id: self.id,
            author_hash: self.author_hash.clone(),
            content: self.content.clone(),
            cw: self.cw.clone(),
            author_title: self.author_title.clone(),
            is_tmp: self.is_tmp,
            n_attentions: self.n_attentions,
            n_comments: self.n_comments,
            create_time: self.create_time,
            last_comment_time: self.last_comment_time,
            is_deleted: self.is_deleted,
            is_reported: self.is_reported,
            hot_score: self.hot_score,
            allow_search: self.allow_search,
            room_id: self.room_id,
            up_votes: self.up_votes,
            down_votes: self.down_votes,
        }
    }
}

impl Post {
    /// Counters stay in the clamped range and the id is a store serial.
    pub open spec fn wf(self) -> bool {
        &&& self.id >= 1
        &&& self.n_attentions >= 0
        &&& self.n_comments >= 0
        &&& self.hot_score >= 0
        &&& self.up_votes >= 0
        &&& self.down_votes >= 0
        &&& self.create_time >= 0
        &&& self.last_comment_time >= 0
    }
}

/// A comment row.
#[derive(Debug, PartialEq)]
pub struct Comment {
    pub id: i32,
    pub author_hash: String,
    pub author_title: String,
    pub is_tmp: bool,
    pub content: String,
    pub create_time: i64,
    pub is_deleted: bool,
    pub allow_search: bool,
    pub post_id: i32,
}

impl Clone for Comment {
    fn clone(&self) -> (res: Self)
        ensures
            res == *self,
    {
        Comment {
            id: self.id,
            author_hash: self.author_hash.clone(),
            author_title: self.author_title.clone(),
            is_tmp: self.is_tmp,
            content: self.content.clone(),
            create_time: self.create_time,
            is_deleted: self.is_deleted,
            allow_search: self.allow_search,
            post_id: self.post_id,
        }
    }
}

impl Comment {
    pub open spec fn wf(self) -> bool {
        &&& self.id >= 1
        &&& self.post_id >= 1
        &&& self.create_time >= 0
    }
}

/// A registered user; `token` is the login credential the user cache is
/// keyed by.
#[derive(Debug, PartialEq)]
pub struct User {
    pub id: i32,
    pub name: String,
    pub token: String,
    pub is_admin: bool,
}

impl Clone for User {
    fn clone(&self) -> (res: Self)
        ensures
            res == *self,
    {
        User {
            id: self.id,
            name: self.name.clone(),
            token: self.token.clone(),
            is_admin: self.is_admin,
        }
    }
}

/// Fields a caller supplies when publishing a post; the store fills in the
/// serial id, the timestamps and the remaining counters.
pub struct NewPost {
    pub content: String,
    pub cw: String,
    pub author_hash: String,
    pub author_title: String,
    pub is_tmp: bool,
    pub n_attentions: i32,
    pub allow_search: bool,
    pub room_id: i32,
}

/// Fields a caller supplies when submitting a comment.
pub struct NewComment {
    pub content: String,
    pub author_hash: String,
    pub author_title: String,
    pub is_tmp: bool,
    pub post_id: i32,
}

/// The denormalized counters a delta can address.
#[derive(Clone, Copy, Debug, PartialEq, Eq, Structural)]
pub enum CounterField {
    NAttentions,
    NComments,
    HotScore,
    UpVotes,
    DownVotes,
}

/// One unit of work of the counter/mutation engine: an absolute set or an
/// additive delta on one field of a post row.
#[derive(Debug)]
pub enum PostOp {
    /// Add a (possibly negative) delta to a counter; the result is clamped
    /// into `0 ..= i32::MAX`.
    Add(CounterField, i32),
    /// Set a counter to a value; the result is clamped the same way.
    SetCounter(CounterField, i32),
    SetLastCommentTime(i64),
    SetIsDeleted(bool),
    SetIsReported(bool),
    SetContent(String),
    SetCw(String),
}

impl PostOp {
    /// A delta is acceptable when any value it writes directly (bypassing
    /// the clamp) stays in the row's range.
    pub open spec fn wf(self) -> bool {
        match self {
            PostOp::SetLastCommentTime(t) => t >= 0,
            _ => true,
        }
    }
}

/// Clamp an unbounded counter value into the representable non-negative
/// range: counters are never persisted negative.
pub open spec fn spec_clamp(v: int) -> int {
    if v < 0 {
        0
    } else if v > i32::MAX {
        i32::MAX as int
    } else {
        v
    }
}

pub open spec fn spec_counter_of(p: Post, f: CounterField) -> int {
    match f {
        CounterField::NAttentions => p.n_attentions as int,
        CounterField::NComments => p.n_comments as int,
        CounterField::HotScore => p.hot_score as int,
        CounterField::UpVotes => p.up_votes as int,
        CounterField::DownVotes => p.down_votes as int,
    }
}

pub open spec fn spec_with_counter(p: Post, f: CounterField, v: int) -> Post {
    match f {
        CounterField::NAttentions => Post { n_attentions: v as i32, ..p },
        CounterField::NComments => Post { n_comments: v as i32, ..p },
        CounterField::HotScore => Post { hot_score: v as i32, ..p },
        CounterField::UpVotes => Post { up_votes: v as i32, ..p },
        CounterField::DownVotes => Post { down_votes: v as i32, ..p },
    }
}

/// The row that results from applying one delta to a post row.
pub open spec fn spec_apply_op(p: Post, op: PostOp) -> Post {
    match op {
        PostOp::Add(f, d) => spec_with_counter(p, f, spec_clamp(spec_counter_of(p, f) + d)),
        PostOp::SetCounter(f, v) => spec_with_counter(p, f, spec_clamp(v as int)),
        PostOp::SetLastCommentTime(t) => Post { last_comment_time: t, ..p },
        PostOp::SetIsDeleted(b) => Post { is_deleted: b, ..p },
        PostOp::SetIsReported(b) => Post { is_reported: b, ..p },
        PostOp::SetContent(s) => Post { content: s, ..p },
        PostOp::SetCw(s) => Post { cw: s, ..p },
    }
}

/// The row that results from applying a sequence of deltas in order.
pub open spec fn spec_apply_ops(p: Post, ops: Seq<PostOp>) -> Post
    decreases ops.len(),
{
    if ops.len() == 0 {
        p
    } else {
        spec_apply_ops(spec_apply_op(p, ops[0]), ops.skip(1))
    }
}

fn clamp_counter(v: i64) -> (r: i32)
    ensures
        r as int == spec_clamp(v as int),
{
    if v < 0 {
        0
    } else if v > i32::MAX as i64 {
        i32::MAX
    } else {
        v as i32
    }
}

/// Apply one delta to an in-memory post row. The store runs this against
/// the row it holds, which makes the read-modify-write atomic: there is no
/// separate read visible to any other caller.
pub fn apply_op(p: &mut Post, op: &PostOp)
    ensures
        *final(p) == spec_apply_op(*old(p), *op),
{
    match op {
        PostOp::Add(f, d) => {
            let cur: i32 = read_counter(p, *f);
            let v: i32 = clamp_counter(cur as i64 + *d as i64);
            write_counter(p, *f, v);
        }
        PostOp::SetCounter(f, v) => {
            let c: i32 = clamp_counter(*v as i64);
            write_counter(p, *f, c);
        }
        PostOp::SetLastCommentTime(t) => {
            p.last_comment_time = *t;
        }
        PostOp::SetIsDeleted(b) => {
            p.is_deleted = *b;
        }
        PostOp::SetIsReported(b) => {
            p.is_reported = *b;
        }
        PostOp::SetContent(s) => {
            p.content = s.clone();
        }
        PostOp::SetCw(s) => {
            p.cw = s.clone();
        }
    }
}

fn read_counter(p: &Post, f: CounterField) -> (r: i32)
    ensures
        r as int == spec_counter_of(*p, f),
{
    match f {
        CounterField::NAttentions => p.n_attentions,
        CounterField::NComments => p.n_comments,
        CounterField::HotScore => p.hot_score,
        CounterField::UpVotes => p.up_votes,
        CounterField::DownVotes => p.down_votes,
    }
}

fn write_counter(p: &mut Post, f: CounterField, v: i32)
    requires
        v >= 0,
    ensures
        *final(p) == spec_with_counter(*old(p), f, v as int),
{
    match f {
        CounterField::NAttentions => {
            p.n_attentions = v;
        }
        CounterField::NComments => {
            p.n_comments = v;
        }
        CounterField::HotScore => {
            p.hot_score = v;
        }
        CounterField::UpVotes => {
            p.up_votes = v;
        }
        CounterField::DownVotes => {
            p.down_votes = v;
        }
    }
}

/// Applying deltas keeps a well-formed row well-formed: every counter
/// write passes through the clamp.
pub proof fn lemma_apply_op_wf(p: Post, op: PostOp)
    requires
        p.wf(),
        op.wf(),
    ensures
        spec_apply_op(p, op).wf(),
{
}

pub proof fn lemma_apply_ops_wf(p: Post, ops: Seq<PostOp>)
    requires
        p.wf(),
        forall|i: int| 0 <= i < ops.len() ==> (#[trigger] ops[i]).wf(),
    ensures
        spec_apply_ops(p, ops).wf(),
    decreases ops.len(),
{
    if ops.len() > 0 {
        lemma_apply_op_wf(p, ops[0]);
        lemma_apply_ops_wf(spec_apply_op(p, ops[0]), ops.skip(1));
    }
}

/// Deltas never change the identity of the row they mutate.
pub proof fn lemma_apply_ops_same_id(p: Post, ops: Seq<PostOp>)
    ensures
        spec_apply_ops(p, ops).id == p.id,
    decreases ops.len(),
{
    if ops.len() > 0 {
        lemma_apply_ops_same_id(spec_apply_op(p, ops[0]), ops.skip(1));
    }
}

} // verus!
