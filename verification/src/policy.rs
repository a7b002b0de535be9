//! Business rules baked into the mutation call sites: how much a new
//! attention or comment moves the hot score, and how the annealing job
//! decays it.

use vstd::prelude::*;

verus! {

/// Hot-score floor of the annealing job: scores at or below it are left
/// alone by a decay pass.
pub const HOT_SCORE_FLOOR: i32 = 10;

/// One multiplicative decay step: a score above the floor drops to nine
/// tenths of itself, rounded down; at or below the floor it is unchanged.
pub open spec fn spec_decay(h: int) -> int {
    if h > HOT_SCORE_FLOOR as int {
        9 * h / 10
    } else {
        h
    }
}

pub fn decay_hot_score(h: i32) -> (r: i32)
    requires
        h >= 0,
    ensures
        r as int == spec_decay(h as int),
{
    if h > HOT_SCORE_FLOOR {
        ((9 * h as i64) / 10) as i32
    } else {
        h
    }
}

/// A decay step never makes a score negative, never raises it, strictly
/// lowers any score above the floor, and fixes every score at or below it.
pub proof fn lemma_decay_step(h: int)
    requires
        h >= 0,
    ensures
        0 <= spec_decay(h) <= h,
        h > HOT_SCORE_FLOOR as int ==> spec_decay(h) < h,
        h <= HOT_SCORE_FLOOR as int ==> spec_decay(h) == h,
{
    if h > HOT_SCORE_FLOOR as int {
        assert(9 * h / 10 < h) by (nonlinear_arith)
            requires h > 10,
        ;
        assert(9 * h / 10 >= 0) by (nonlinear_arith)
            requires h > 10,
        ;
    }
}

/// The score after `n` decay steps.
pub open spec fn spec_decay_iter(h: int, n: nat) -> int
    decreases n,
{
    if n == 0 {
        h
    } else {
        spec_decay(spec_decay_iter(h, (n - 1) as nat))
    }
}

/// Repeated annealing converges: some number of steps brings any score
/// down to the floor region, and from then on every further step is the
/// identity; the score never goes negative on the way.
pub proof fn lemma_decay_converges(h: int) -> (n: nat)
    requires
        h >= 0,
    ensures
        spec_decay_iter(h, n) <= HOT_SCORE_FLOOR as int,
        spec_decay_iter(h, n) >= 0,
        forall|m: nat| m >= n ==> #[trigger] spec_decay_iter(h, m) == spec_decay_iter(h, n),
    decreases h,
{
    if h <= HOT_SCORE_FLOOR as int {
        let n: nat = 0;
        lemma_decay_fixed_after(h, n);
        n
    } else {
        lemma_decay_step(h);
        let n0 = lemma_decay_converges(spec_decay(h));
        let n: nat = n0 + 1;
        assert forall|m: nat| m >= n implies #[trigger] spec_decay_iter(h, m) == spec_decay_iter(
            h,
            n,
        ) by {
            lemma_decay_iter_shift(h, m);
            lemma_decay_iter_shift(h, n);
        }
        lemma_decay_iter_shift(h, n);
        n
    }
}

/// Once at or below the floor, decay is the identity forever.
proof fn lemma_decay_fixed_after(h: int, n: nat)
    requires
        0 <= h <= HOT_SCORE_FLOOR as int,
        n == 0,
    ensures
        forall|m: nat| m >= n ==> #[trigger] spec_decay_iter(h, m) == h,
{
    assert forall|m: nat| m >= n implies #[trigger] spec_decay_iter(h, m) == h by {
        lemma_decay_iter_fixed(h, m);
    }
}

proof fn lemma_decay_iter_fixed(h: int, m: nat)
    requires
        0 <= h <= HOT_SCORE_FLOOR as int,
    ensures
        spec_decay_iter(h, m) == h,
    decreases m,
{
    if m > 0 {
        lemma_decay_iter_fixed(h, (m - 1) as nat);
    }
}

/// Iterating `m` steps from `h` is one step followed by `m - 1` steps.
proof fn lemma_decay_iter_shift(h: int, m: nat)
    requires
        m >= 1,
    ensures
        spec_decay_iter(h, m) == spec_decay_iter(spec_decay(h), (m - 1) as nat),
    decreases m,
{
    if m == 1 {
        assert(spec_decay_iter(h, 1) == spec_decay(spec_decay_iter(h, 0)));
        assert(spec_decay_iter(spec_decay(h), 0) == spec_decay(h));
    } else {
        lemma_decay_iter_shift(h, (m - 1) as nat);
        assert(spec_decay_iter(h, m) == spec_decay(spec_decay_iter(h, (m - 1) as nat)));
        assert(spec_decay_iter(spec_decay(h), (m - 1) as nat) == spec_decay(
            spec_decay_iter(spec_decay(h), (m - 2) as nat),
        ));
    }
}

/// Hot-score delta for a fresh comment: a commenter who did not yet attend
/// the post pays the attend bonus exactly once; a repeat commenter who
/// already attends adds one point only while the thread's comment count has
/// not outgrown three times its attention count.
pub open spec fn spec_comment_hot_delta(
    already_attending: bool,
    n_attentions: int,
    n_comments: int,
) -> int {
    if !already_attending {
        3
    } else if n_comments < 3 * n_attentions {
        1
    } else {
        0
    }
}

/// Attention-count delta for a fresh comment: a first-time commenter
/// starts attending the post.
pub open spec fn spec_comment_attention_delta(already_attending: bool) -> int {
    if already_attending {
        0
    } else {
        1
    }
}

/// Deltas applied together when a comment is created: (comment count,
/// attention count, hot score).
pub fn comment_deltas(already_attending: bool, n_attentions: i32, n_comments: i32) -> (r: (
    i32,
    i32,
    i32,
))
    requires
        n_attentions >= 0,
        n_comments >= 0,
    ensures
        r.0 == 1,
        r.1 as int == spec_comment_attention_delta(already_attending),
        r.2 as int == spec_comment_hot_delta(already_attending, n_attentions as int, n_comments as int),
{
    if !already_attending {
        (1, 1, 3)
    } else if (n_comments as i64) < 3 * (n_attentions as i64) {
        (1, 0, 1)
    } else {
        (1, 0, 0)
    }
}

/// Hot-score delta for switching attention on or off: the symmetric bonus
/// is paid (or taken back) only while the post's attention count has not
/// outgrown three times its comment count.
pub open spec fn spec_attention_hot_delta(
    switch_to: bool,
    n_attentions: int,
    n_comments: int,
) -> int {
    let d: int = if switch_to { 1 } else { -1 };
    if n_attentions <= 3 * n_comments {
        2 * d
    } else {
        0
    }
}

/// Deltas applied together when a user toggles attention: (attention
/// count, hot score). The caller only invokes this when the stored switch
/// state actually changes.
pub fn attention_deltas(switch_to: bool, n_attentions: i32, n_comments: i32) -> (r: (i32, i32))
    requires
        n_attentions >= 0,
        n_comments >= 0,
    ensures
        r.0 == if switch_to { 1int } else { -1int },
        r.1 as int == spec_attention_hot_delta(switch_to, n_attentions as int, n_comments as int),
{
    let delta: i32 = if switch_to {
        1
    } else {
        -1
    };
    let hot: i32 = if (n_attentions as i64) <= 3 * (n_comments as i64) {
        2 * delta
    } else {
        0
    };
    (delta, hot)
}

} // verus!
