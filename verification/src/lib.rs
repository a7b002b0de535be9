//! Cache-consistency and ranking core of an anonymous-forum backend.
//!
//! The library keeps denormalized post counters (attention count, comment
//! count, vote tallies, hot score) consistent across a keyed object cache,
//! several ranked list indices per room, and the authoritative store, and
//! decays hot scores over time.

use vstd::prelude::*;

pub mod api;
pub mod attention;
pub mod block;
pub mod decimal;
pub mod forum;
pub mod intmap;
pub mod object_cache;
pub mod outputs;
pub mod poll;
pub mod policy;
pub mod post;
pub mod random_hasher;
pub mod ranked;
pub mod reaction;
pub mod rng;
pub mod store;
pub mod strmap;
pub mod systemlog;
pub mod text_match;
pub mod titles;

verus! {

/// Number of seconds a single cached object stays valid once written;
/// reads refresh this window.
pub const INSTANCE_EXPIRE_TIME: i64 = 3600;

/// A cache entry is still alive at `now` when `now` lies strictly before
/// its expiry instant.
pub open spec fn spec_alive(expires_at: i64, now: i64) -> bool {
    now < expires_at
}

} // verus!
