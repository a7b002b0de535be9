//! Ranked list cache: one sorted collection of (sort key, post id) pairs
//! per (room, order mode), with point upsert and removal, bulk fill,
//! range reads and size-bounded compaction.

use vstd::prelude::*;

use crate::post::Post;
use crate::rng::random_sort_key;

verus! {

/// Below this cardinality a list asks to be backfilled from the store.
pub const MIN_LENGTH: usize = 200;

/// Above this cardinality a list is compacted.
pub const MAX_LENGTH: usize = 900;

/// How far below the maximum a compaction cuts.
pub const CUT_LENGTH: usize = 100;

/// Strict order on (sort key, post id) pairs: by key, ties by id.
pub open spec fn pair_lt(a: (i64, i32), b: (i64, i32)) -> bool {
    a.0 < b.0 || (a.0 == b.0 && a.1 < b.1)
}

pub open spec fn spec_sorted(s: Seq<(i64, i32)>) -> bool {
    forall|i: int, j: int| 0 <= i < j < s.len() ==> pair_lt(s[i], s[j])
}

pub open spec fn spec_distinct_pids(s: Seq<(i64, i32)>) -> bool {
    forall|i: int, j: int| 0 <= i < j < s.len() ==> (s[i].1 != s[j].1)
}

pub open spec fn spec_contains_pid(s: Seq<(i64, i32)>, pid: int) -> bool {
    exists|i: int| 0 <= i < s.len() && s[i].1 == pid
}

pub open spec fn spec_contains_pair(s: Seq<(i64, i32)>, key: int, pid: int) -> bool {
    exists|i: int| 0 <= i < s.len() && s[i].0 == key && s[i].1 == pid
}

/// The deterministic sort key a post gets in a given order mode; the
/// shuffle mode (3) draws a fresh random key instead and has no
/// deterministic key. Keys are negated so that ascending rank order is
/// newest, most recently active, hottest or most attended first.
pub open spec fn spec_sort_key(mode: u8, p: Post) -> int {
    if mode == 0 {
        -(p.id as int)
    } else if mode == 1 {
        -(p.last_comment_time as int)
    } else if mode == 2 {
        -(p.hot_score as int)
    } else {
        -(p.n_attentions as int)
    }
}

/// The post ids of one page of a ranked list: the members at ranks
/// `start .. start + limit`, clipped to the entries present.
pub open spec fn spec_page_pids(v: Seq<(i64, i32)>, start: int, limit: int) -> Seq<i32> {
    if start <= v.len() {
        Seq::new(
            (if start + limit <= v.len() {
                limit
            } else {
                v.len() - start
            }) as nat,
            |i: int| v[start + i].1,
        )
    } else {
        Seq::empty()
    }
}

/// A post is dropped from (rather than upserted into) a mode's list when
/// it is soft-deleted, or when it is reported and the mode is not the
/// newest-first mode 0 — reported content stays visible there for
/// moderation.
pub open spec fn spec_suppressed(mode: u8, p: Post) -> bool {
    p.is_deleted || (mode > 0 && p.is_reported)
}

/// One ranked index: the (room, mode) pair that names it and its sorted
/// entries. `length` is the cardinality as of the last watermark check,
/// deliberately underreported right after a compaction.
pub struct PostListCache {
    pub room_id: Option<i32>,
    pub mode: u8,
    pub entries: Vec<(i64, i32)>,
    pub length: usize,
}

impl View for PostListCache {
    type V = Seq<(i64, i32)>;

    open spec fn view(&self) -> Seq<(i64, i32)> {
        self.entries@
    }
}

impl PostListCache {
    pub open spec fn wf(self) -> bool {
        &&& self.mode <= 4
        &&& spec_sorted(self@)
        &&& spec_distinct_pids(self@)
        &&& self.spec_reported_len() <= MAX_LENGTH as int
    }

    /// The cardinality as of the last watermark check.
    pub open spec fn spec_reported_len(self) -> int {
        self.length as int
    }

    pub fn init(room_id: Option<i32>, mode: u8) -> (r: Self)
        requires
            mode <= 4,
        ensures
            r.wf(),
            r.room_id == room_id,
            r.mode == mode,
            r@ =~= Seq::<(i64, i32)>::empty(),
            r.spec_reported_len() == 0,
    {
        PostListCache { room_id, mode, entries: Vec::new(), length: 0 }
    }

    /// Remove the entry of `pid`, if one is present; every other entry
    /// stays, in order.
    fn zrem(&mut self, pid: i32)
        requires
            old(self).wf(),
        ensures
            final(self).wf(),
            final(self).room_id == old(self).room_id,
            final(self).mode == old(self).mode,
            final(self).spec_reported_len() == old(self).spec_reported_len(),
            !spec_contains_pid(final(self)@, pid as int),
            forall|k: int, q: int|
                q != pid as int ==> (spec_contains_pair(final(self)@, k, q) <==> spec_contains_pair(
                    old(self)@,
                    k,
                    q,
                )),
            spec_contains_pid(old(self)@, pid as int) ==> final(self)@.len() == old(
                self,
            )@.len() - 1,
            !spec_contains_pid(old(self)@, pid as int) ==> final(self)@ == old(self)@,
    {
        let ghost orig = self.entries@;
        let n: usize = self.entries.len();
        let mut i: usize = 0;
        while i < n
            invariant
                n == self.entries@.len(),
                i <= n,
                old(self).wf(),
                *self == *old(self),
                self.entries@ == orig,
                orig == old(self)@,
                forall|j: int| 0 <= j < i ==> orig[j].1 != pid,
            decreases n - i,
        {
            if self.entries[i].1 == pid {
                self.entries.remove(i);
                proof {
                    let fin = self.entries@;
                    assert(fin == orig.remove(i as int));
                    orig.remove_ensures(i as int);
                    assert forall|a: int, b: int| 0 <= a < b < fin.len() implies pair_lt(
                        fin[a],
                        fin[b],
                    ) && fin[a].1 != fin[b].1 by {
                        let a0: int = if a < i as int {
                            a
                        } else {
                            a + 1
                        };
                        let b0: int = if b < i as int {
                            b
                        } else {
                            b + 1
                        };
                        assert(fin[a] == orig[a0] && fin[b] == orig[b0]);
                        assert(pair_lt(orig[a0], orig[b0]));
                    }
                    assert forall|j: int| 0 <= j < fin.len() implies fin[j].1 != pid by {
                        let j0: int = if j < i as int {
                            j
                        } else {
                            j + 1
                        };
                        assert(fin[j] == orig[j0]);
                        if j0 > i as int {
                            assert(orig[i as int].1 != orig[j0].1);
                        }
                    }
                    assert forall|k: int, q: int|
                        q != pid as int && spec_contains_pair(orig, k, q) implies spec_contains_pair(
                        fin,
                        k,
                        q,
                    ) by {
                        let j = choose|j: int|
                            0 <= j < orig.len() && orig[j].0 == k && orig[j].1 == q;
                        if j < i as int {
                            assert(fin[j] == orig[j]);
                        } else {
                            assert(fin[j - 1] == orig[j]);
                        }
                    }
                    assert forall|k: int, q: int|
                        q != pid as int && spec_contains_pair(fin, k, q) implies spec_contains_pair(
                        orig,
                        k,
                        q,
                    ) by {
                        let j = choose|j: int|
                            0 <= j < fin.len() && fin[j].0 == k && fin[j].1 == q;
                        let j0: int = if j < i as int {
                            j
                        } else {
                            j + 1
                        };
                        assert(orig[j0] == fin[j]);
                    }
                }
                return ;
            }
            i += 1;
        }
    }

    /// Index at which `(key, pid)` slots into the sorted entries.
    fn find_pos(&self, key: i64, pid: i32) -> (r: usize)
        requires
            spec_sorted(self@),
            !spec_contains_pid(self@, pid as int),
        ensures
            r <= self@.len(),
            forall|j: int| 0 <= j < r ==> pair_lt(self@[j], (key, pid)),
            forall|j: int| r <= j < self@.len() ==> pair_lt((key, pid), self@[j]),
    {
        let n: usize = self.entries.len();
        let mut i: usize = 0;
        let mut scanning: bool = true;
        while scanning && i < n
            invariant
                i <= n,
                n == self@.len(),
                spec_sorted(self@),
                !spec_contains_pid(self@, pid as int),
                forall|j: int| 0 <= j < i ==> pair_lt(self@[j], (key, pid)),
                !scanning ==> i < n && pair_lt((key, pid), self@[i as int]),
            decreases (n - i) + (if scanning {
                1int
            } else {
                0int
            }),
        {
            let e: (i64, i32) = self.entries[i];
            if key < e.0 || (key == e.0 && pid < e.1) {
                scanning = false;
            } else {
                proof {
                    if self@[i as int].1 == pid as int {
                        assert(spec_contains_pid(self@, pid as int));
                    }
                    assert(pair_lt(self@[i as int], (key, pid)));
                }
                i += 1;
            }
        }
        proof {
            if !scanning {
                assert forall|j: int| i as int <= j < n implies pair_lt((key, pid), self@[j]) by {
                    if j > i as int {
                        assert(pair_lt(self@[i as int], self@[j]));
                    }
                }
            }
        }
        i
    }

    /// Upsert: any prior entry of `pid` is replaced by `(key, pid)`;
    /// every other pair stays.
    fn zadd(&mut self, key: i64, pid: i32)
        requires
            old(self).wf(),
        ensures
            final(self).wf(),
            final(self).room_id == old(self).room_id,
            final(self).mode == old(self).mode,
            final(self).spec_reported_len() == old(self).spec_reported_len(),
            spec_contains_pair(final(self)@, key as int, pid as int),
            forall|k: int, q: int|
                q != pid as int ==> (spec_contains_pair(final(self)@, k, q) <==> spec_contains_pair(
                    old(self)@,
                    k,
                    q,
                )),
            final(self)@.len() == old(self)@.len() + (
            if spec_contains_pid(old(self)@, pid as int) {
                0int
            } else {
                1int
            }),
    {
        self.zrem(pid);
        let ghost pre = self.entries@;
        let i: usize = self.find_pos(key, pid);
        self.entries.insert(i, (key, pid));
        proof {
            let fin = self.entries@;
            assert(fin == pre.insert(i as int, (key, pid)));
            pre.insert_ensures(i as int, (key, pid));
            assert(fin[i as int] == (key, pid));
            assert forall|a: int, b: int| 0 <= a < b < fin.len() implies pair_lt(fin[a], fin[b])
                && fin[a].1 != fin[b].1 by {
                if b < i as int {
                    assert(fin[a] == pre[a] && fin[b] == pre[b]);
                    assert(pair_lt(pre[a], pre[b]));
                    assert(pre[a].1 != pre[b].1);
                } else if a < i as int && b == i as int {
                    assert(fin[a] == pre[a]);
                    assert(pair_lt(pre[a], (key, pid)));
                } else if a < i as int && b > i as int {
                    assert(fin[a] == pre[a] && fin[b] == pre[b - 1]);
                    assert(pair_lt(pre[a], (key, pid)));
                    assert(pair_lt((key, pid), pre[b - 1]));
                    assert(pre[a].1 != pid as int && pre[b - 1].1 != pid as int);
                } else if a == i as int {
                    assert(fin[b] == pre[b - 1]);
                    assert(pair_lt((key, pid), pre[b - 1]));
                } else {
                    assert(fin[a] == pre[a - 1] && fin[b] == pre[b - 1]);
                    assert(pair_lt(pre[a - 1], pre[b - 1]));
                    assert(pre[a - 1].1 != pre[b - 1].1);
                }
            }
            assert forall|k: int, q: int|
                q != pid as int && spec_contains_pair(pre, k, q) implies spec_contains_pair(
                fin,
                k,
                q,
            ) by {
                let j = choose|j: int| 0 <= j < pre.len() && pre[j].0 == k && pre[j].1 == q;
                if j < i as int {
                    assert(fin[j] == pre[j]);
                } else {
                    assert(fin[j + 1] == pre[j]);
                }
            }
            assert forall|k: int, q: int|
                q != pid as int && spec_contains_pair(fin, k, q) implies spec_contains_pair(
                pre,
                k,
                q,
            ) by {
                let j = choose|j: int| 0 <= j < fin.len() && fin[j].0 == k && fin[j].1 == q;
                if j < i as int {
                    assert(pre[j] == fin[j]);
                } else {
                    assert(j != i as int);
                    assert(pre[j - 1] == fin[j]);
                }
            }
        }
    }

    /// The sort key `p` gets in this list's mode; the shuffle mode draws
    /// a fresh random key on every call.
    fn sort_key(&self, p: &Post) -> (k: i64)
        requires
            self.wf(),
            p.wf(),
        ensures
            self.mode != 3 ==> k as int == spec_sort_key(self.mode, *p),
    {
        if self.mode == 0 {
            -(p.id as i64)
        } else if self.mode == 1 {
            -p.last_comment_time
        } else if self.mode == 2 {
            -(p.hot_score as i64)
        } else if self.mode == 3 {
            random_sort_key()
        } else {
            -(p.n_attentions as i64)
        }
    }

    /// Re-read the cardinality, compacting first when it exceeds the
    /// maximum watermark: the lowest-ranked entries are dropped down to
    /// `MAX_LENGTH - CUT_LENGTH`, and the reported length falls back to
    /// the minimum watermark, marking the tail beyond it unreliable.
    fn set_and_check_length(&mut self)
        requires
            old(self).wf(),
        ensures
            final(self).wf(),
            final(self).room_id == old(self).room_id,
            final(self).mode == old(self).mode,
            old(self)@.len() > MAX_LENGTH as int ==> {
                &&& final(self)@ == old(self)@.subrange(0, (MAX_LENGTH - CUT_LENGTH) as int)
                &&& final(self).spec_reported_len() == MIN_LENGTH as int
            },
            old(self)@.len() <= MAX_LENGTH as int ==> {
                &&& final(self)@ == old(self)@
                &&& final(self).spec_reported_len() == old(self)@.len()
            },
            final(self)@.len() <= MAX_LENGTH as int,
    {
        let l: usize = self.entries.len();
        if l > MAX_LENGTH {
            let ghost orig = self.entries@;
            self.entries.truncate(MAX_LENGTH - CUT_LENGTH);
            proof {
                assert forall|a: int, b: int|
                    0 <= a < b < self.entries@.len() implies pair_lt(
                    self.entries@[a],
                    self.entries@[b],
                ) && self.entries@[a].1 != self.entries@[b].1 by {
                    assert(self.entries@[a] == orig[a] && self.entries@[b] == orig[b]);
                }
            }
            self.length = MIN_LENGTH;
        } else {
            self.length = l;
        }
    }

    /// True when the list is due for a backfill from the store. Always
    /// leaves the list within the maximum watermark.
    pub fn need_fill(&mut self) -> (b: bool)
        requires
            old(self).wf(),
        ensures
            final(self).wf(),
            final(self).room_id == old(self).room_id,
            final(self).mode == old(self).mode,
            b == (old(self)@.len() < MIN_LENGTH as int),
            b == (final(self).spec_reported_len() < MIN_LENGTH as int),
            final(self)@.len() <= MAX_LENGTH as int,
            old(self)@.len() <= MAX_LENGTH as int ==> final(self).spec_reported_len() == old(
                self,
            )@.len(),
            old(self)@.len() > MAX_LENGTH as int ==> final(self)@ == old(self)@.subrange(
                0,
                (MAX_LENGTH - CUT_LENGTH) as int,
            ),
            old(self)@.len() <= MAX_LENGTH as int ==> final(self)@ == old(self)@,
    {
        self.set_and_check_length();
        self.length < MIN_LENGTH
    }

    /// The cardinality as of the last watermark check.
    pub fn i64_len(&self) -> (r: i64)
        requires
            self.wf(),
        ensures
            r == self.spec_reported_len(),
    {
        self.length as i64
    }

    /// The minimum watermark, as the page size to backfill with.
    pub fn i64_minlen(&self) -> (r: i64)
        ensures
            r == MIN_LENGTH as int,
    {
        MIN_LENGTH as i64
    }

    /// Bulk-insert entries for a batch of posts, then re-check the
    /// watermarks. If the batch did not push the list over the maximum
    /// watermark, every post of the batch is ranked afterwards.
    pub fn fill(&mut self, ps: &Vec<Post>)
        requires
            old(self).wf(),
            forall|i: int| 0 <= i < ps@.len() ==> (#[trigger] ps@[i]).wf(),
        ensures
            final(self).wf(),
            final(self).room_id == old(self).room_id,
            final(self).mode == old(self).mode,
            final(self)@.len() <= MAX_LENGTH as int,
            old(self)@.len() + ps@.len() <= MAX_LENGTH as int ==> forall|i: int|
                0 <= i < ps@.len() ==> spec_contains_pid(final(self)@, ps@[i].id as int),
    {
        let ghost orig = self.entries@;
        let n: usize = ps.len();
        let mut i: usize = 0;
        while i < n
            invariant
                self.wf(),
                n == ps@.len(),
                i <= n,
                forall|j: int| 0 <= j < ps@.len() ==> (#[trigger] ps@[j]).wf(),
                self.room_id == old(self).room_id,
                self.mode == old(self).mode,
                self@.len() <= orig.len() + i,
                forall|j: int| 0 <= j < i ==> spec_contains_pid(self@, ps@[j].id as int),
            decreases n - i,
        {
            let key: i64 = self.sort_key(&ps[i]);
            let ghost before = self@;
            self.zadd(key, ps[i].id);
            proof {
                assert forall|j: int|
                    0 <= j < i + 1 implies spec_contains_pid(self@, ps@[j].id as int) by {
                    if ps@[j].id == ps@[i as int].id {
                        assert(spec_contains_pair(self@, key as int, ps@[i as int].id as int));
                    } else {
                        let k = choose|k: int|
                            0 <= k < before.len() && before[k].1 == ps@[j].id as int;
                        assert(spec_contains_pair(before, before[k].0 as int, ps@[j].id as int));
                        assert(spec_contains_pair(self@, before[k].0 as int, ps@[j].id as int));
                    }
                }
            }
            i += 1;
        }
        let ghost filled = self@;
        self.set_and_check_length();
        proof {
            if orig.len() + ps@.len() <= MAX_LENGTH as int {
                assert(filled.len() <= MAX_LENGTH as int);
                assert(self@ == filled);
            }
        }
    }

    /// Single upsert: a suppressed post (soft-deleted, or reported in a
    /// non-moderation mode) loses its entry; any other post is upserted
    /// under its mode's sort key. No other post's membership changes.
    pub fn put(&mut self, p: &Post)
        requires
            old(self).wf(),
            p.wf(),
        ensures
            final(self).wf(),
            final(self).room_id == old(self).room_id,
            final(self).mode == old(self).mode,
            spec_suppressed(old(self).mode, *p) ==> !spec_contains_pid(final(self)@, p.id as int),
            !spec_suppressed(old(self).mode, *p) ==> spec_contains_pid(final(self)@, p.id as int),
            !spec_suppressed(old(self).mode, *p) && old(self).mode != 3 ==> spec_contains_pair(
                final(self)@,
                spec_sort_key(old(self).mode, *p),
                p.id as int,
            ),
            forall|k: int, q: int|
                q != p.id as int ==> (spec_contains_pair(final(self)@, k, q) <==> spec_contains_pair(
                    old(self)@,
                    k,
                    q,
                )),
    {
        if p.is_deleted || (self.mode > 0 && p.is_reported) {
            self.zrem(p.id);
        } else {
            let key: i64 = self.sort_key(p);
            self.zadd(key, p.id);
        }
    }

    /// Range read: the post ids at ranks `start .. start + limit`, best
    /// rank first, clipped to the list's cardinality.
    pub fn get_pids(&self, start: i64, limit: i64) -> (r: Vec<i32>)
        requires
            self.wf(),
            0 <= start,
            0 <= limit,
        ensures
            r@.len() == (if start as int <= self@.len() {
                if start + limit <= self@.len() {
                    limit as int
                } else {
                    self@.len() - start
                }
            } else {
                0int
            }),
            forall|i: int| 0 <= i < r@.len() ==> r@[i] == self@[start + i].1,
            forall|i: int| 0 <= i < r@.len() ==> spec_contains_pid(self@, r@[i] as int),
    {
        let n: usize = self.entries.len();
        let mut r: Vec<i32> = Vec::new();
        if start as u64 >= n as u64 {
            return r;
        }
        let s: usize = start as usize;
        let rest: usize = n - s;
        let e: usize = if limit as u64 > rest as u64 {
            n
        } else {
            s + limit as usize
        };
        let mut i: usize = s;
        while i < e
            invariant
                s <= i <= e <= n,
                n == self@.len(),
                r@.len() == i - s,
                forall|j: int| 0 <= j < r@.len() ==> r@[j] == self@[s + j].1,
                forall|j: int| 0 <= j < r@.len() ==> spec_contains_pid(self@, r@[j] as int),
            decreases e - i,
        {
            let e_i: (i64, i32) = self.entries[i];
            r.push(e_i.1);
            i += 1;
        }
        r
    }

    /// Drop the whole index; delete and report flows use this when a post
    /// must disappear from every participating list at once.
    pub fn clear(&mut self)
        requires
            old(self).wf(),
        ensures
            final(self).wf(),
            final(self).room_id == old(self).room_id,
            final(self).mode == old(self).mode,
            final(self)@ =~= Seq::<(i64, i32)>::empty(),
            final(self).spec_reported_len() == 0,
    {
        self.entries = Vec::new();
        self.length = 0;
    }
}

} // verus!
