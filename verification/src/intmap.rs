//! A small id-keyed dictionary with a mathematical `Map` view, used for
//! every cache keyed by a post id.

use vstd::prelude::*;

verus! {

/// The dictionary a key-value sequence denotes; later entries win.
pub open spec fn id_assoc_map<V>(s: Seq<(i32, V)>) -> Map<i32, V>
    decreases s.len(),
{
    if s.len() == 0 {
        Map::empty()
    } else {
        id_assoc_map(s.drop_last()).insert(s.last().0, s.last().1)
    }
}

spec fn distinct_keys<V>(s: Seq<(i32, V)>) -> bool {
    forall|i: int, j: int| 0 <= i < j < s.len() ==> s[i].0 != s[j].0
}

proof fn lemma_assoc_contains<V>(s: Seq<(i32, V)>, k: i32)
    ensures
        id_assoc_map(s).contains_key(k) <==> exists|i: int| 0 <= i < s.len() && s[i].0 == k,
    decreases s.len(),
{
    if s.len() > 0 {
        lemma_assoc_contains(s.drop_last(), k);
        if id_assoc_map(s).contains_key(k) {
            if s.last().0 == k {
                assert(s[s.len() - 1].0 == k);
            } else {
                let i = choose|i: int| 0 <= i < s.drop_last().len() && s.drop_last()[i].0 == k;
                assert(s[i].0 == k);
            }
        }
        if exists|i: int| 0 <= i < s.len() && s[i].0 == k {
            let i = choose|i: int| 0 <= i < s.len() && s[i].0 == k;
            if i < s.len() - 1 {
                assert(s.drop_last()[i].0 == k);
            }
        }
    }
}

proof fn lemma_assoc_get<V>(s: Seq<(i32, V)>, i: int)
    requires
        distinct_keys(s),
        0 <= i < s.len(),
    ensures
        id_assoc_map(s).contains_key(s[i].0),
        id_assoc_map(s)[s[i].0] == s[i].1,
    decreases s.len(),
{
    if i == s.len() - 1 {
        assert(s.last() == s[i]);
    } else {
        assert(distinct_keys(s.drop_last()));
        assert(s.drop_last()[i] == s[i]);
        lemma_assoc_get(s.drop_last(), i);
        assert(s[i].0 != s.last().0);
    }
}

proof fn lemma_assoc_remove<V>(s: Seq<(i32, V)>, i: int)
    requires
        distinct_keys(s),
        0 <= i < s.len(),
    ensures
        id_assoc_map(s.remove(i)) =~= id_assoc_map(s).remove(s[i].0),
    decreases s.len(),
{
    let k = s[i].0;
    if i == s.len() - 1 {
        assert(s.remove(i) =~= s.drop_last());
        lemma_assoc_contains(s.drop_last(), k);
        assert(!id_assoc_map(s.drop_last()).contains_key(k));
        assert(id_assoc_map(s).remove(k) =~= id_assoc_map(s.drop_last()));
    } else {
        let dl = s.drop_last();
        assert(distinct_keys(dl));
        assert(dl[i] == s[i]);
        lemma_assoc_remove(dl, i);
        assert(s.remove(i).drop_last() =~= dl.remove(i));
        assert(s.remove(i).last() == s.last());
        assert(id_assoc_map(s.remove(i)) == id_assoc_map(dl.remove(i)).insert(s.last().0, s.last().1));
        assert(k != s.last().0);
        assert(id_assoc_map(dl.remove(i)).insert(s.last().0, s.last().1) =~= id_assoc_map(
            dl,
        ).remove(k).insert(s.last().0, s.last().1));
        assert(id_assoc_map(dl).remove(k).insert(s.last().0, s.last().1) =~= id_assoc_map(
            dl,
        ).insert(s.last().0, s.last().1).remove(k));
    }
}

/// A dictionary from strings to values, seen in contracts as a
/// `Map<i32, V>`.
pub struct IntMap<V> {
    entries: Vec<(i32, V)>,
}

impl<V> View for IntMap<V> {
    type V = Map<i32, V>;

    closed spec fn view(&self) -> Map<i32, V> {
        id_assoc_map(self.entries@)
    }
}

impl<V> IntMap<V> {
    /// Each key occurs at most once.
    pub closed spec fn wf(self) -> bool {
        distinct_keys(self.entries@)
    }

    /// How many keys the dictionary holds.
    pub closed spec fn spec_len(self) -> int {
        self.entries@.len() as int
    }

    pub fn new() -> (r: Self)
        ensures
            r.wf(),
            r@ =~= Map::<i32, V>::empty(),
            r.spec_len() == 0,
    {
        IntMap { entries: Vec::new() }
    }

    pub fn len(&self) -> (r: usize)
        ensures
            r as int == self.spec_len(),
    {
        self.entries.len()
    }

    pub fn get<'a>(&'a self, k: i32) -> (r: Option<&'a V>)
        requires
            self.wf(),
        ensures
            match r {
                Option::Some(v) => self@.contains_key(k) && *v == self@[k],
                Option::None => !self@.contains_key(k),
            },
    {
        let n: usize = self.entries.len();
        let mut i: usize = 0;
        while i < n
            invariant
                i <= n,
                n == self.entries@.len(),
                self.wf(),
                forall|j: int| 0 <= j < i ==> self.entries@[j].0 != k,
            decreases n - i,
        {
            if self.entries[i].0 == k {
                proof {
                    lemma_assoc_get(self.entries@, i as int);
                }
                return Option::Some(&self.entries[i].1);
            }
            i += 1;
        }
        proof {
            lemma_assoc_contains(self.entries@, k);
        }
        Option::None
    }

    pub fn contains_key(&self, k: i32) -> (r: bool)
        requires
            self.wf(),
        ensures
            r == self@.contains_key(k),
    {
        match self.get(k) {
            Option::Some(_) => true,
            Option::None => false,
        }
    }

    /// Remove the entry of `k`, if any.
    pub fn remove(&mut self, k: i32)
        requires
            old(self).wf(),
        ensures
            final(self).wf(),
            final(self)@ =~= old(self)@.remove(k),
            final(self).spec_len() <= old(self).spec_len(),
    {
        let ghost orig = self.entries@;
        let n: usize = self.entries.len();
        let mut i: usize = 0;
        while i < n
            invariant
                i <= n,
                n == self.entries@.len(),
                old(self).wf(),
                *self == *old(self),
                self.entries@ == orig,
                forall|j: int| 0 <= j < i ==> orig[j].0 != k,
            decreases n - i,
        {
            if self.entries[i].0 == k {
                proof {
                    lemma_assoc_remove(orig, i as int);
                    orig.remove_ensures(i as int);
                }
                self.entries.remove(i);
                proof {
                    assert forall|a: int, b: int|
                        0 <= a < b < self.entries@.len() implies self.entries@[a].0
                        != self.entries@[b].0 by {
                        let a0: int = if a < i as int {
                            a
                        } else {
                            a + 1
                        };
                        let b0: int = if b < i as int {
                            b
                        } else {
                            b + 1
                        };
                        assert(self.entries@[a] == orig[a0] && self.entries@[b] == orig[b0]);
                    }
                }
                return ;
            }
            i += 1;
        }
        proof {
            lemma_assoc_contains(orig, k);
            assert(!old(self)@.contains_key(k));
            assert(final(self)@ =~= old(self)@.remove(k));
        }
    }

    /// Upsert.
    pub fn insert(&mut self, k: i32, v: V)
        requires
            old(self).wf(),
        ensures
            final(self).wf(),
            final(self)@ =~= old(self)@.insert(k, v),
            final(self).spec_len() <= old(self).spec_len() + 1,
    {
        self.remove(k);
        let ghost pre = self.entries@;
        self.entries.push((k, v));
        proof {
            assert(self.entries@.drop_last() =~= pre);
            assert(self.entries@.last() == (k, v));
            lemma_assoc_contains(pre, k);
            assert forall|a: int, b: int|
                0 <= a < b < self.entries@.len() implies self.entries@[a].0
                != self.entries@[b].0 by {
                if b < self.entries@.len() - 1 {
                    assert(self.entries@[a] == pre[a] && self.entries@[b] == pre[b]);
                } else {
                    assert(self.entries@[b] == (k, v));
                    assert(self.entries@[a] == pre[a]);
                    if pre[a].0 == k {
                        assert(id_assoc_map(pre).contains_key(k));
                    }
                }
            }
            assert(final(self)@ =~= old(self)@.insert(k, v));
        }
    }

    /// Remove the entry of `k` and hand its value out.
    pub fn take(&mut self, k: i32) -> (r: Option<V>)
        requires
            old(self).wf(),
        ensures
            final(self).wf(),
            final(self)@ =~= old(self)@.remove(k),
            match r {
                Option::Some(v) => old(self)@.contains_key(k) && v == old(self)@[k],
                Option::None => !old(self)@.contains_key(k),
            },
    {
        let ghost orig = self.entries@;
        let n: usize = self.entries.len();
        let mut i: usize = 0;
        while i < n
            invariant
                i <= n,
                n == self.entries@.len(),
                old(self).wf(),
                *self == *old(self),
                self.entries@ == orig,
                forall|j: int| 0 <= j < i ==> orig[j].0 != k,
            decreases n - i,
        {
            if self.entries[i].0 == k {
                proof {
                    lemma_assoc_remove(orig, i as int);
                    lemma_assoc_get(orig, i as int);
                    orig.remove_ensures(i as int);
                }
                let kv: (i32, V) = self.entries.remove(i);
                proof {
                    assert forall|a: int, b: int|
                        0 <= a < b < self.entries@.len() implies self.entries@[a].0
                        != self.entries@[b].0 by {
                        let a0: int = if a < i as int {
                            a
                        } else {
                            a + 1
                        };
                        let b0: int = if b < i as int {
                            b
                        } else {
                            b + 1
                        };
                        assert(self.entries@[a] == orig[a0] && self.entries@[b] == orig[b0]);
                    }
                }
                return Option::Some(kv.1);
            }
            i += 1;
        }
        proof {
            lemma_assoc_contains(orig, k);
            assert(!old(self)@.contains_key(k));
            assert(final(self)@ =~= old(self)@.remove(k));
        }
        Option::None
    }

    /// Every key, in insertion order.
    pub fn keys(&self) -> (r: Vec<i32>)
        requires
            self.wf(),
        ensures
            forall|j: int| 0 <= j < r@.len() ==> self@.contains_key(#[trigger] r@[j]),
            forall|k: i32| self@.contains_key(k) ==> r@.contains(k),
    {
        let mut r: Vec<i32> = Vec::new();
        let n: usize = self.entries.len();
        let mut i: usize = 0;
        while i < n
            invariant
                i <= n,
                n == self.entries@.len(),
                self.wf(),
                r@.len() == i as int,
                forall|j: int| 0 <= j < i ==> r@[j] == self.entries@[j].0,
            decreases n - i,
        {
            r.push(self.entries[i].0);
            i += 1;
        }
        proof {
            assert forall|j: int|
                0 <= j < r@.len() implies self@.contains_key(#[trigger] r@[j]) by {
                lemma_assoc_get(self.entries@, j);
            }
            assert forall|k: i32| self@.contains_key(k) implies r@.contains(k) by {
                lemma_assoc_contains(self.entries@, k);
                let j = choose|j: int|
                    0 <= j < self.entries@.len() && self.entries@[j].0 == k;
                assert(r@[j] == k);
            }
        }
        r
    }

    /// Drop every entry.
    pub fn clear(&mut self)
        ensures
            final(self).wf(),
            final(self)@ =~= Map::<i32, V>::empty(),
            final(self).spec_len() == 0,
    {
        self.entries = Vec::new();
    }
}

} // verus!
