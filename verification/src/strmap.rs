//! A small string-keyed dictionary with a mathematical `Map` view, used
//! for every cache keyed by a fingerprint, token or title.

use vstd::prelude::*;

verus! {

/// The dictionary a key-value sequence denotes; later entries win.
pub open spec fn assoc_map<V>(s: Seq<(String, V)>) -> Map<Seq<char>, V>
    decreases s.len(),
{
    if s.len() == 0 {
        Map::empty()
    } else {
        assoc_map(s.drop_last()).insert(s.last().0@, s.last().1)
    }
}

spec fn distinct_keys<V>(s: Seq<(String, V)>) -> bool {
    forall|i: int, j: int| 0 <= i < j < s.len() ==> s[i].0@ != s[j].0@
}

proof fn lemma_assoc_contains<V>(s: Seq<(String, V)>, k: Seq<char>)
    ensures
        assoc_map(s).contains_key(k) <==> exists|i: int| 0 <= i < s.len() && s[i].0@ == k,
    decreases s.len(),
{
    if s.len() > 0 {
        lemma_assoc_contains(s.drop_last(), k);
        if assoc_map(s).contains_key(k) {
            if s.last().0@ == k {
                assert(s[s.len() - 1].0@ == k);
            } else {
                let i = choose|i: int| 0 <= i < s.drop_last().len() && s.drop_last()[i].0@ == k;
                assert(s[i].0@ == k);
            }
        }
        if exists|i: int| 0 <= i < s.len() && s[i].0@ == k {
            let i = choose|i: int| 0 <= i < s.len() && s[i].0@ == k;
            if i < s.len() - 1 {
                assert(s.drop_last()[i].0@ == k);
            }
        }
    }
}

proof fn lemma_assoc_get<V>(s: Seq<(String, V)>, i: int)
    requires
        distinct_keys(s),
        0 <= i < s.len(),
    ensures
        assoc_map(s).contains_key(s[i].0@),
        assoc_map(s)[s[i].0@] == s[i].1,
    decreases s.len(),
{
    if i == s.len() - 1 {
        assert(s.last() == s[i]);
    } else {
        assert(distinct_keys(s.drop_last()));
        assert(s.drop_last()[i] == s[i]);
        lemma_assoc_get(s.drop_last(), i);
        assert(s[i].0@ != s.last().0@);
    }
}

proof fn lemma_assoc_remove<V>(s: Seq<(String, V)>, i: int)
    requires
        distinct_keys(s),
        0 <= i < s.len(),
    ensures
        assoc_map(s.remove(i)) =~= assoc_map(s).remove(s[i].0@),
    decreases s.len(),
{
    let k = s[i].0@;
    if i == s.len() - 1 {
        assert(s.remove(i) =~= s.drop_last());
        lemma_assoc_contains(s.drop_last(), k);
        assert(!assoc_map(s.drop_last()).contains_key(k));
        assert(assoc_map(s).remove(k) =~= assoc_map(s.drop_last()));
    } else {
        let dl = s.drop_last();
        assert(distinct_keys(dl));
        assert(dl[i] == s[i]);
        lemma_assoc_remove(dl, i);
        assert(s.remove(i).drop_last() =~= dl.remove(i));
        assert(s.remove(i).last() == s.last());
        assert(assoc_map(s.remove(i)) == assoc_map(dl.remove(i)).insert(s.last().0@, s.last().1));
        assert(k != s.last().0@);
        assert(assoc_map(dl.remove(i)).insert(s.last().0@, s.last().1) =~= assoc_map(
            dl,
        ).remove(k).insert(s.last().0@, s.last().1));
        assert(assoc_map(dl).remove(k).insert(s.last().0@, s.last().1) =~= assoc_map(
            dl,
        ).insert(s.last().0@, s.last().1).remove(k));
    }
}

/// A dictionary from strings to values, seen in contracts as a
/// `Map<Seq<char>, V>`.
pub struct StrMap<V> {
    entries: Vec<(String, V)>,
}

impl<V> View for StrMap<V> {
    type V = Map<Seq<char>, V>;

    closed spec fn view(&self) -> Map<Seq<char>, V> {
        assoc_map(self.entries@)
    }
}

impl<V> StrMap<V> {
    /// Each key occurs at most once.
    pub closed spec fn wf(self) -> bool {
        distinct_keys(self.entries@)
    }

    /// How many keys the dictionary holds.
    pub closed spec fn spec_len(self) -> int {
        self.entries@.len() as int
    }

    pub fn new() -> (r: Self)
        ensures
            r.wf(),
            r@ =~= Map::<Seq<char>, V>::empty(),
            r.spec_len() == 0,
    {
        StrMap { entries: Vec::new() }
    }

    pub fn len(&self) -> (r: usize)
        ensures
            r as int == self.spec_len(),
    {
        self.entries.len()
    }

    pub fn get<'a>(&'a self, k: &String) -> (r: Option<&'a V>)
        requires
            self.wf(),
        ensures
            match r {
                Option::Some(v) => self@.contains_key(k@) && *v == self@[k@],
                Option::None => !self@.contains_key(k@),
            },
    {
        let n: usize = self.entries.len();
        let mut i: usize = 0;
        while i < n
            invariant
                i <= n,
                n == self.entries@.len(),
                self.wf(),
                forall|j: int| 0 <= j < i ==> self.entries@[j].0@ != k@,
            decreases n - i,
        {
            if self.entries[i].0 == *k {
                proof {
                    lemma_assoc_get(self.entries@, i as int);
                }
                return Option::Some(&self.entries[i].1);
            }
            i += 1;
        }
        proof {
            lemma_assoc_contains(self.entries@, k@);
        }
        Option::None
    }

    pub fn contains_key(&self, k: &String) -> (r: bool)
        requires
            self.wf(),
        ensures
            r == self@.contains_key(k@),
    {
        match self.get(k) {
            Option::Some(_) => true,
            Option::None => false,
        }
    }

    /// Remove the entry of `k`, if any.
    pub fn remove(&mut self, k: &String)
        requires
            old(self).wf(),
        ensures
            final(self).wf(),
            final(self)@ =~= old(self)@.remove(k@),
            final(self).spec_len() <= old(self).spec_len(),
    {
        let ghost orig = self.entries@;
        let n: usize = self.entries.len();
        let mut i: usize = 0;
        while i < n
            invariant
                i <= n,
                n == self.entries@.len(),
                old(self).wf(),
                *self == *old(self),
                self.entries@ == orig,
                forall|j: int| 0 <= j < i ==> orig[j].0@ != k@,
            decreases n - i,
        {
            if self.entries[i].0 == *k {
                proof {
                    lemma_assoc_remove(orig, i as int);
                    orig.remove_ensures(i as int);
                }
                self.entries.remove(i);
                proof {
                    assert forall|a: int, b: int|
                        0 <= a < b < self.entries@.len() implies self.entries@[a].0@
                        != self.entries@[b].0@ by {
                        let a0: int = if a < i as int {
                            a
                        } else {
                            a + 1
                        };
                        let b0: int = if b < i as int {
                            b
                        } else {
                            b + 1
                        };
                        assert(self.entries@[a] == orig[a0] && self.entries@[b] == orig[b0]);
                    }
                }
                return ;
            }
            i += 1;
        }
        proof {
            lemma_assoc_contains(orig, k@);
            assert(!old(self)@.contains_key(k@));
            assert(final(self)@ =~= old(self)@.remove(k@));
        }
    }

    /// Upsert.
    pub fn insert(&mut self, k: String, v: V)
        requires
            old(self).wf(),
        ensures
            final(self).wf(),
            final(self)@ =~= old(self)@.insert(k@, v),
            final(self).spec_len() <= old(self).spec_len() + 1,
    {
        self.remove(&k);
        let ghost pre = self.entries@;
        self.entries.push((k, v));
        proof {
            assert(self.entries@.drop_last() =~= pre);
            assert(self.entries@.last() == (k, v));
            lemma_assoc_contains(pre, k@);
            assert forall|a: int, b: int|
                0 <= a < b < self.entries@.len() implies self.entries@[a].0@
                != self.entries@[b].0@ by {
                if b < self.entries@.len() - 1 {
                    assert(self.entries@[a] == pre[a] && self.entries@[b] == pre[b]);
                } else {
                    assert(self.entries@[b] == (k, v));
                    assert(self.entries@[a] == pre[a]);
                    if pre[a].0@ == k@ {
                        assert(assoc_map(pre).contains_key(k@));
                    }
                }
            }
            assert(final(self)@ =~= old(self)@.insert(k@, v));
        }
    }

    /// Remove the entry of `k` and hand its value out.
    pub fn take(&mut self, k: &String) -> (r: Option<V>)
        requires
            old(self).wf(),
        ensures
            final(self).wf(),
            final(self)@ =~= old(self)@.remove(k@),
            match r {
                Option::Some(v) => old(self)@.contains_key(k@) && v == old(self)@[k@],
                Option::None => !old(self)@.contains_key(k@),
            },
    {
        let ghost orig = self.entries@;
        let n: usize = self.entries.len();
        let mut i: usize = 0;
        while i < n
            invariant
                i <= n,
                n == self.entries@.len(),
                old(self).wf(),
                *self == *old(self),
                self.entries@ == orig,
                forall|j: int| 0 <= j < i ==> orig[j].0@ != k@,
            decreases n - i,
        {
            if self.entries[i].0 == *k {
                proof {
                    lemma_assoc_remove(orig, i as int);
                    lemma_assoc_get(orig, i as int);
                    orig.remove_ensures(i as int);
                }
                let kv: (String, V) = self.entries.remove(i);
                proof {
                    assert forall|a: int, b: int|
                        0 <= a < b < self.entries@.len() implies self.entries@[a].0@
                        != self.entries@[b].0@ by {
                        let a0: int = if a < i as int {
                            a
                        } else {
                            a + 1
                        };
                        let b0: int = if b < i as int {
                            b
                        } else {
                            b + 1
                        };
                        assert(self.entries@[a] == orig[a0] && self.entries@[b] == orig[b0]);
                    }
                }
                return Option::Some(kv.1);
            }
            i += 1;
        }
        proof {
            lemma_assoc_contains(orig, k@);
            assert(!old(self)@.contains_key(k@));
            assert(final(self)@ =~= old(self)@.remove(k@));
        }
        Option::None
    }

    /// Every key, in insertion order.
    pub fn keys(&self) -> (r: Vec<String>)
        requires
            self.wf(),
        ensures
            forall|j: int| 0 <= j < r@.len() ==> self@.contains_key((#[trigger] r@[j])@),
            forall|k: Seq<char>|
                self@.contains_key(k) ==> exists|j: int| 0 <= j < r@.len() && (#[trigger] r@[j])@
                    == k,
            r@.len() == self.spec_len(),
    {
        let mut r: Vec<String> = Vec::new();
        let n: usize = self.entries.len();
        let mut i: usize = 0;
        while i < n
            invariant
                i <= n,
                n == self.entries@.len(),
                self.wf(),
                r@.len() == i as int,
                forall|j: int| 0 <= j < i ==> (#[trigger] r@[j])@ == self.entries@[j].0@,
            decreases n - i,
        {
            r.push(self.entries[i].0.clone());
            i += 1;
        }
        proof {
            assert forall|j: int|
                0 <= j < r@.len() implies self@.contains_key((#[trigger] r@[j])@) by {
                lemma_assoc_get(self.entries@, j);
            }
            assert forall|k: Seq<char>|
                self@.contains_key(k) implies exists|j: int|
                0 <= j < r@.len() && (#[trigger] r@[j])@ == k by {
                lemma_assoc_contains(self.entries@, k);
                let j = choose|j: int| 0 <= j < self.entries@.len() && self.entries@[j].0@ == k;
                assert((r@[j])@ == k);
            }
        }
        r
    }

    /// Drop every entry.
    pub fn clear(&mut self)
        ensures
            final(self).wf(),
            final(self)@ =~= Map::<Seq<char>, V>::empty(),
            final(self).spec_len() == 0,
    {
        self.entries = Vec::new();
    }
}

/// A distinct-keyed sequence denotes a dictionary of the same size.
proof fn lemma_assoc_len<V>(s: Seq<(String, V)>)
    requires
        distinct_keys(s),
    ensures
        assoc_map(s).dom().finite(),
        assoc_map(s).dom().len() == s.len(),
    decreases s.len(),
{
    if s.len() > 0 {
        assert(distinct_keys(s.drop_last()));
        lemma_assoc_len(s.drop_last());
        lemma_assoc_contains(s.drop_last(), s.last().0@);
        assert(!assoc_map(s.drop_last()).contains_key(s.last().0@));
        assert(assoc_map(s).dom() =~= assoc_map(s.drop_last()).dom().insert(s.last().0@));
    }
}

/// The dictionary's mathematical size is the entry count.
pub proof fn lemma_strmap_len<V>(m: &StrMap<V>)
    requires
        m.wf(),
    ensures
        m@.dom().finite(),
        m@.len() == m.spec_len(),
{
    lemma_assoc_len(m.entries@);
}

impl<V: Copy> StrMap<V> {
    /// An exact copy; values are plain and keys are cloned.
    pub fn duplicate(&self) -> (r: Self)
        requires
            self.wf(),
        ensures
            r.wf(),
            r@ == self@,
            r.spec_len() == self.spec_len(),
    {
        let mut entries: Vec<(String, V)> = Vec::new();
        let n: usize = self.entries.len();
        let mut i: usize = 0;
        while i < n
            invariant
                i <= n,
                n == self.entries@.len(),
                entries@ =~= self.entries@.take(i as int),
            decreases n - i,
        {
            entries.push((self.entries[i].0.clone(), self.entries[i].1));
            proof {
                assert(entries@ =~= self.entries@.take(i + 1));
            }
            i += 1;
        }
        proof {
            assert(self.entries@.take(n as int) =~= self.entries@);
        }
        StrMap { entries }
    }
}

} // verus!
