//! Literal text matching over post and comment bodies: substring search
//! and the sequential multi-keyword match behind the search modes.

use vstd::prelude::*;

verus! {

/// Whether `needle` occurs in `hay` at position `k`.
pub open spec fn spec_occurs_at(hay: Seq<char>, needle: Seq<char>, k: int) -> bool {
    0 <= k && k + needle.len() <= hay.len() && hay.subrange(k, k + needle.len()) == needle
}

/// Whether `needle` occurs in `hay` anywhere.
pub open spec fn spec_contains_sub(hay: Seq<char>, needle: Seq<char>) -> bool {
    exists|k: int| spec_occurs_at(hay, needle, k)
}

/// Whether the keywords occur in `hay` in order, one after the other,
/// each beyond the end of the previous one — the meaning of a pattern
/// that strings the keywords together with wildcards between them.
pub open spec fn spec_parts_match(hay: Seq<char>, parts: Seq<Seq<char>>) -> bool
    decreases parts.len(),
{
    if parts.len() == 0 {
        true
    } else {
        exists|k: int|
            #![trigger hay.subrange(k, k + parts[0].len() as int)]
            spec_occurs_at(hay, parts[0], k) && spec_parts_match(
                hay.skip(k + parts[0].len() as int),
                parts.skip(1),
            )
    }
}

/// Whether `needle` occurs at `k` in `hay`, checked character by
/// character.
fn occurs_at(hay: &str, needle: &str, k: usize) -> (r: bool)
    requires
        k + needle@.len() <= hay@.len() <= usize::MAX,
    ensures
        r == spec_occurs_at(hay@, needle@, k as int),
{
    let m: usize = needle.unicode_len();
    let mut j: usize = 0;
    while j < m
        invariant
            j <= m,
            m == needle@.len(),
            k + m <= hay@.len() <= usize::MAX,
            forall|l: int| 0 <= l < j ==> hay@[k + l] == needle@[l],
        decreases m - j,
    {
        if hay.get_char(k + j) != needle.get_char(j) {
            proof {
                if spec_occurs_at(hay@, needle@, k as int) {
                    assert(hay@.subrange(k as int, k + m)[j as int] == needle@[j as int]);
                }
            }
            return false;
        }
        j += 1;
    }
    proof {
        assert(hay@.subrange(k as int, k + m) =~= needle@);
    }
    true
}

/// The first position at or past `from` where `needle` occurs in `hay`,
/// if any.
fn find_from(hay: &str, needle: &str, from: usize) -> (r: Option<usize>)
    requires
        from <= hay@.len(),
    ensures
        match r {
            Option::Some(k) => {
                &&& from <= k
                &&& spec_occurs_at(hay@, needle@, k as int)
                &&& forall|k2: int|
                    from <= k2 < k ==> !spec_occurs_at(hay@, needle@, k2)
            },
            Option::None => forall|k2: int|
                from <= k2 ==> !spec_occurs_at(hay@, needle@, k2),
        },
{
    let n: usize = hay.unicode_len();
    let m: usize = needle.unicode_len();
    if m > n || from > n - m {
        proof {
            assert forall|k2: int| from <= k2 implies !spec_occurs_at(hay@, needle@, k2) by {}
        }
        return Option::None;
    }
    if m == 0 {
        proof {
            assert(hay@.subrange(from as int, from as int) =~= needle@);
        }
        return Option::Some(from);
    }
    let last: usize = n - m;
    let mut k: usize = from;
    while k <= last
        invariant
            from <= k <= last + 1,
            n == hay@.len(),
            m == needle@.len(),
            m <= n,
            last == n - m,
            1 <= m,
            forall|k2: int| from <= k2 < k ==> !spec_occurs_at(hay@, needle@, k2),
        decreases last + 1 - k,
    {
        if occurs_at(hay, needle, k) {
            return Option::Some(k);
        }
        k += 1;
    }
    proof {
        assert forall|k2: int| from <= k2 implies !spec_occurs_at(hay@, needle@, k2) by {
            if k2 > last as int {
            }
        }
    }
    Option::None
}

/// Whether `needle` occurs in `hay`.
pub fn contains_sub(hay: &str, needle: &str) -> (r: bool)
    ensures
        r == spec_contains_sub(hay@, needle@),
{
    match find_from(hay, needle, 0) {
        Option::Some(_) => true,
        Option::None => false,
    }
}

/// A sequential match found beyond some prefix is also found from the
/// start: dropping less of the haystack never loses a match.
proof fn lemma_parts_match_mono(hay: Seq<char>, parts: Seq<Seq<char>>, a: int)
    requires
        0 <= a <= hay.len(),
        spec_parts_match(hay.skip(a), parts),
    ensures
        spec_parts_match(hay, parts),
    decreases parts.len(),
{
    if parts.len() > 0 {
        let l = parts[0].len() as int;
        let k = choose|k: int|
            #![trigger hay.skip(a).subrange(k, k + l)]
            spec_occurs_at(hay.skip(a), parts[0], k) && spec_parts_match(
                hay.skip(a).skip(k + l),
                parts.skip(1),
            );
        assert(hay.skip(a).subrange(k, k + l) =~= hay.subrange(a + k, a + k + l));
        assert(spec_occurs_at(hay, parts[0], a + k));
        assert(hay.skip(a).skip(k + l) =~= hay.skip(a + k + l));
        assert(spec_parts_match(hay.skip(a + k + l), parts.skip(1)));
    }
}

/// The greedy scan is complete: whenever the keywords match somewhere,
/// taking each keyword's first occurrence also succeeds.
proof fn lemma_greedy_complete(hay: Seq<char>, parts: Seq<Seq<char>>, k0: int)
    requires
        parts.len() > 0,
        spec_parts_match(hay, parts),
        spec_occurs_at(hay, parts[0], k0),
        forall|k2: int| 0 <= k2 < k0 ==> !spec_occurs_at(hay, parts[0], k2),
    ensures
        spec_parts_match(hay.skip(k0 + parts[0].len() as int), parts.skip(1)),
{
    let l = parts[0].len() as int;
    let k = choose|k: int|
        #![trigger hay.subrange(k, k + l)]
        spec_occurs_at(hay, parts[0], k) && spec_parts_match(hay.skip(k + l), parts.skip(1));
    assert(k >= k0);
    assert(hay.skip(k + l) =~= hay.skip(k0 + l).skip(k - k0));
    lemma_parts_match_mono(hay.skip(k0 + l), parts.skip(1), k - k0);
}

/// Whether the keywords occur in `hay` sequentially; the greedy scan,
/// shown equivalent to the existential meaning.
pub fn parts_match(hay: &str, parts: &Vec<String>) -> (r: bool)
    ensures
        r == spec_parts_match(hay@, parts.deep_view()),
{
    let ghost pd = parts.deep_view();
    proof {
        assert(hay@.skip(0) =~= hay@);
        assert(pd.skip(0) =~= pd);
        assert(pd.len() == parts@.len());
        assert(forall|j: int| 0 <= j < pd.len() ==> pd[j] == (#[trigger] parts@[j])@);
    }
    let n: usize = parts.len();
    let mut from: usize = 0;
    let mut i: usize = 0;
    while i < n
        invariant
            i <= n,
            n == parts@.len(),
            pd == parts.deep_view(),
            pd.len() == n,
            forall|j: int| 0 <= j < n ==> pd[j] == (#[trigger] parts@[j])@,
            from <= hay@.len(),
            spec_parts_match(hay@, pd) <==> spec_parts_match(
                hay@.skip(from as int),
                pd.skip(i as int),
            ),
        decreases n - i,
    {
        let ghost pre_from = from as int;
        let part: &String = &parts[i];
        let rest: &str = hay.substring_char(from, hay.unicode_len());
        let found: Option<usize> = find_from(rest, part.as_str(), 0);
        proof {
            assert(rest@ =~= hay@.skip(pre_from));
        }
        match found {
            Option::Some(k) => {
                proof {
                    let tail = hay@.skip(pre_from);
                    let ps = pd.skip(i as int);
                    assert(ps[0] == pd[i as int]);
                    assert(ps.skip(1) =~= pd.skip(i + 1));
                    assert(spec_occurs_at(tail, pd[i as int], k as int));
                    if spec_parts_match(tail, ps) {
                        lemma_greedy_complete(tail, ps, k as int);
                    }
                    assert(tail.skip(k as int + pd[i as int].len() as int) =~= hay@.skip(
                        pre_from + k + pd[i as int].len(),
                    ));
                    if spec_parts_match(
                        hay@.skip(pre_from + k + pd[i as int].len()),
                        pd.skip(i + 1),
                    ) {
                        assert(spec_parts_match(tail, ps));
                    }
                }
                from = from + k + part.as_str().unicode_len();
            }
            Option::None => {
                proof {
                    let tail = hay@.skip(pre_from);
                    let ps = pd.skip(i as int);
                    assert(ps[0] == pd[i as int]);
                    if spec_parts_match(tail, ps) {
                        let k = choose|k: int|
                            #![trigger tail.subrange(k, k + ps[0].len() as int)]
                            spec_occurs_at(tail, ps[0], k) && spec_parts_match(
                                tail.skip(k + ps[0].len() as int),
                                ps.skip(1),
                            );
                        assert(spec_occurs_at(tail, pd[i as int], k));
                    }
                    assert(!spec_parts_match(hay@, pd));
                }
                return false;
            }
        }
        i += 1;
    }
    proof {
        assert(pd.skip(n as int) =~= Seq::<Seq<char>>::empty());
        assert(spec_parts_match(hay@.skip(from as int), pd.skip(n as int)));
    }
    true
}

/// The words a keyword string splits into at spaces, empty words kept;
/// `cur` is the word under construction.
pub open spec fn spec_split_acc(s: Seq<char>, cur: Seq<char>) -> Seq<Seq<char>>
    decreases s.len(),
{
    if s.len() == 0 {
        seq![cur]
    } else if s[0] == ' ' {
        seq![cur] + spec_split_acc(s.skip(1), Seq::empty())
    } else {
        spec_split_acc(s.skip(1), cur.push(s[0]))
    }
}

/// The words a keyword string splits into at spaces.
pub open spec fn spec_split_spaces(s: Seq<char>) -> Seq<Seq<char>> {
    spec_split_acc(s, Seq::empty())
}

/// Splitting what remains after position `i`, with the current word
/// running since `start`, is a step of splitting the remainder from
/// `start`.
proof fn lemma_split_acc_step(s: Seq<char>, start: int, i: int)
    requires
        0 <= start <= i < s.len(),
    ensures
        s[i] == ' ' ==> spec_split_acc(s.skip(i), s.subrange(start, i)) == seq![
            s.subrange(start, i),
        ] + spec_split_acc(s.skip(i + 1), Seq::empty()),
        s[i] != ' ' ==> spec_split_acc(s.skip(i), s.subrange(start, i)) == spec_split_acc(
            s.skip(i + 1),
            s.subrange(start, i + 1),
        ),
{
    assert(s.skip(i)[0] == s[i]);
    assert(s.skip(i).skip(1) =~= s.skip(i + 1));
    if s[i] != ' ' {
        assert(s.subrange(start, i).push(s[i]) =~= s.subrange(start, i + 1));
    }
}

/// Split a keyword string at spaces, empty words kept — the executable
/// twin of the pattern a keyword search strings together.
pub fn split_spaces(text: &str) -> (r: Vec<String>)
    ensures
        r.deep_view() == spec_split_spaces(text@),
{
    let n: usize = text.unicode_len();
    let mut r: Vec<String> = Vec::new();
    let mut start: usize = 0;
    let mut i: usize = 0;
    proof {
        assert(text@.skip(0) =~= text@);
        assert(text@.subrange(0, 0) =~= Seq::<char>::empty());
    }
    while i < n
        invariant
            start <= i <= n,
            n == text@.len(),
            spec_split_spaces(text@) == r.deep_view() + spec_split_acc(
                text@.skip(i as int),
                text@.subrange(start as int, i as int),
            ),
        decreases n - i,
    {
        let ghost pre = r.deep_view();
        if text.get_char(i) == ' ' {
            let word: String = text.substring_char(start, i).to_owned();
            proof {
                lemma_split_acc_step(text@, start as int, i as int);
            }
            r.push(word);
            proof {
                assert(r.deep_view() =~= pre.push(text@.subrange(start as int, i as int)));
                assert(text@.subrange(i + 1, i + 1) =~= Seq::<char>::empty());
                assert(r.deep_view() + spec_split_acc(
                    text@.skip(i + 1),
                    text@.subrange(i + 1, i + 1),
                ) =~= spec_split_spaces(text@));
            }
            start = i + 1;
        } else {
            proof {
                lemma_split_acc_step(text@, start as int, i as int);
            }
        }
        i += 1;
    }
    let last: String = text.substring_char(start, n).to_owned();
    let ghost pre = r.deep_view();
    r.push(last);
    proof {
        assert(text@.skip(n as int) =~= Seq::<char>::empty());
        assert(spec_split_acc(text@.skip(n as int), text@.subrange(start as int, n as int))
            == seq![text@.subrange(start as int, n as int)]);
        assert(r.deep_view() =~= pre.push(text@.subrange(start as int, n as int)));
        assert(r.deep_view() =~= spec_split_spaces(text@));
    }
    r
}

} // verus!
