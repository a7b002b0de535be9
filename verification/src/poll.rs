//! Polls attached to posts: the option list of each poll and the set of
//! fingerprints behind every option.

use vstd::prelude::*;

use crate::api::{CurrentUser, PolicyError, VoteInput};
use crate::intmap::IntMap;
use crate::strmap::StrMap;

verus! {

/// An exact copy of an option list.
fn clone_strings(v: &Vec<String>) -> (r: Vec<String>)
    ensures
        r@ == v@,
{
    let mut r: Vec<String> = Vec::new();
    let n: usize = v.len();
    let mut i: usize = 0;
    while i < n
        invariant
            i <= n,
            n == v@.len(),
            r@ =~= v@.take(i as int),
        decreases n - i,
    {
        r.push(v[i].clone());
        proof {
            assert(r@ =~= v@.take(i + 1));
        }
        i += 1;
    }
    proof {
        assert(v@.take(n as int) =~= v@);
    }
    r
}

/// The option list of each post's poll.
pub struct PollOption {
    lists: IntMap<Vec<String>>,
}

impl PollOption {
    pub closed spec fn wf(self) -> bool {
        self.lists.wf()
    }

    /// The options of `pid`'s poll; a post without one has none.
    pub closed spec fn spec_options(self, pid: i32) -> Seq<String> {
        if self.lists@.contains_key(pid) {
            self.lists@[pid]@
        } else {
            Seq::empty()
        }
    }

    pub fn init() -> (r: Self)
        ensures
            r.wf(),
            forall|pid: i32| r.spec_options(pid) =~= Seq::<String>::empty(),
    {
        PollOption { lists: IntMap::new() }
    }

    /// Replace the whole option list of `pid`.
    pub fn set_list(&mut self, pid: i32, v: &Vec<String>)
        requires
            old(self).wf(),
        ensures
            final(self).wf(),
            final(self).spec_options(pid) == v@,
            forall|q: i32| q != pid ==> final(self).spec_options(q) == old(self).spec_options(q),
    {
        self.lists.insert(pid, clone_strings(v));
    }

    /// The options of `pid`'s poll, empty when it has none.
    pub fn get_list(&self, pid: i32) -> (r: Vec<String>)
        requires
            self.wf(),
        ensures
            r@ == self.spec_options(pid),
    {
        match self.lists.get(pid) {
            Option::Some(v) => clone_strings(v),
            Option::None => Vec::new(),
        }
    }
}

/// The fingerprints behind each option of each poll.
pub struct PollVote {
    votes: IntMap<Vec<StrMap<bool>>>,
}

impl PollVote {
    pub closed spec fn wf(self) -> bool {
        self.votes.wf() && forall|pid: i32|
            self.votes@.contains_key(pid) ==> forall|i: int|
                0 <= i < self.votes@[pid]@.len() ==> (#[trigger] self.votes@[pid]@[i]).wf()
    }

    /// Who voted for option `idx` of `pid`'s poll.
    pub closed spec fn spec_votes(self, pid: i32, idx: int) -> Map<Seq<char>, bool> {
        if self.votes@.contains_key(pid) && 0 <= idx < self.votes@[pid]@.len() {
            self.votes@[pid]@[idx]@
        } else {
            Map::empty()
        }
    }

    pub fn init() -> (r: Self)
        ensures
            r.wf(),
            forall|pid: i32, idx: int| r.spec_votes(pid, idx) =~= Map::<Seq<char>, bool>::empty(),
    {
        PollVote { votes: IntMap::new() }
    }

    /// Whether `namehash` voted for option `idx`.
    pub fn has(&self, pid: i32, idx: usize, namehash: &String) -> (r: bool)
        requires
            self.wf(),
        ensures
            r == self.spec_votes(pid, idx as int).contains_key(namehash@),
    {
        match self.votes.get(pid) {
            Option::Some(sets) => {
                if idx < sets.len() {
                    sets[idx].contains_key(namehash)
                } else {
                    false
                }
            }
            Option::None => false,
        }
    }

    /// How many votes option `idx` drew.
    pub fn count(&self, pid: i32, idx: usize) -> (r: usize)
        requires
            self.wf(),
        ensures
            r as int == self.spec_votes(pid, idx as int).len(),
    {
        match self.votes.get(pid) {
            Option::Some(sets) => {
                if idx < sets.len() {
                    proof {
                        crate::strmap::lemma_strmap_len(&sets[idx as int]);
                    }
                    sets[idx].len()
                } else {
                    proof {
                        assert(Map::<Seq<char>, bool>::empty().dom() =~= Set::empty());
                    }
                    0
                }
            }
            Option::None => {
                proof {
                    assert(Map::<Seq<char>, bool>::empty().dom() =~= Set::empty());
                }
                0
            }
        }
    }

    /// Record `namehash`'s vote for option `idx`, growing the per-option
    /// sets up to `idx` if the poll never saw a vote there.
    pub fn add(&mut self, pid: i32, idx: usize, namehash: &String)
        requires
            old(self).wf(),
            idx < usize::MAX,
        ensures
            final(self).wf(),
            final(self).spec_votes(pid, idx as int).contains_key(namehash@),
            forall|q: i32, j: int|
                !(q == pid && j == idx as int) ==> final(self).spec_votes(q, j) =~= old(
                    self,
                ).spec_votes(q, j),
    {
        let mut sets: Vec<StrMap<bool>> = match self.votes.take(pid) {
            Option::Some(s) => s,
            Option::None => Vec::new(),
        };
        let ghost presets = sets@;
        while sets.len() <= idx
            invariant
                forall|i: int| 0 <= i < sets@.len() ==> (#[trigger] sets@[i]).wf(),
                forall|i: int| 0 <= i < presets.len() && i < sets@.len() ==> sets@[i] == presets[i],
                forall|i: int| presets.len() <= i < sets@.len() ==> (#[trigger] sets@[i])@
                    =~= Map::<Seq<char>, bool>::empty(),
                sets@.len() >= presets.len(),
                idx < usize::MAX,
            decreases idx + 1 - sets.len(),
        {
            sets.push(StrMap::new());
        }
        let ghost grown = sets@;
        let slot: &mut StrMap<bool> = &mut sets[idx];
        slot.insert(namehash.clone(), true);
        self.votes.insert(pid, sets);
        proof {
            assert(sets@ == grown.update(idx as int, sets@[idx as int]));
            assert(self.votes@.contains_key(pid));
            assert(self.votes@[pid]@[idx as int]@.contains_key(namehash@));
            assert forall|q: i32, j: int|
                !(q == pid && j == idx as int) implies final(self).spec_votes(q, j) =~= old(
                self,
            ).spec_votes(q, j) by {
                if q == pid {
                    if 0 <= j < grown.len() && j != idx as int {
                        assert(sets@[j] == grown[j]);
                        if j < presets.len() {
                            assert(grown[j] == presets[j]);
                        }
                    }
                }
            }
        }
    }
}

/// One rendered poll answer: the option text and its tally.
#[derive(Debug, PartialEq)]
pub struct PollAnswer {
    pub option: String,
    pub votes: usize,
}

/// A rendered poll: every answer with its tally, and the viewer's own
/// choice if any.
#[derive(Debug, PartialEq)]
pub struct PollDict {
    pub answers: Vec<PollAnswer>,
    pub vote: Option<String>,
}

/// Render `pid`'s poll for a viewer: nothing when the post has no poll;
/// otherwise one answer per option, in order, each with its tally, and
/// the last option the viewer voted for.
pub fn get_poll_dict(po: &PollOption, pv: &PollVote, pid: i32, namehash: &String) -> (r: Option<
    PollDict,
>)
    requires
        po.wf(),
        pv.wf(),
    ensures
        r is Some <==> po.spec_options(pid).len() > 0,
        r is Some ==> {
            let d = r->0;
            {
                &&& d.answers@.len() == po.spec_options(pid).len()
                &&& forall|i: int|
                    0 <= i < d.answers@.len() ==> (#[trigger] d.answers@[i]).option@
                        == po.spec_options(pid)[i]@ && d.answers@[i].votes as int == pv.spec_votes(
                        pid,
                        i,
                    ).len()
                &&& (d.vote is Some ==> exists|i: int|
                    0 <= i < po.spec_options(pid).len() && (#[trigger] po.spec_options(pid)[i])@
                        == d.vote->0@ && pv.spec_votes(pid, i).contains_key(namehash@))
                &&& (d.vote is None ==> forall|i: int|
                    0 <= i < po.spec_options(pid).len() ==> !pv.spec_votes(pid, i).contains_key(
                        namehash@,
                    ))
            }
        },
{
    let opts: Vec<String> = po.get_list(pid);
    let n: usize = opts.len();
    if n == 0 {
        return Option::None;
    }
    let mut answers: Vec<PollAnswer> = Vec::new();
    let mut choice: Option<String> = Option::None;
    let mut i: usize = 0;
    while i < n
        invariant
            i <= n,
            n == opts@.len(),
            opts@ == po.spec_options(pid),
            po.wf(),
            pv.wf(),
            answers@.len() == i as int,
            forall|j: int|
                0 <= j < i ==> (#[trigger] answers@[j]).option@ == po.spec_options(pid)[j]@
                    && answers@[j].votes as int == pv.spec_votes(pid, j).len(),
            choice is Some ==> exists|j: int|
                0 <= j < i && (#[trigger] po.spec_options(pid)[j])@ == choice->0@
                    && pv.spec_votes(pid, j).contains_key(namehash@),
            choice is None ==> forall|j: int|
                0 <= j < i ==> !pv.spec_votes(pid, j).contains_key(namehash@),
        decreases n - i,
    {
        let tally: usize = pv.count(pid, i);
        answers.push(PollAnswer { option: opts[i].clone(), votes: tally });
        if pv.has(pid, i, namehash) {
            choice = Option::Some(opts[i].clone());
            proof {
                assert((po.spec_options(pid)[i as int])@ == choice->0@);
            }
        }
        i += 1;
    }
    Option::Some(PollDict { answers, vote: choice })
}

/// Cast a vote: only a registered user, only on a post that has a poll,
/// only once per poll, and only for an option the poll offers. The vote
/// lands on the first option equal to the ballot text, and the freshly
/// rendered poll is returned.
pub fn vote(po: &PollOption, pv: &mut PollVote, user: &CurrentUser, vi: &VoteInput) -> (r: Result<
    PollDict,
    PolicyError,
>)
    requires
        po.wf(),
        old(pv).wf(),
    ensures
        final(pv).wf(),
        user.id is None ==> r == Result::<PollDict, PolicyError>::Err(PolicyError::NotAllowed)
            && *final(pv) == *old(pv),
        user.id is Some && po.spec_options(vi.pid).len() == 0 ==> r == Result::<
            PollDict,
            PolicyError,
        >::Err(PolicyError::NotAllowed) && *final(pv) == *old(pv),
        user.id is Some && po.spec_options(vi.pid).len() > 0 && (exists|j: int|
            0 <= j < po.spec_options(vi.pid).len() && old(pv).spec_votes(vi.pid, j).contains_key(
                user.namehash@,
            )) ==> r == Result::<PollDict, PolicyError>::Err(PolicyError::NotAllowed) && *final(pv)
            == *old(pv),
        r is Ok ==> exists|j: int|
            0 <= j < po.spec_options(vi.pid).len() && (#[trigger] po.spec_options(vi.pid)[j])@
                == vi.vote@ && final(pv).spec_votes(vi.pid, j).contains_key(user.namehash@),
        user.id is Some && po.spec_options(vi.pid).len() > 0 && !(exists|j: int|
            0 <= j < po.spec_options(vi.pid).len() && old(pv).spec_votes(vi.pid, j).contains_key(
                user.namehash@,
            )) ==> (r is Ok <==> exists|j: int|
            0 <= j < po.spec_options(vi.pid).len() && (#[trigger] po.spec_options(vi.pid)[j])@
                == vi.vote@),
{
    if user.id.is_none() {
        return Result::Err(PolicyError::NotAllowed);
    }
    let opts: Vec<String> = po.get_list(vi.pid);
    let n: usize = opts.len();
    if n == 0 {
        return Result::Err(PolicyError::NotAllowed);
    }
    let mut i: usize = 0;
    while i < n
        invariant
            i <= n,
            n == opts@.len(),
            opts@ == po.spec_options(vi.pid),
            po.wf(),
            pv.wf(),
            *pv == *old(pv),
            forall|j: int|
                0 <= j < i ==> !old(pv).spec_votes(vi.pid, j).contains_key(user.namehash@),
        decreases n - i,
    {
        if pv.has(vi.pid, i, &user.namehash) {
            return Result::Err(PolicyError::NotAllowed);
        }
        i += 1;
    }
    let mut idx: usize = 0;
    let mut found: bool = false;
    let mut k: usize = 0;
    while k < n
        invariant
            k <= n,
            n == opts@.len(),
            opts@ == po.spec_options(vi.pid),
            !found ==> forall|j: int| 0 <= j < k ==> (#[trigger] opts@[j])@ != vi.vote@,
            found ==> idx < n && (opts@[idx as int])@ == vi.vote@,
        decreases n - k,
    {
        if !found && opts[k] == vi.vote {
            idx = k;
            found = true;
        }
        k += 1;
    }
    if !found {
        return Result::Err(PolicyError::NotAllowed);
    }
    pv.add(vi.pid, idx, &user.namehash);
    match get_poll_dict(po, pv, vi.pid, &user.namehash) {
        Option::Some(d) => Result::Ok(d),
        Option::None => Result::Err(PolicyError::NotAllowed),
    }
}

} // verus!
