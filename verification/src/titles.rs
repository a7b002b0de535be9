//! Custom display titles: a two-way registry between fingerprints and
//! titles, each title protected by a generated secret for a limited
//! time, and the elected candidate/administrator rolls a title may sit
//! on.

use vstd::prelude::*;

use crate::api::PolicyError;
use crate::rng::random_string;
use crate::spec_alive;
use crate::strmap::StrMap;

verus! {

/// How long a title's protection secret lives once written.
pub const CUSTOM_TITLE_KEEP_TIME: i64 = 604800;

/// A title's protection secret and its expiry instant.
pub struct SecretEntry {
    pub secret: String,
    pub expires_at: i64,
}

/// The elected rolls: titles voted into candidacy or administration.
pub struct Elections {
    candidates: StrMap<bool>,
    admins: StrMap<bool>,
}

impl Elections {
    pub closed spec fn wf(self) -> bool {
        self.candidates.wf() && self.admins.wf()
    }

    pub open spec fn spec_is_candidate(self, title: Seq<char>) -> bool {
        self.spec_candidates().contains_key(title)
    }

    pub open spec fn spec_is_admin(self, title: Seq<char>) -> bool {
        self.spec_admins().contains_key(title)
    }

    pub closed spec fn spec_candidates(self) -> Map<Seq<char>, bool> {
        self.candidates@
    }

    pub closed spec fn spec_admins(self) -> Map<Seq<char>, bool> {
        self.admins@
    }

    pub fn init() -> (r: Self)
        ensures
            r.wf(),
            forall|t: Seq<char>| !r.spec_is_candidate(t) && !r.spec_is_admin(t),
    {
        Elections { candidates: StrMap::new(), admins: StrMap::new() }
    }

    pub fn add_candidate(&mut self, title: &String)
        requires
            old(self).wf(),
        ensures
            final(self).wf(),
            final(self).spec_candidates() =~= old(self).spec_candidates().insert(title@, true),
            final(self).spec_admins() == old(self).spec_admins(),
    {
        self.candidates.insert(title.clone(), true);
    }

    pub fn add_admin(&mut self, title: &String)
        requires
            old(self).wf(),
        ensures
            final(self).wf(),
            final(self).spec_admins() =~= old(self).spec_admins().insert(title@, true),
            final(self).spec_candidates() == old(self).spec_candidates(),
    {
        self.admins.insert(title.clone(), true);
    }

    /// Whether a user's title, if any, was elected a candidate.
    pub fn is_elected_candidate(&self, title: &Option<String>) -> (r: bool)
        requires
            self.wf(),
        ensures
            r == (title is Some && self.spec_is_candidate(title->0@)),
    {
        match title {
            Option::Some(t) => self.candidates.contains_key(t),
            Option::None => false,
        }
    }

    /// Whether a user's title, if any, was elected an administrator.
    pub fn is_elected_admin(&self, title: &Option<String>) -> (r: bool)
        requires
            self.wf(),
        ensures
            r == (title is Some && self.spec_is_admin(title->0@)),
    {
        match title {
            Option::Some(t) => self.admins.contains_key(t),
            Option::None => false,
        }
    }

    pub fn get_admin_list(&self) -> (r: Vec<String>)
        requires
            self.wf(),
        ensures
            forall|j: int| 0 <= j < r@.len() ==> self.spec_is_admin((#[trigger] r@[j])@),
            forall|t: Seq<char>|
                self.spec_is_admin(t) ==> exists|j: int|
                    0 <= j < r@.len() && (#[trigger] r@[j])@ == t,
    {
        self.admins.keys()
    }

    pub fn get_candidate_list(&self) -> (r: Vec<String>)
        requires
            self.wf(),
        ensures
            forall|j: int| 0 <= j < r@.len() ==> self.spec_is_candidate((#[trigger] r@[j])@),
            forall|t: Seq<char>|
                self.spec_is_candidate(t) ==> exists|j: int|
                    0 <= j < r@.len() && (#[trigger] r@[j])@ == t,
    {
        self.candidates.keys()
    }

    /// Strip a title from both elected rolls; any change of who owns a
    /// title forfeits its mandates.
    pub fn clear_title_from_admins(&mut self, title: &String)
        requires
            old(self).wf(),
        ensures
            final(self).wf(),
            final(self).spec_candidates() =~= old(self).spec_candidates().remove(title@),
            final(self).spec_admins() =~= old(self).spec_admins().remove(title@),
    {
        self.candidates.remove(title);
        self.admins.remove(title);
    }
}

/// The title registry: fingerprint-to-title and title-to-fingerprint in
/// one dictionary, plus the per-title protection secrets.
pub struct CustomTitle {
    pairs: StrMap<String>,
    secrets: StrMap<SecretEntry>,
}

impl CustomTitle {
    pub closed spec fn wf(self) -> bool {
        self.pairs.wf() && self.secrets.wf()
    }

    /// The two-way ownership dictionary, fingerprints and titles mixed
    /// as the underlying store keeps them.
    pub closed spec fn spec_pairs(self) -> Map<Seq<char>, String> {
        self.pairs@
    }

    /// The secret protecting a title at `now`, if one is still alive.
    pub closed spec fn spec_secret(self, title: Seq<char>, now: i64) -> Option<Seq<char>> {
        if self.secrets@.contains_key(title) && spec_alive(self.secrets@[title].expires_at, now) {
            Option::Some(self.secrets@[title].secret@)
        } else {
            Option::None
        }
    }

    pub fn init() -> (r: Self)
        ensures
            r.wf(),
            r.spec_pairs() =~= Map::<Seq<char>, String>::empty(),
            forall|t: Seq<char>, now: i64| r.spec_secret(t, now) is None,
    {
        CustomTitle { pairs: StrMap::new(), secrets: StrMap::new() }
    }

    /// Claim a title. A title that is already someone's key is taken; a
    /// title whose protection secret is still alive needs that secret
    /// repeated; an unprotected title forfeits its elected mandates
    /// before changing hands. On success both directions of the
    /// ownership pair are written, the claimant's former title forfeits
    /// its mandates, and a fresh eight-character secret protects the
    /// title for the keep window.
    pub fn set(
        &mut self,
        elections: &mut Elections,
        namehash: &String,
        title: &String,
        secret: &String,
        now: i64,
    ) -> (r: Result<String, PolicyError>)
        requires
            old(self).wf(),
            old(elections).wf(),
            0 <= now <= i64::MAX - CUSTOM_TITLE_KEEP_TIME,
        ensures
            final(self).wf(),
            final(elections).wf(),
            old(self).spec_pairs().contains_key(title@) ==> r == Result::<
                String,
                PolicyError,
            >::Err(PolicyError::TitleUsed) && *final(self) == *old(self) && *final(elections)
                == *old(elections),
            !old(self).spec_pairs().contains_key(title@) && old(self).spec_secret(title@, now)
                is Some && old(self).spec_secret(title@, now) != Option::Some(secret@) ==> {
                &&& r == Result::<String, PolicyError>::Err(PolicyError::TitleProtected)
                &&& final(self).spec_pairs() == old(self).spec_pairs()
            },
            !old(self).spec_pairs().contains_key(title@) && (old(self).spec_secret(title@, now)
                is None || old(self).spec_secret(title@, now) == Option::Some(secret@)) ==> {
                &&& r is Ok
                &&& r->Ok_0@.len() == 8
                &&& final(self).spec_pairs().contains_key(namehash@)
                &&& final(self).spec_pairs()[namehash@]@ == title@
                &&& final(self).spec_pairs().contains_key(title@)
                &&& final(self).spec_pairs()[title@]@ == namehash@
                &&& final(self).spec_secret(title@, now) == Option::Some(r->Ok_0@)
            },
    {
        if self.pairs.contains_key(title) {
            return Result::Err(PolicyError::TitleUsed);
        }
        let alive_secret: Option<String> = match self.secrets.get(title) {
            Option::Some(e) => {
                if now < e.expires_at {
                    Option::Some(e.secret.clone())
                } else {
                    Option::None
                }
            }
            Option::None => Option::None,
        };
        match &alive_secret {
            Option::None => {
                elections.clear_title_from_admins(title);
            }
            Option::Some(s) => {
                if !(*s == *secret) {
                    return Result::Err(PolicyError::TitleProtected);
                }
            }
        }
        let old_title: Option<String> = match self.pairs.get(namehash) {
            Option::Some(t) => Option::Some(t.clone()),
            Option::None => Option::None,
        };
        if let Option::Some(t) = &old_title {
            elections.clear_title_from_admins(t);
        }
        self.pairs.insert(namehash.clone(), title.clone());
        self.pairs.insert(title.clone(), namehash.clone());
        let fresh: String = random_string(8);
        self.secrets.insert(
            title.clone(),
            SecretEntry { secret: fresh.clone(), expires_at: now + CUSTOM_TITLE_KEEP_TIME },
        );
        Result::Ok(fresh)
    }

    /// The caller's title and its secret. A held title always comes back
    /// with a live secret: an alive one has its window extended, an
    /// expired one is replaced by a fresh draw.
    pub fn get(&mut self, namehash: &String, now: i64) -> (r: (Option<String>, Option<String>))
        requires
            old(self).wf(),
            0 <= now <= i64::MAX - CUSTOM_TITLE_KEEP_TIME,
        ensures
            final(self).wf(),
            final(self).spec_pairs() == old(self).spec_pairs(),
            !old(self).spec_pairs().contains_key(namehash@) ==> r == (
                Option::<String>::None,
                Option::<String>::None,
            ) && *final(self) == *old(self),
            old(self).spec_pairs().contains_key(namehash@) ==> {
                &&& r.0 is Some
                &&& r.0->0@ == old(self).spec_pairs()[namehash@]@
                &&& r.1 is Some
                &&& (match old(self).spec_secret(old(self).spec_pairs()[namehash@]@, now) {
                    Option::Some(s) => r.1->0@ == s,
                    Option::None => r.1->0@.len() == 8,
                })
                &&& final(self).spec_secret(old(self).spec_pairs()[namehash@]@, now)
                    == Option::Some(r.1->0@)
            },
    {
        let title: String = match self.pairs.get(namehash) {
            Option::Some(t) => t.clone(),
            Option::None => {
                return (Option::None, Option::None);
            }
        };
        let alive_secret: Option<String> = match self.secrets.get(&title) {
            Option::Some(e) => {
                if now < e.expires_at {
                    Option::Some(e.secret.clone())
                } else {
                    Option::None
                }
            }
            Option::None => Option::None,
        };
        let secret: String = match alive_secret {
            Option::Some(s) => {
                self.secrets.insert(
                    title.clone(),
                    SecretEntry { secret: s.clone(), expires_at: now + CUSTOM_TITLE_KEEP_TIME },
                );
                s
            }
            Option::None => {
                let fresh: String = random_string(8);
                self.secrets.insert(
                    title.clone(),
                    SecretEntry {
                        secret: fresh.clone(),
                        expires_at: now + CUSTOM_TITLE_KEEP_TIME,
                    },
                );
                fresh
            }
        };
        (Option::Some(title), Option::Some(secret))
    }

    /// Drop the ownership registry, as the periodic reset does. The
    /// protection secrets are left to expire on their own, so a freshly
    /// reset title still refuses strangers for the rest of its window.
    pub fn clear(&mut self)
        requires
            old(self).wf(),
        ensures
            final(self).wf(),
            final(self).spec_pairs() =~= Map::<Seq<char>, String>::empty(),
            forall|t: Seq<char>, now: i64|
                final(self).spec_secret(t, now) == old(self).spec_secret(t, now),
    {
        self.pairs.clear();
    }
}

/// Assemble the pseudonymous caller a fingerprint denotes: no numeric
/// id and no privileges, with the fingerprint's title, that title's
/// secret, and the configured auto-hide rank.
pub fn current_user_from_hash(
    titles: &mut CustomTitle,
    ranks: &crate::block::AutoBlockRank,
    namehash: &String,
    now: i64,
) -> (r: crate::api::CurrentUser)
    requires
        old(titles).wf(),
        ranks.wf(),
        0 <= now <= i64::MAX - CUSTOM_TITLE_KEEP_TIME,
    ensures
        final(titles).wf(),
        r.id is None,
        !r.is_admin,
        !r.is_candidate,
        r.namehash@ == namehash@,
        r.custom_title is Some <==> old(titles).spec_pairs().contains_key(namehash@),
        r.custom_title is Some ==> r.custom_title->0@ == old(titles).spec_pairs()[namehash@]@,
        r.auto_block_rank == (if ranks@.contains_key(namehash@) {
            ranks@[namehash@]
        } else {
            crate::block::DEFAULT_AUTO_BLOCK_RANK
        }),
{
    let (custom_title, title_secret) = titles.get(namehash, now);
    crate::api::CurrentUser {
        id: Option::None,
        namehash: namehash.clone(),
        is_admin: false,
        is_candidate: false,
        custom_title,
        title_secret,
        auto_block_rank: ranks.get(namehash),
    }
}

} // verus!
