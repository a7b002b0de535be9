//! The bounded moderation log: newest entries first, trimmed to a fixed
//! capacity.

use vstd::prelude::*;

verus! {

/// Capacity of the moderation log.
pub const SYSTEMLOG_MAX_LEN: usize = 1000;

/// What kind of moderation action a log entry records.
#[derive(Clone, Copy, Debug, PartialEq, Eq, Structural)]
pub enum LogType {
    AdminDelete,
    Report,
    Ban,
}

/// One moderation log entry.
#[derive(Debug, PartialEq)]
pub struct Systemlog {
    pub user_hash: String,
    pub action_type: LogType,
    pub target: String,
    pub detail: String,
    pub time: i64,
}

impl Clone for Systemlog {
    fn clone(&self) -> (res: Self)
        ensures
            res == *self,
    {
        Systemlog {
            user_hash: self.user_hash.clone(),
            action_type: self.action_type,
            target: self.target.clone(),
            detail: self.detail.clone(),
            time: self.time,
        }
    }
}

/// The log store, newest entry first.
pub struct SystemlogStore {
    entries: Vec<Systemlog>,
}

impl View for SystemlogStore {
    type V = Seq<Systemlog>;

    closed spec fn view(&self) -> Seq<Systemlog> {
        self.entries@
    }
}

impl SystemlogStore {
    pub fn init() -> (r: Self)
        ensures
            r@ =~= Seq::<Systemlog>::empty(),
    {
        SystemlogStore { entries: Vec::new() }
    }

    /// Append a fresh entry at the front; when the log has outgrown its
    /// capacity it is first trimmed back to it.
    pub fn create(&mut self, entry: Systemlog)
        ensures
            final(self)@.len() <= SYSTEMLOG_MAX_LEN + 1,
            final(self)@.len() >= 1,
            final(self)@[0] == entry,
            old(self)@.len() <= SYSTEMLOG_MAX_LEN ==> final(self)@ == seq![entry] + old(self)@,
            old(self)@.len() > SYSTEMLOG_MAX_LEN ==> final(self)@ == seq![entry] + old(
                self,
            )@.take(SYSTEMLOG_MAX_LEN as int),
    {
        if self.entries.len() > SYSTEMLOG_MAX_LEN {
            self.entries.truncate(SYSTEMLOG_MAX_LEN);
        }
        let ghost mid = self.entries@;
        self.entries.insert(0, entry);
        proof {
            mid.insert_ensures(0, entry);
            assert(self.entries@ =~= seq![entry] + mid);
        }
    }

    /// The newest entries, up to the rank `limit` inclusive.
    pub fn get_list(&self, limit: usize) -> (r: Vec<Systemlog>)
        requires
            limit < usize::MAX,
        ensures
            r@.len() == (if limit + 1 <= self@.len() {
                limit + 1
            } else {
                self@.len() as int
            }),
            forall|j: int| 0 <= j < r@.len() ==> r@[j] == self@[j],
    {
        let n: usize = self.entries.len();
        let e: usize = if limit + 1 <= n {
            limit + 1
        } else {
            n
        };
        let mut r: Vec<Systemlog> = Vec::new();
        let mut i: usize = 0;
        while i < e
            invariant
                i <= e <= n,
                n == self.entries@.len(),
                r@.len() == i as int,
                forall|j: int| 0 <= j < i ==> r@[j] == self.entries@[j],
            decreases e - i,
        {
            r.push(self.entries[i].clone());
            i += 1;
        }
        r
    }
}

} // verus!
