//! The replicated log store: an append-only log ordered by index, truncation
//! of conflicting suffixes, purge of snapshotted prefixes, and the persisted
//! vote record. Durability (flushing to disk) is the caller's duty; the
//! contracts here pin down what each operation does to the log's contents.

use vstd::prelude::*;

use crate::state::Command;

verus! {

/// The identity of one log position: the leader that committed it and the
/// index.
#[derive(Clone, Copy, Debug, PartialEq, Eq, Structural)]
pub struct LogId {
    pub term: u64,
    pub node_id: u64,
    pub index: u64,
}

/// A persisted vote: granting it durably is mandatory before answering.
#[derive(Clone, Copy, Debug, PartialEq, Eq, Structural)]
pub struct Vote {
    pub leader_id: LeaderId,
    pub committed: bool,
}

/// A leader's identity: its election term and node id.
#[derive(Clone, Copy, Debug, PartialEq, Eq, Structural)]
pub struct LeaderId {
    pub term: u64,
    pub node_id: u64,
}

/// What one log entry carries.
pub enum EntryPayload {
    Blank,
    Normal(Command),
    Membership(Vec<u64>),
}

/// One log entry.
pub struct LogEntry {
    pub log_id: LogId,
    pub payload: EntryPayload,
}

/// The log of one node.
pub struct LogStore {
    pub entries: Vec<LogEntry>,
    pub last_purged: Option<LogId>,
    pub vote: Option<Vote>,
}

impl LogStore {
    /// Entries are ordered strictly by index.
    pub open spec fn wf(&self) -> bool {
        forall|j: int, k: int|
            0 <= j < k < self.entries@.len() ==> (#[trigger] self.entries@[j]).log_id.index < (
            #[trigger] self.entries@[k]).log_id.index
    }

    /// An empty log.
    pub fn new() -> (r: LogStore)
        ensures
            r.entries@ == Seq::<LogEntry>::empty(),
            r.last_purged is None,
            r.vote is None,
            r.wf(),
    {
        let r = LogStore { entries: Vec::new(), last_purged: None, vote: None };
        proof {
            assert(r.entries@ =~= Seq::<LogEntry>::empty());
        }
        r
    }

    /// Appends entries whose indexes continue the log in order. The caller
    /// must persist before reporting success; the log's contents afterwards
    /// are exactly the old log followed by the new entries.
    pub fn append(&mut self, new_entries: Vec<LogEntry>)
        requires
            old(self).wf(),
            forall|j: int, k: int|
                0 <= j < k < new_entries@.len() ==> (#[trigger] new_entries@[j]).log_id.index < (
                #[trigger] new_entries@[k]).log_id.index,
            old(self).entries@.len() > 0 && new_entries@.len() > 0
                ==> old(self).entries@.last().log_id.index < new_entries@[0].log_id.index,
        ensures
            final (self).wf(),
            final (self).entries@ == old(self).entries@ + new_entries@,
            final (self).last_purged == old(self).last_purged,
            final (self).vote == old(self).vote,
    {
        let mut more = new_entries;
        self.entries.append(&mut more);
        proof {
            assert(final (self).entries@ =~= old(self).entries@ + new_entries@);
        }
    }

    /// Removes the conflicting suffix `[idx, end]` (used on leader change):
    /// the log keeps exactly its prefix of entries below `idx`.
    pub fn truncate_from(&mut self, idx: u64)
        requires
            old(self).wf(),
        ensures
            final (self).wf(),
            final (self).entries@ == old(self).entries@.subrange(
                0,
                final (self).entries@.len() as int,
            ),
            forall|j: int|
                0 <= j < final (self).entries@.len() ==> (
                #[trigger] final (self).entries@[j]).log_id.index < idx,
            forall|j: int|
                final (self).entries@.len() <= j < old(self).entries@.len() ==> (
                #[trigger] old(self).entries@[j]).log_id.index >= idx,
            final (self).last_purged == old(self).last_purged,
            final (self).vote == old(self).vote,
    {
        while self.entries.len() > 0 && self.entries[self.entries.len() - 1].log_id.index >= idx
            invariant
                old(self).wf(),
                self.entries@.len() <= old(self).entries@.len(),
                self.entries@ == old(self).entries@.subrange(0, self.entries@.len() as int),
                forall|j: int|
                    self.entries@.len() <= j < old(self).entries@.len() ==> (
                    #[trigger] old(self).entries@[j]).log_id.index >= idx,
                self.last_purged == old(self).last_purged,
                self.vote == old(self).vote,
            decreases self.entries@.len(),
        {
            let _ = self.entries.pop();
            proof {
                assert(self.entries@ =~= old(self).entries@.subrange(
                    0,
                    self.entries@.len() as int,
                ));
            }
        }
        proof {
            if self.entries@.len() > 0 {
                assert forall|j: int| 0 <= j < self.entries@.len() implies (
                #[trigger] self.entries@[j]).log_id.index < idx by {
                    assert(self.entries@[j] == old(self).entries@[j]);
                    if j < self.entries@.len() - 1 {
                        assert(old(self).entries@[j].log_id.index < old(self).entries@[self.entries@.len()
                            - 1].log_id.index);
                    }
                }
            }
        }
    }

    /// Purges the snapshotted prefix `[0, through.index]` and records it:
    /// the log keeps exactly its entries above that index.
    pub fn purge_through(&mut self, through: LogId)
        requires
            old(self).wf(),
        ensures
            final (self).wf(),
            final (self).entries@ == old(self).entries@.subrange(
                old(self).entries@.len() - final (self).entries@.len(),
                old(self).entries@.len() as int,
            ),
            forall|j: int|
                0 <= j < final (self).entries@.len() ==> (
                #[trigger] final (self).entries@[j]).log_id.index > through.index,
            forall|j: int|
                0 <= j < old(self).entries@.len() - final (self).entries@.len() ==> (
                #[trigger] old(self).entries@[j]).log_id.index <= through.index,
            final (self).last_purged == Some(through),
            final (self).vote == old(self).vote,
    {
        self.last_purged = Some(through);
        let ghost n0 = old(self).entries@.len() as int;
        while self.entries.len() > 0 && self.entries[0].log_id.index <= through.index
            invariant
                old(self).wf(),
                self.entries@.len() <= n0,
                n0 == old(self).entries@.len(),
                self.entries@ == old(self).entries@.subrange(n0 - self.entries@.len(), n0),
                forall|j: int|
                    0 <= j < n0 - self.entries@.len() ==> (
                    #[trigger] old(self).entries@[j]).log_id.index <= through.index,
                self.last_purged == Some(through),
                self.vote == old(self).vote,
            decreases self.entries@.len(),
        {
            let _ = self.entries.remove(0);
            proof {
                assert(self.entries@ =~= old(self).entries@.subrange(
                    n0 - self.entries@.len(),
                    n0,
                ));
            }
        }
        proof {
            if self.entries@.len() > 0 {
                let base = n0 - self.entries@.len();
                assert forall|j: int| 0 <= j < self.entries@.len() implies (
                #[trigger] self.entries@[j]).log_id.index > through.index by {
                    assert(self.entries@[j] == old(self).entries@[base + j]);
                    assert(self.entries@[0] == old(self).entries@[base]);
                    if j > 0 {
                        assert(old(self).entries@[base].log_id.index < old(self).entries@[base
                            + j].log_id.index);
                    }
                }
            }
        }
    }

    /// The pair openraft rebuilds its view from: the last purged log id and
    /// the last log id (the last entry's, else the last purged one).
    pub fn get_log_state(&self) -> (r: (Option<LogId>, Option<LogId>))
        ensures
            r.0 == self.last_purged,
            r.1 == if self.entries@.len() > 0 {
                Some(self.entries@.last().log_id)
            } else {
                self.last_purged
            },
    {
        let n = self.entries.len();
        if n > 0 {
            (self.last_purged, Some(self.entries[n - 1].log_id))
        } else {
            (self.last_purged, self.last_purged)
        }
    }

    /// Persists a vote; mandatory before a follower may grant it.
    pub fn save_vote(&mut self, v: Vote)
        ensures
            final (self).vote == Some(v),
            final (self).entries@ == old(self).entries@,
            final (self).last_purged == old(self).last_purged,
    {
        self.vote = Some(v);
    }

    /// The persisted vote, if any.
    pub fn read_vote(&self) -> (r: Option<Vote>)
        ensures
            r == self.vote,
    {
        self.vote
    }

    /// The dense scan `[start, end)` (or to the end of the log): the indexes
    /// of the stored entries in that range, in order. The caller reads the
    /// entries by these positions; gaps below the purge point simply do not
    /// appear.
    pub fn range_positions(&self, start: u64, end: Option<u64>) -> (r: Vec<usize>)
        ensures
            forall|j: int, k: int| 0 <= j < k < r@.len() ==> (#[trigger] r@[j]) < (#[trigger] r@[k]),
            forall|j: int|
                0 <= j < r@.len() ==> (#[trigger] r@[j]) < self.entries@.len(),
            forall|p: int|
                0 <= p < self.entries@.len() ==> (r@.contains(p as usize) <==> (
                #[trigger] self.entries@[p]).log_id.index >= start && (match end {
                    Some(e) => self.entries@[p].log_id.index < e,
                    None => true,
                })),
    {
        let mut r: Vec<usize> = Vec::new();
        let mut i: usize = 0;
        while i < self.entries.len()
            invariant
                i <= self.entries@.len(),
                forall|j: int, k: int|
                    0 <= j < k < r@.len() ==> (#[trigger] r@[j]) < (#[trigger] r@[k]),
                forall|j: int| 0 <= j < r@.len() ==> (#[trigger] r@[j]) < i,
                forall|p: int|
                    0 <= p < i ==> (r@.contains(p as usize) <==> (
                    #[trigger] self.entries@[p]).log_id.index >= start && (match end {
                        Some(e) => self.entries@[p].log_id.index < e,
                        None => true,
                    })),
            decreases self.entries@.len() - i,
        {
            let keep = self.entries[i].log_id.index >= start && (match end {
                Some(e) => self.entries[i].log_id.index < e,
                None => true,
            });
            let ghost r_before = r@;
            if keep {
                r.push(i);
            }
            proof {
                assert forall|p: int|
                    0 <= p < i + 1 implies (r@.contains(p as usize) <==> (
                    #[trigger] self.entries@[p]).log_id.index >= start && (match end {
                        Some(e) => self.entries@[p].log_id.index < e,
                        None => true,
                    })) by {
                    if p < i {
                        if r_before.contains(p as usize) {
                            let w = choose|w: int|
                                0 <= w < r_before.len() && r_before[w] == p as usize;
                            assert(r@[w] == p as usize);
                            assert(r@.contains(p as usize));
                        } else if r@.contains(p as usize) {
                            let w = choose|w: int| 0 <= w < r@.len() && r@[w] == p as usize;
                            assert(w < r_before.len());
                        }
                    } else {
                        if keep {
                            assert(r@[r@.len() - 1] == p as usize);
                        } else {
                            if r@.contains(p as usize) {
                                let w = choose|w: int| 0 <= w < r@.len() && r@[w] == p as usize;
                                assert(r@[w] < i);
                            }
                        }
                    }
                }
            }
            i += 1;
        }
        r
    }
}

} // verus!
