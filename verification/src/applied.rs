//! The hand-over of committed entries to the state machine that the user of
//! the library defines. The library decides which entries are due and in
//! which order; what applying one means is the user's business.

use crate::consensus::ConsensusState;
use crate::log::{entry_views, LogEntry, LogEntryView};
use vstd::prelude::*;

verus! {

/// The entries that are committed up to `commit_index` and lie after
/// `last_applied`, in log order.
pub open spec fn due(log: Seq<LogEntryView>, last_applied: u64, commit_index: u64) -> Seq<
    LogEntryView,
> {
    if last_applied < commit_index <= log.len() {
        log.subrange(last_applied as int, commit_index as int)
    } else {
        Seq::empty()
    }
}

/// How far the user's state machine has come: the index of the last entry
/// handed over to it.
#[derive(Debug)]
pub struct AppliedStateMachine {
    last_applied: u64,
}

impl View for AppliedStateMachine {
    type V = u64;

    closed spec fn view(&self) -> u64 {
        self.last_applied
    }
}

impl AppliedStateMachine {
    /// A state machine to which nothing has been applied.
    pub fn new() -> (machine: Self)
        ensures
            machine@ == 0,
    {
        AppliedStateMachine { last_applied: 0 }
    }

    /// The index of the last entry handed over.
    pub fn last_applied(&self) -> (index: u64)
        ensures
            index == self@,
    {
        self.last_applied
    }

    /// Hands over, in log order, the committed entries that have not been
    /// handed over before, and remembers that it did.
    pub fn take_committed(&mut self, details: &ConsensusState) -> (entries: Vec<LogEntry>)
        requires
            details.wf(),
        ensures
            entry_views(entries@) == due(details@.log, old(self)@, details@.commit_index),
            entries@.len() == due(details@.log, old(self)@, details@.commit_index).len(),
            final(self)@ == if old(self)@ < details@.commit_index {
                details@.commit_index
            } else {
                old(self)@
            },
    {
        let commit_index = details.commit_index();
        let log = details.log();
        let ghost start = self.last_applied;
        let mut entries: Vec<LogEntry> = Vec::new();
        assert(entry_views(entries@) =~= Seq::<LogEntryView>::empty());
        if self.last_applied >= commit_index {
            return entries;
        }
        let mut next: u64 = self.last_applied;
        while next < commit_index
            invariant
                log.wf(),
                log@ == details@.log,
                start <= next <= commit_index <= log@.len(),
                entry_views(entries@) == log@.subrange(start as int, next as int),
            decreases commit_index - next,
        {
            let ghost before = entry_views(entries@);
            match log.get(next + 1) {
                Some(entry) => {
                    let copy = entry.clone();
                    entries.push(copy);
                    assert(entry_views(entries@) =~= before.push(copy@));
                    assert(log@.subrange(start as int, next as int + 1) =~= log@.subrange(
                        start as int,
                        next as int,
                    ).push(log@[next as int]));
                },
                None => {
                    assert(false);
                },
            }
            next = next + 1;
        }
        self.last_applied = commit_index;
        entries
    }
}

} // verus!
