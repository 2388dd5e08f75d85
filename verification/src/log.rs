//! The replicated log: an append-only sequence of entries addressed by
//! consecutive indices that start at 1.

use vstd::prelude::*;

verus! {

/// One unit of replicated state.
#[derive(Debug)]
pub struct LogEntry {
    pub index: u64,
    pub term: u64,
    pub payload: Vec<u8>,
}

/// What a [`LogEntry`] holds, as mathematical values.
pub struct LogEntryView {
    pub index: u64,
    pub term: u64,
    pub payload: Seq<u8>,
}

impl View for LogEntry {
    type V = LogEntryView;

    open spec fn view(&self) -> LogEntryView {
        LogEntryView { index: self.index, term: self.term, payload: self.payload@ }
    }
}

impl Clone for LogEntry {
    fn clone(&self) -> (copy: Self)
        ensures
            copy@ == self@,
    {
        LogEntry { index: self.index, term: self.term, payload: self.payload.clone() }
    }
}

/// What a list of entries holds, in order.
pub open spec fn entry_views(entries: Seq<LogEntry>) -> Seq<LogEntryView> {
    entries.map_values(|e: LogEntry| e@)
}

/// A log is well numbered when its entry at position `i` carries index `i + 1`.
pub open spec fn well_numbered(entries: Seq<LogEntryView>) -> bool {
    forall|i: int| 0 <= i < entries.len() ==> (#[trigger] entries[i]).index == i + 1
}

/// The index of the last entry of `entries`, 0 for the empty log.
pub open spec fn last_index_of(entries: Seq<LogEntryView>) -> nat {
    entries.len()
}

/// The entries a node holds locally.
#[derive(Debug)]
pub struct RaftLog {
    entries: Vec<LogEntry>,
}

impl View for RaftLog {
    type V = Seq<LogEntryView>;

    closed spec fn view(&self) -> Seq<LogEntryView> {
        entry_views(self.entries@)
    }
}

impl RaftLog {
    /// Every entry carries the index of its position.
    pub open spec fn wf(&self) -> bool {
        well_numbered(self@)
    }

    /// An empty log.
    pub fn new() -> (log: Self)
        ensures
            log.wf(),
            log@ == Seq::<LogEntryView>::empty(),
    {
        let log = RaftLog { entries: Vec::new() };
        assert(log@ =~= Seq::<LogEntryView>::empty());
        log
    }

    /// The index of the last entry held, 0 when the log is empty.
    pub fn last_index(&self) -> (index: u64)
        requires
            self.wf(),
        ensures
            index == last_index_of(self@),
    {
        match self.entries.last() {
            Some(entry) => {
                assert(self@[self.entries.len() - 1] == entry@);
                entry.index
            },
            None => 0,
        }
    }

    /// The entry at `index`, if the log holds one.
    pub fn get(&self, index: u64) -> (entry: Option<&LogEntry>)
        requires
            self.wf(),
        ensures
            match entry {
                Some(e) => 1 <= index <= self@.len() && e@ == self@[index - 1],
                None => index == 0 || index > self@.len(),
            },
    {
        let held: usize = self.entries.len();
        assert(self@.len() == held);
        if index == 0 || index > held as u64 {
            None
        } else {
            let at: usize = (index - 1) as usize;
            let e = &self.entries[at];
            assert(self@[at as int] == e@);
            Some(e)
        }
    }

    /// Appends an entry of `term` with `payload` and returns its index, one
    /// past the previous last index.
    pub fn append(&mut self, term: u64, payload: Vec<u8>) -> (index: u64)
        requires
            old(self).wf(),
            old(self)@.len() < u64::MAX,
        ensures
            final(self).wf(),
            index == old(self)@.len() + 1,
            final(self)@ == old(self)@.push(
                (LogEntryView { index, term, payload: payload@ }),
            ),
    {
        let index: u64 = self.last_index() + 1;
        let entry = LogEntry { index, term, payload };
        let ghost before = self@;
        self.entries.push(entry);
        assert(self@ =~= before.push(entry@));
        index
    }

    /// Drops every entry whose index is `from` or greater, so that a
    /// conflicting suffix can be written anew. `from` 0 is treated as 1.
    pub fn discard_from(&mut self, from: u64)
        requires
            old(self).wf(),
        ensures
            final(self).wf(),
            final(self)@ == if from == 0 {
                Seq::<LogEntryView>::empty()
            } else if from <= old(self)@.len() {
                old(self)@.take(from - 1)
            } else {
                old(self)@
            },
    {
        let ghost before = self@;
        if from == 0 {
            self.entries.truncate(0);
            assert(self@ =~= Seq::<LogEntryView>::empty());
        } else if from <= self.entries.len() as u64 {
            assert(self@.len() == self.entries@.len());
            self.entries.truncate((from - 1) as usize);
            assert(self@ =~= before.take(from - 1));
        }
    }
}

} // verus!
