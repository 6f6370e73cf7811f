use vstd::prelude::*;
use crate::clock::unix_now_millis;

verus! {

/// Kind of a write-ahead-log entry.
#[derive(Debug, Clone, Copy, PartialEq, Eq, Structural)]
pub enum WalEntryType {
    KvWrite,
    RaftLog,
    RegionState,
    ApplyState,
}

/// One write-ahead-log entry.
#[derive(Debug)]
pub struct WalEntry {
    pub entry_type: WalEntryType,
    /// Sequence number, used to order entries on recovery.
    pub sequence: u64,
    pub data: Vec<u8>,
    /// Seconds since the Unix epoch when the entry was added.
    pub timestamp: u64,
}

/// Mathematical value of a write-ahead-log entry.
pub struct WalEntryView {
    pub entry_type: WalEntryType,
    pub sequence: u64,
    pub data: Seq<u8>,
    pub timestamp: u64,
}

impl View for WalEntry {
    type V = WalEntryView;

    open spec fn view(&self) -> WalEntryView {
        WalEntryView {
            entry_type: self.entry_type,
            sequence: self.sequence,
            data: self.data@,
            timestamp: self.timestamp,
        }
    }
}

/// Mathematical value of a write-ahead-log manager.
pub struct WalManagerView {
    pub sequence: u64,
    pub pending: Seq<WalEntryView>,
}

/// Hands out sequence numbers and keeps the entries not yet flushed.
pub struct WalManager {
    sequence: u64,
    pending_entries: Vec<WalEntry>,
}

impl View for WalManager {
    type V = WalManagerView;

    closed spec fn view(&self) -> WalManagerView {
        WalManagerView {
            sequence: self.sequence,
            pending: self.pending_entries@.map_values(|e: WalEntry| e@),
        }
    }
}

impl WalManager {
    pub fn new() -> (r: Self)
        ensures
            r@ == (WalManagerView { sequence: 0, pending: Seq::empty() }),
    {
        let r = WalManager { sequence: 0, pending_entries: Vec::new() };
        proof {
            assert(r@.pending =~= Seq::<WalEntryView>::empty());
        }
        r
    }

    /// Adds an entry and returns its sequence number.
    pub fn add_entry(&mut self, entry_type: WalEntryType, data: Vec<u8>) -> (r: u64)
        requires
            old(self)@.sequence < u64::MAX,
        ensures
            r == old(self)@.sequence,
            final(self)@.sequence == old(self)@.sequence + 1,
            final(self)@.pending.len() == old(self)@.pending.len() + 1,
            final(self)@.pending.drop_last() == old(self)@.pending,
            final(self)@.pending.last().entry_type == entry_type,
            final(self)@.pending.last().sequence == r,
            final(self)@.pending.last().data == data@,
    {
        let sequence = self.sequence;
        self.sequence = self.sequence + 1;
        let entry = WalEntry { entry_type, sequence, data, timestamp: unix_now_millis() / 1000 };
        let ghost before = self.pending_entries@;
        self.pending_entries.push(entry);
        proof {
            assert(self.pending_entries@.map_values(|e: WalEntry| e@) =~= before.map_values(
                |e: WalEntry| e@,
            ).push(entry@));
        }
        sequence
    }

    /// The number of entries not yet flushed.
    pub fn pending_count(&self) -> (r: usize)
        ensures
            r == self@.pending.len(),
    {
        self.pending_entries.len()
    }

    /// Forgets the pending entries once they are durable (the last step of a flush).
    pub fn clear_pending(&mut self)
        ensures
            final(self)@ == (WalManagerView { pending: Seq::empty(), ..old(self)@ }),
    {
        self.pending_entries.clear();
        proof {
            assert(self@.pending =~= Seq::<WalEntryView>::empty());
        }
    }

    /// Restarts sequence numbers at 0.
    pub fn reset_sequence(&mut self)
        ensures
            final(self)@ == (WalManagerView { sequence: 0, ..old(self)@ }),
    {
        self.sequence = 0;
    }
}

impl Default for WalManager {
    fn default() -> (r: Self)
        ensures
            r@ == (WalManagerView { sequence: 0, pending: Seq::empty() }),
    {
        WalManager::new()
    }
}

} // verus!
