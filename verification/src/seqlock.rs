//! Sequence-locked slot: single-writer, multi-reader snapshots of a record.
//!
//! A slot pairs a sequence counter with a record payload.  The counter's
//! parity encodes the slot's state — even means the payload is a stable,
//! fully published record; odd means a write is in progress.  A writer
//! bumps the counter to odd, copies the payload, and bumps it back to even;
//! a reader that sees the same even counter before and after its copy holds
//! a consistent snapshot.

use vstd::prelude::*;
use crate::events::TopOfBook;

verus! {

/// A slot protected by a sequence counter.
///
/// The invariant the ring maintains between publishes is that `seq` is
/// even: a write in progress is visible as an odd counter only inside
/// [`SeqlockSlot::write`].
#[derive(Debug, Clone, Copy)]
pub struct SeqlockSlot {
    /// Sequence counter: odd means a write is in progress, even means the
    /// payload is stable.
    pub seq: u64,
    /// The record payload.
    pub data: TopOfBook,
}

impl SeqlockSlot {
    /// A fresh slot in the stable state, before any publish.
    pub fn new() -> (s: Self)
        ensures
            s.seq == 0,
    {
        SeqlockSlot { seq: 0, data: TopOfBook::default() }
    }

    /// Resets the slot to a clean state: sequence zero, even, stable.
    #[inline(always)]
    pub fn init(&mut self)
        ensures
            final(self).seq == 0,
            final(self).data == old(self).data,
    {
        self.seq = 0;
    }

    /// Writes a record into the slot under the sequence protocol: the
    /// counter goes odd, the payload is replaced, the counter goes even two
    /// above where it started.
    #[inline(always)]
    pub fn write(&mut self, value: TopOfBook)
        requires
            old(self).seq <= u64::MAX - 2,
        ensures
            final(self).seq == old(self).seq + 2,
            final(self).data == value,
            old(self).seq % 2 == 0 ==> final(self).seq % 2 == 0,
    {
        // Mark write-in-progress (odd when the slot was stable)
        self.seq = self.seq + 1;
        self.data = value;
        // Mark write-complete (even again)
        self.seq = self.seq + 1;
    }

    /// Reads a consistent snapshot of the payload.
    ///
    /// The concurrent protocol retries while the counter is odd or changes
    /// across the copy; with the slot stable — the state this model
    /// guarantees between publishes — the first copy is already consistent.
    #[inline(always)]
    pub fn read(&self) -> (r: TopOfBook)
        requires
            self.seq % 2 == 0,
        ensures
            r == self.data,
    {
        self.data
    }
}

} // verus!
