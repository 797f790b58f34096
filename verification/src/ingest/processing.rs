//! The dedupe stage: merges redundant source streams into one stream with
//! at-most-one delivery per `(slot, transaction_index)` pair and a
//! monotonically non-decreasing slot watermark.
use crate::data::BlockData;
use crate::ingest::source::BlockMeta;
use crate::ingest::source::SourceUpdate;
use vstd::prelude::*;

verus! {

/// A growable mask of transaction indices already received in the current slot.
pub struct Mask {
    inner: Vec<bool>,
}

impl Mask {
    /// True iff index `i` has been marked since the last reset.
    pub closed spec fn marked(self, i: int) -> bool {
        0 <= i < self.inner@.len() && self.inner@[i]
    }

    pub fn new(capacity: usize) -> (r: Self)
        ensures
            forall|i: int| !r.marked(i),
    {
        Mask { inner: vec![false; capacity] }
    }

    /// Marks index `i`; returns true iff it was not marked before. The mask
    /// grows to cover `i` when needed.
    pub fn mark(&mut self, i: usize) -> (fresh: bool)
        requires
            i < usize::MAX,
        ensures
            fresh == !old(self).marked(i as int),
            forall|j: int| final (self).marked(j) == (old(self).marked(j) || j == i as int),
    {
        if i < self.inner.len() {
            let was: bool = self.inner[i];
            self.inner[i] = true;
            proof {
                assert(forall|j: int|
                    final (self).marked(j) == (old(self).marked(j) || j == i as int));
            }
            !was
        } else {
            let doubled: usize = if self.inner.len() > usize::MAX / 2 {
                usize::MAX
            } else {
                self.inner.len() * 2
            };
            let new_len: usize = if doubled > i {
                doubled
            } else {
                i + 1
            };
            self.inner.resize(new_len, false);
            self.inner[i] = true;
            proof {
                assert(forall|j: int|
                    final (self).marked(j) == (old(self).marked(j) || j == i as int));
            }
            true
        }
    }

    /// Clears every mark, keeping the capacity.
    pub fn reset(&mut self)
        ensures
            forall|i: int| !final (self).marked(i),
    {
        let n: usize = self.inner.len();
        self.inner = vec![false; n];
    }
}

/// The dedupe state: the slot watermark and the per-slot index mask.
pub struct Dedupe {
    slot: u64,
    received_transactions: Mask,
}

/// Initial mask capacity; indices beyond it grow the mask on demand.
pub const MASK_CAPACITY: usize = 5000;

impl Dedupe {
    /// The current slot watermark.
    pub closed spec fn watermark(self) -> u64 {
        self.slot
    }

    /// True iff a transaction at `(slot, index)` can no longer be emitted:
    /// its slot is below the watermark, or its index is already marked at the
    /// watermark slot.
    pub open spec fn seen(self, slot: u64, index: int) -> bool {
        slot < self.watermark() || (slot == self.watermark()
            && self.received_transactions_marked(index))
    }

    /// True iff `index` is marked in the current mask.
    pub closed spec fn received_transactions_marked(self, index: int) -> bool {
        self.received_transactions.marked(index)
    }

    pub fn new() -> (r: Self)
        ensures
            r.watermark() == 0,
            forall|s: u64, i: int| !r.seen(s, i),
    {
        Dedupe { slot: 0, received_transactions: Mask::new(MASK_CAPACITY) }
    }

    /// Offers a block update: emitted iff its slot is at or above the
    /// watermark; on emission the watermark advances past the slot and the
    /// mask clears.
    pub fn offer_block(&mut self, slot: u64) -> (emit: bool)
        requires
            slot < u64::MAX,
        ensures
            emit == (slot >= old(self).watermark()),
            emit ==> final (self).watermark() == slot + 1,
            !emit ==> *final (self) == *old(self),
            final (self).watermark() >= old(self).watermark(),
            forall|s: u64, i: int| old(self).seen(s, i) ==> final (self).seen(s, i),
    {
        if slot >= self.slot {
            self.slot = slot + 1;
            self.received_transactions.reset();
            true
        } else {
            false
        }
    }

    /// Offers a transaction update: emitted iff its `(slot, index)` pair has
    /// not been seen; afterwards the pair is seen either way.
    pub fn offer_transaction(&mut self, slot: u64, index: usize) -> (emit: bool)
        requires
            index < usize::MAX,
        ensures
            emit == !old(self).seen(slot, index as int),
            final (self).seen(slot, index as int),
            final (self).watermark() >= old(self).watermark(),
            forall|s: u64, i: int| old(self).seen(s, i) ==> final (self).seen(s, i),
    {
        if slot > self.slot {
            self.slot = slot;
            self.received_transactions.reset();
        }
        if slot == self.slot {
            self.received_transactions.mark(index)
        } else {
            false
        }
    }

    /// Offers either kind of update.
    pub fn offer(&mut self, update: &SourceUpdate) -> (emit: bool)
        requires
            update matches SourceUpdate::Block(b) ==> b.slot < u64::MAX,
            update matches SourceUpdate::Transaction(t) ==> t.index < usize::MAX,
        ensures
            update matches SourceUpdate::Block(b) ==> emit == (b.slot >= old(self).watermark()),
            update matches SourceUpdate::Transaction(t) ==> emit == !old(self).seen(
                t.slot,
                t.index as int,
            ),
            final (self).watermark() >= old(self).watermark(),
            forall|s: u64, i: int| old(self).seen(s, i) ==> final (self).seen(s, i),
    {
        match update {
            SourceUpdate::Block(b) => self.offer_block(b.slot),
            SourceUpdate::Transaction(t) => self.offer_transaction(t.slot, t.index),
        }
    }
}

/// Once a pair is seen, it stays seen across any later dedupe steps, so at
/// most one offer of a given `(slot, index)` is ever emitted: an offer right
/// after `mid` returns `!mid.seen(slot, index)`, and every step from `mid` to
/// `later` preserves seen pairs, so an offer at `later` is dropped.
pub proof fn lemma_at_most_one_emission(mid: Dedupe, later: Dedupe, slot: u64, index: int)
    requires
        mid.seen(slot, index),
        forall|s: u64, i: int| mid.seen(s, i) ==> later.seen(s, i),
    ensures
        later.seen(slot, index),
{
}

/// Maps upstream block metadata to the normalized block value.
pub fn map_block(meta: &BlockMeta) -> (r: BlockData)
    ensures
        r.slot == meta.slot,
        r.hash@ == meta.blockhash@,
        r.parent_slot == meta.parent_slot,
        r.parent_hash@ == meta.parent_blockhash@,
        r.height == meta.block_height,
        r.timestamp == (match meta.block_time {
            Some(t) => t,
            None => 0,
        }),
{
    BlockData {
        slot: meta.slot,
        hash: meta.blockhash.clone(),
        parent_slot: meta.parent_slot,
        parent_hash: meta.parent_blockhash.clone(),
        height: meta.block_height,
        timestamp: match meta.block_time {
            Some(t) => t,
            None => 0,
        },
    }
}

} // verus!
