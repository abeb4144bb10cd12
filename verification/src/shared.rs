//! Shared scan state: the single-assignment found-record slot and the
//! monotonically non-decreasing progress counter.
//!
//! In a running scan each value lives behind its own lock and is shared by
//! all workers; every operation below is one short critical section, so the
//! contracts here describe exactly what one atomic step does to the state.

use vstd::prelude::*;

verus! {

/// The first discovered match: the candidate's fixed-width hex encoding and
/// the address it derives.
pub struct FoundRecord {
    pub key_hex: String,
    pub address: String,
}

impl FoundRecord {
    /// A field-for-field copy.
    pub fn duplicate(&self) -> (r: FoundRecord)
        ensures
            r == *self,
    {
        FoundRecord { key_hex: self.key_hex.clone(), address: self.address.clone() }
    }
}

/// What one attempted write leaves in the slot: the first write sticks,
/// every later one is dropped.
pub open spec fn slot_after_try_set(s: Option<FoundRecord>, rec: FoundRecord) -> Option<
    FoundRecord,
> {
    if s is Some {
        s
    } else {
        Some(rec)
    }
}

/// What a whole sequence of attempted writes, in commit order, leaves.
pub open spec fn slot_after_writers(s: Option<FoundRecord>, writers: Seq<FoundRecord>) -> Option<
    FoundRecord,
>
    decreases writers.len(),
{
    if writers.len() == 0 {
        s
    } else {
        slot_after_writers(slot_after_try_set(s, writers[0]), writers.skip(1))
    }
}

/// Once the slot holds a record, no later writer changes it, whatever the
/// records and however many the writers.
pub proof fn lemma_found_record_write_once(rec: FoundRecord, writers: Seq<FoundRecord>)
    ensures
        slot_after_writers(Some(rec), writers) == Some(rec),
    decreases writers.len(),
{
    if writers.len() > 0 {
        lemma_found_record_write_once(rec, writers.skip(1));
    }
}

/// Among racing writers on an empty slot, exactly the first committed write
/// persists.
pub proof fn lemma_first_writer_wins(writers: Seq<FoundRecord>)
    requires
        writers.len() > 0,
    ensures
        slot_after_writers(None, writers) == Some(writers[0]),
{
    lemma_found_record_write_once(writers[0], writers.skip(1));
}

/// Single-assignment shared cell holding the first discovered match.
pub struct FoundSlot {
    slot: Option<FoundRecord>,
}

impl FoundSlot {
    /// The record currently held, if any.
    pub closed spec fn slot(&self) -> Option<FoundRecord> {
        self.slot
    }

    /// An empty slot, as a scan run starts.
    pub fn new() -> (r: FoundSlot)
        ensures
            r.slot() is None,
    {
        FoundSlot { slot: None }
    }

    /// Writes the record if the slot is still empty and says whether this
    /// call performed the write; an already-set slot is left untouched.
    pub fn try_set(&mut self, rec: FoundRecord) -> (won: bool)
        ensures
            final(self).slot() == slot_after_try_set(old(self).slot(), rec),
            won == (old(self).slot() is None),
            old(self).slot() is Some ==> final(self).slot() == old(self).slot(),
            old(self).slot() is None ==> final(self).slot() == Some(rec),
    {
        match self.slot {
            Some(_) => false,
            None => {
                self.slot = Some(rec);
                true
            },
        }
    }

    /// Whether a match has been recorded; workers poll this at batch
    /// boundaries for cooperative cancellation.
    pub fn is_set(&self) -> (r: bool)
        ensures
            r == (self.slot() is Some),
    {
        match self.slot {
            Some(_) => true,
            None => false,
        }
    }

    /// A copy of the held record, if any.
    pub fn get(&self) -> (r: Option<FoundRecord>)
        ensures
            r == self.slot(),
    {
        match &self.slot {
            Some(rec) => Some(rec.duplicate()),
            None => None,
        }
    }
}

/// What a sequence of batch increments, in commit order, leaves on a
/// counter that starts at `c`.
pub open spec fn count_after_adds(c: int, adds: Seq<u128>) -> int
    decreases adds.len(),
{
    if adds.len() == 0 {
        c
    } else {
        count_after_adds(c + adds[0], adds.skip(1))
    }
}

/// The counter never moves backwards, whatever the increments.
pub proof fn lemma_count_monotone(c: int, adds: Seq<u128>)
    ensures
        count_after_adds(c, adds) >= c,
    decreases adds.len(),
{
    if adds.len() > 0 {
        lemma_count_monotone(c + adds[0], adds.skip(1));
    }
}

/// Increments commute: two racing batches leave the same total whichever
/// commits first, so only the sum matters, not the order.
pub proof fn lemma_adds_commute(c: int, a: u128, b: u128, rest: Seq<u128>)
    ensures
        count_after_adds(c, seq![a, b] + rest) == count_after_adds(c, seq![b, a] + rest),
{
    let ab = seq![a, b] + rest;
    let ba = seq![b, a] + rest;
    assert(ab[0] == a && ab.skip(1)[0] == b);
    assert(ba[0] == b && ba.skip(1)[0] == a);
    assert(ab.skip(1).skip(1) =~= rest);
    assert(ba.skip(1).skip(1) =~= rest);
    assert(count_after_adds(c, ab) == count_after_adds(c + a, ab.skip(1)));
    assert(count_after_adds(c + a, ab.skip(1)) == count_after_adds(c + a + b, rest));
    assert(count_after_adds(c, ba) == count_after_adds(c + b, ba.skip(1)));
    assert(count_after_adds(c + b, ba.skip(1)) == count_after_adds(c + b + a, rest));
}

/// Shared count of candidates whose testing has completed.
pub struct ProgressCounter {
    count: u128,
}

impl ProgressCounter {
    pub closed spec fn count(&self) -> u128 {
        self.count
    }

    /// A zeroed counter, as a scan run starts.
    pub fn new() -> (r: ProgressCounter)
        ensures
            r.count() == 0,
    {
        ProgressCounter { count: 0 }
    }

    /// Adds one completed batch's candidate count; the counter never moves
    /// backwards.
    pub fn add(&mut self, n: u128)
        requires
            old(self).count() + n <= u128::MAX,
        ensures
            final(self).count() == old(self).count() + n,
            final(self).count() >= old(self).count(),
    {
        self.count = self.count + n;
    }

    /// The current total.
    pub fn current(&self) -> (r: u128)
        ensures
            r == self.count(),
    {
        self.count
    }
}

} // verus!
