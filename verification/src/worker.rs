//! One scan worker: traverses its sub-range in fixed-size batches, in its
//! assigned direction, deriving and comparing each candidate; it records the
//! first match in the shared found slot and adds each completed batch to the
//! shared progress counter, re-checking the slot at every batch boundary.

use vstd::prelude::*;
use crate::derivation::{candidate_matches, key_matches, no_match_between};
use crate::hexfmt::{key_hex, key_hex_spec};
use crate::rangepart::{Direction, Partition};
use crate::shared::{FoundRecord, FoundSlot, ProgressCounter};

verus! {

/// How many candidates a worker tests between two checks of the shared
/// found slot, unless configured otherwise.
pub const DEFAULT_BATCH_SIZE: u128 = 10000;

/// The inclusive high end of the batch that starts at `cursor`: one batch
/// further, cut off at the sub-range's end.
pub fn batch_end_forward(cursor: u128, hi: u128, batch: u128) -> (r: u128)
    requires
        cursor <= hi,
        batch >= 1,
    ensures
        cursor <= r <= hi,
        r - cursor + 1 <= batch,
        r == hi || r - cursor + 1 == batch,
{
    if batch - 1 > hi - cursor {
        hi
    } else {
        cursor + (batch - 1)
    }
}

/// The inclusive low end of the batch that ends at `cursor`, counting down:
/// one batch further, cut off at the sub-range's start so the smallest batch
/// never underflows.
pub fn batch_start_backward(cursor: u128, lo: u128, batch: u128) -> (r: u128)
    requires
        lo <= cursor,
        batch >= 1,
    ensures
        lo <= r <= cursor,
        cursor - r + 1 <= batch,
        r == lo || cursor - r + 1 == batch,
{
    if batch - 1 > cursor - lo {
        lo
    } else {
        cursor - (batch - 1)
    }
}

/// Tests every candidate of the inclusive batch `[lo, hi]`, low end first
/// when ascending and high end first otherwise, and returns the first
/// scalar, in traversal order, whose derived address equals the target.
pub fn scan_batch(lo: u128, hi: u128, ascending: bool, target: &str) -> (r: Option<u128>)
    requires
        lo <= hi,
    ensures
        match r {
            Some(k) => lo <= k <= hi && key_matches(k, target@) && (ascending
                ==> no_match_between(lo as int, k - 1, target@)) && (!ascending
                ==> no_match_between(k + 1, hi as int, target@)),
            None => no_match_between(lo as int, hi as int, target@),
        },
{
    if ascending {
        let mut k: u128 = lo;
        loop
            invariant
                ascending,
                lo <= k <= hi,
                no_match_between(lo as int, k - 1, target@),
            decreases hi - k,
        {
            if candidate_matches(k, target) {
                return Some(k);
            }
            if k == hi {
                return None;
            }
            k = k + 1;
        }
    } else {
        let mut k: u128 = hi;
        loop
            invariant
                !ascending,
                lo <= k <= hi,
                no_match_between(k + 1, hi as int, target@),
            decreases k - lo,
        {
            if candidate_matches(k, target) {
                return Some(k);
            }
            if k == lo {
                return None;
            }
            k = k - 1;
        }
    }
}

/// Runs one worker to completion over its sub-range, sharing the found slot
/// and the progress counter with its peers.
///
/// The contract carries the scan's coordination rules: the counter never
/// moves backwards and grows by at most the sub-range's size; a slot found
/// set is left untouched (cooperative cancellation, nothing counted); a
/// record this worker sets is a true match from its sub-range, the first in
/// its traversal direction; and a slot still empty afterwards means the
/// whole sub-range was tested, match-free, and counted in full.
pub fn run_worker(
    sub: Partition,
    target: &str,
    batch: u128,
    found: &mut FoundSlot,
    progress: &mut ProgressCounter,
)
    requires
        sub.lo <= sub.hi,
        batch >= 1,
        old(progress).count() + (sub.hi - sub.lo + 1) <= u128::MAX,
    ensures
        old(progress).count() <= final(progress).count() <= old(progress).count() + (sub.hi
            - sub.lo + 1),
        old(found).slot() is Some ==> final(found).slot() == old(found).slot()
            && final(progress).count() == old(progress).count(),
        match final(found).slot() {
            Some(rec) => old(found).slot() is Some || (exists|k: u128|
                #![auto]
                sub.lo <= k <= sub.hi && key_matches(k, target@) && rec.key_hex@
                    == key_hex_spec(k) && rec.address@ == target@ && (sub.dir
                    == Direction::Ascending ==> no_match_between(sub.lo as int, k - 1, target@))
                    && (sub.dir == Direction::Descending ==> no_match_between(
                    k + 1,
                    sub.hi as int,
                    target@,
                ))),
            None => old(found).slot() is None && no_match_between(
                sub.lo as int,
                sub.hi as int,
                target@,
            ) && final(progress).count() == old(progress).count() + (sub.hi - sub.lo + 1),
        },
{
    match sub.dir {
        Direction::Ascending => {
            let mut cursor: u128 = sub.lo;
            loop
                invariant
                    sub.lo <= cursor <= sub.hi,
                    batch >= 1,
                    sub.dir == Direction::Ascending,
                    found.slot() == old(found).slot(),
                    cursor > sub.lo ==> old(found).slot() is None,
                    found.slot() is None ==> no_match_between(
                        sub.lo as int,
                        cursor - 1,
                        target@,
                    ),
                    progress.count() == old(progress).count() + (cursor - sub.lo),
                    old(progress).count() + (sub.hi - sub.lo + 1) <= u128::MAX,
                decreases sub.hi - cursor,
            {
                if found.is_set() {
                    return ;
                }
                let bend = batch_end_forward(cursor, sub.hi, batch);
                match scan_batch(cursor, bend, true, target) {
                    Some(k) => {
                        let rec = FoundRecord {
                            key_hex: key_hex(k),
                            address: target.to_owned(),
                        };
                        found.try_set(rec);
                        return ;
                    },
                    None => {
                        progress.add(bend - cursor + 1);
                        if bend == sub.hi {
                            return ;
                        }
                        cursor = bend + 1;
                    },
                }
            }
        },
        Direction::Descending => {
            let mut cursor: u128 = sub.hi;
            loop
                invariant
                    sub.lo <= cursor <= sub.hi,
                    batch >= 1,
                    sub.dir == Direction::Descending,
                    found.slot() == old(found).slot(),
                    cursor < sub.hi ==> old(found).slot() is None,
                    found.slot() is None ==> no_match_between(
                        cursor + 1,
                        sub.hi as int,
                        target@,
                    ),
                    progress.count() == old(progress).count() + (sub.hi - cursor),
                    old(progress).count() + (sub.hi - sub.lo + 1) <= u128::MAX,
                decreases cursor - sub.lo,
            {
                if found.is_set() {
                    return ;
                }
                let bstart = batch_start_backward(cursor, sub.lo, batch);
                match scan_batch(bstart, cursor, false, target) {
                    Some(k) => {
                        let rec = FoundRecord {
                            key_hex: key_hex(k),
                            address: target.to_owned(),
                        };
                        found.try_set(rec);
                        return ;
                    },
                    None => {
                        progress.add(cursor - bstart + 1);
                        if bstart == sub.lo {
                            return ;
                        }
                        cursor = bstart - 1;
                    },
                }
            }
        },
    }
}

} // verus!
