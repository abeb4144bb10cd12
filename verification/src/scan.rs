//! Scan configuration and orchestration: validating the configured bounds,
//! coercing the worker count, and driving every partition's worker over the
//! shared state until a match is recorded or the keyspace is exhausted.

use vstd::prelude::*;
use crate::derivation::{key_matches, no_match_between};
use crate::hexfmt::{key_hex_spec, parse_hex_spec, parse_hex_u128};
use crate::rangepart::{
    lemma_tiles_bounds, partition_range, tiles, KeyRange, Partition,
};
use crate::shared::{FoundSlot, ProgressCounter};
use crate::worker::run_worker;

verus! {

/// A configuration fault; each aborts the scan before any worker starts.
#[derive(Clone, Copy, PartialEq, Eq, Structural, Debug)]
pub enum ConfigError {
    /// The start bound is not a hexadecimal scalar.
    InvalidStartHex,
    /// The end bound is not a hexadecimal scalar.
    InvalidEndHex,
    /// The bounds parse but enclose no scalar.
    EmptyRange,
    /// The range is too large for two full passes to be counted.
    RangeTooLarge,
}

/// The worker count actually used: the request rounded down to an even
/// number, raised to at least two, and capped at twice the range's size so
/// that every worker owns at least one scalar.
pub open spec fn coerced_workers(requested: int, size: int) -> int {
    let even = if requested % 2 == 1 {
        requested - 1
    } else {
        requested
    };
    let base = if even < 2 {
        2
    } else {
        even
    };
    if base > 2 * size {
        2 * size
    } else {
        base
    }
}

/// A validated scan setup: the keyspace, the target address, and the number
/// of workers (half ascending, half descending).
pub struct ScanConfig {
    pub range: KeyRange,
    pub target: String,
    pub workers: usize,
}

impl ScanConfig {
    /// Every validated configuration supports a full two-pass scan.
    pub open spec fn wf(&self) -> bool {
        &&& self.range.wf()
        &&& self.workers >= 2
        &&& self.workers % 2 == 0
        &&& self.workers as int / 2 <= self.range.size()
        &&& 2 * self.range.size() <= u128::MAX
    }

    /// Validates the configured hex bounds and requested worker count.
    /// Exactly the configuration faults of the error type are rejected, in
    /// the order the fields are read; anything else yields a setup whose
    /// range holds the parsed bounds and whose worker count is the coerced
    /// request.
    pub fn new(start_hex: &str, end_hex: &str, target: &str, requested_workers: usize) -> (r:
        Result<ScanConfig, ConfigError>)
        ensures
            match r {
                Ok(cfg) => {
                    &&& parse_hex_spec(start_hex@) == Some(cfg.range.start)
                    &&& parse_hex_spec(end_hex@) == Some(cfg.range.end)
                    &&& cfg.target@ == target@
                    &&& cfg.workers == coerced_workers(
                        requested_workers as int,
                        cfg.range.size(),
                    )
                    &&& cfg.wf()
                },
                Err(e) => match e {
                    ConfigError::InvalidStartHex => parse_hex_spec(start_hex@) is None,
                    ConfigError::InvalidEndHex => parse_hex_spec(start_hex@) is Some
                        && parse_hex_spec(end_hex@) is None,
                    ConfigError::EmptyRange => {
                        &&& parse_hex_spec(start_hex@) matches Some(s)
                        &&& parse_hex_spec(end_hex@) matches Some(e2)
                        &&& s > e2
                    },
                    ConfigError::RangeTooLarge => {
                        &&& parse_hex_spec(start_hex@) matches Some(s)
                        &&& parse_hex_spec(end_hex@) matches Some(e2)
                        &&& s <= e2
                        &&& 2 * (e2 - s + 1) > u128::MAX
                    },
                },
            },
            r is Ok <==> (parse_hex_spec(start_hex@) matches Some(s)
                && parse_hex_spec(end_hex@) matches Some(e2) && s <= e2 && 2 * (e2 - s + 1)
                <= u128::MAX),
    {
        let start = match parse_hex_u128(start_hex) {
            Some(v) => v,
            None => {
                return Err(ConfigError::InvalidStartHex);
            },
        };
        let end = match parse_hex_u128(end_hex) {
            Some(v) => v,
            None => {
                return Err(ConfigError::InvalidEndHex);
            },
        };
        if start > end {
            return Err(ConfigError::EmptyRange);
        }
        if end - start >= u128::MAX / 2 {
            return Err(ConfigError::RangeTooLarge);
        }
        let range = KeyRange { start, end };
        let workers = coerce_worker_count(requested_workers, range);
        Ok(ScanConfig { range, target: target.to_owned(), workers })
    }
}

/// Rounds the requested worker count down to even, raises it to at least
/// two, and caps it at twice the range's size.
pub fn coerce_worker_count(requested: usize, range: KeyRange) -> (r: usize)
    requires
        range.wf(),
    ensures
        r == coerced_workers(requested as int, range.size()),
        r >= 2,
        r % 2 == 0,
        r as int / 2 <= range.size(),
{
    let even: usize = requested - requested % 2;
    let base: usize = if even < 2 {
        2
    } else {
        even
    };
    let size_minus_one: u128 = range.end - range.start;
    if size_minus_one < u128::MAX && (base as u128) / 2 > size_minus_one + 1 {
        (((size_minus_one + 1) * 2) as usize)
    } else {
        base
    }
}

/// The candidates already counted once the first `i` of the partitions have
/// run: the whole spans scanned so far, range size plus span during the
/// descending pass.
#[verifier::opaque]
spec fn counted_bound(parts: Seq<Partition>, range: KeyRange, half: int, i: int) -> int {
    if i == 0 {
        0
    } else if i <= half {
        parts[i - 1].hi - range.start + 1
    } else {
        range.size() + (parts[i - 1].hi - range.start + 1)
    }
}

/// The flat shape of a two-pass plan over the partition list itself:
/// bounds, pass boundaries, and adjacency within each pass.
#[verifier::opaque]
spec fn plan_wf(parts: Seq<Partition>, range: KeyRange, half: int) -> bool {
    &&& half >= 1
    &&& parts.len() == 2 * half
    &&& forall|j: int|
        0 <= j < parts.len() ==> range.start <= (#[trigger] parts[j]).lo <= parts[j].hi
            <= range.end
    &&& parts[0].lo == range.start
    &&& parts[half - 1].hi == range.end
    &&& parts[half].lo == range.start
    &&& parts[2 * half - 1].hi == range.end
    &&& forall|j: int|
        (1 <= j < half || half + 1 <= j < 2 * half) ==> (#[trigger] parts[j].lo) == parts[j
            - 1].hi + 1
}

/// A pair of pass tilings, flattened to facts over the whole partition list.
proof fn lemma_plan_flat(parts: Seq<Partition>, range: KeyRange, half: int)
    requires
        half >= 1,
        parts.len() == 2 * half,
        tiles(parts.take(half), range),
        tiles(parts.skip(half), range),
    ensures
        plan_wf(parts, range, half),
{
    reveal(plan_wf);
    let front = parts.take(half);
    let back = parts.skip(half);
    assert forall|j: int| 0 <= j < parts.len() implies range.start <= (#[trigger] parts[j]).lo
        <= parts[j].hi <= range.end by {
        if j < half {
            assert(front[j] == parts[j]);
            lemma_tiles_bounds(front, range, j);
        } else {
            assert(back[j - half] == parts[j]);
            lemma_tiles_bounds(back, range, j - half);
        }
    }
    assert(front[0] == parts[0]);
    assert(front[half - 1] == parts[half - 1]);
    assert(back[0] == parts[half]);
    assert(back[half - 1] == parts[2 * half - 1]);
    assert forall|j: int| (1 <= j < half || half + 1 <= j < 2 * half) implies (
    #[trigger] parts[j].lo) == parts[j - 1].hi + 1 by {
        if j < half {
            assert(front[(j - 1) + 1].lo == front[j - 1].hi + 1);
            assert(front[j] == parts[j]);
            assert(front[j - 1] == parts[j - 1]);
        } else {
            assert(back[((j - half) - 1) + 1].lo == back[(j - half) - 1].hi + 1);
            assert(back[j - half] == parts[j]);
            assert(back[(j - half) - 1] == parts[j - 1]);
        }
    }
}

/// Facts carried from partition `i` to partition `i + 1` of a two-pass
/// plan: how the counted bound grows, and where the sub-range lies.
proof fn lemma_scan_step(parts: Seq<Partition>, range: KeyRange, half: int, i: int)
    requires
        plan_wf(parts, range, half),
        0 <= i < 2 * half,
    ensures
        counted_bound(parts, range, half, i) + (parts[i].hi - parts[i].lo + 1) == counted_bound(
            parts,
            range,
            half,
            i + 1,
        ),
        counted_bound(parts, range, half, i + 1) <= 2 * range.size(),
        counted_bound(parts, range, half, i) <= counted_bound(parts, range, half, i + 1),
        range.start <= parts[i].lo && parts[i].lo <= parts[i].hi && parts[i].hi <= range.end,
        (i == half - 1 || i == 2 * half - 1) ==> parts[i].hi == range.end,
        1 <= i < half ==> parts[i].lo == parts[i - 1].hi + 1,
        i == 2 * half - 1 ==> counted_bound(parts, range, half, i + 1) == 2 * range.size(),
        parts[0].lo == range.start,
        parts[half - 1].hi == range.end,
        parts[half].lo == range.start,
{
    reveal(plan_wf);
    reveal(counted_bound);
}

/// Computes the two-pass partition plan for a validated configuration.
fn make_plan(range: KeyRange, workers: usize) -> (r: Vec<Partition>)
    requires
        range.wf(),
        workers >= 2,
        workers % 2 == 0,
        range.size() >= workers as int / 2,
        range.size() <= u128::MAX,
    ensures
        r@.len() == workers,
        plan_wf(r@, range, workers as int / 2),
{
    let parts = partition_range(range, workers);
    proof {
        lemma_plan_flat(parts@, range, workers as int / 2);
    }
    parts
}

/// Joining one more match-free sub-range onto a match-free prefix of the
/// ascending pass keeps the scanned span match-free.
proof fn lemma_no_match_extend(
    parts: Seq<Partition>,
    range: KeyRange,
    half: int,
    i: int,
    target: Seq<char>,
)
    requires
        plan_wf(parts, range, half),
        0 <= i < half,
        i >= 1 ==> no_match_between(range.start as int, parts[i - 1].hi as int, target),
        no_match_between(parts[i].lo as int, parts[i].hi as int, target),
    ensures
        no_match_between(range.start as int, parts[i].hi as int, target),
{
    reveal(plan_wf);
    assert forall|k: u128| range.start <= k <= parts[i].hi implies !(#[trigger] key_matches(
        k,
        target,
    )) by {
        if k < parts[i].lo {
            assert(i >= 1 && k <= parts[i - 1].hi);
        }
    }
}

/// Drives one worker per partition over the shared state, ascending pass
/// first, until every worker has returned.
///
/// On return the slot holds a record exactly when some scalar of the range
/// derives the target address, and any held record is such a scalar's
/// encoding paired with the target. After a match-free exhaustive scan the
/// counter holds exactly two full passes' worth of candidates, and it never
/// exceeds that total.
#[verifier::rlimit(100)]
#[verifier::spinoff_prover]
pub fn run_scan(cfg: &ScanConfig, batch: u128, found: &mut FoundSlot, progress: &mut ProgressCounter)
    requires
        cfg.wf(),
        batch >= 1,
        old(found).slot() is None,
        old(progress).count() == 0,
    ensures
        (final(found).slot() is Some) <==> (exists|k: u128|
            cfg.range.start <= k <= cfg.range.end && #[trigger] key_matches(k, cfg.target@)),
        match final(found).slot() {
            Some(rec) => exists|k: u128|
                #![trigger key_matches(k, cfg.target@)]
                cfg.range.start <= k <= cfg.range.end && key_matches(k, cfg.target@)
                    && rec.key_hex@ == key_hex_spec(k) && rec.address@ == cfg.target@,
            None => final(progress).count() == 2 * cfg.range.size() && no_match_between(
                cfg.range.start as int,
                cfg.range.end as int,
                cfg.target@,
            ),
        },
        final(progress).count() <= 2 * cfg.range.size(),
{
    let parts = make_plan(cfg.range, cfg.workers);
    let half: usize = cfg.workers / 2;
    let ghost pseq = parts@;
    proof {
        assert(counted_bound(pseq, cfg.range, half as int, 0) == 0) by {
            reveal(counted_bound);
        }
    }
    let mut i: usize = 0;
    while i < cfg.workers
        invariant
            cfg.wf(),
            batch >= 1,
            half == cfg.workers as int / 2,
            pseq == parts@,
            pseq.len() == cfg.workers,
            plan_wf(pseq, cfg.range, half as int),
            0 <= i <= cfg.workers,
            progress.count() <= counted_bound(pseq, cfg.range, half as int, i as int),
            counted_bound(pseq, cfg.range, half as int, i as int) <= 2 * cfg.range.size(),
            found.slot() is None ==> progress.count() == counted_bound(
                pseq,
                cfg.range,
                half as int,
                i as int,
            ),
            found.slot() is None && 1 <= i <= half ==> no_match_between(
                cfg.range.start as int,
                pseq[i - 1].hi as int,
                cfg.target@,
            ),
            found.slot() is None && i > half ==> no_match_between(
                cfg.range.start as int,
                cfg.range.end as int,
                cfg.target@,
            ),
            match found.slot() {
                Some(rec) => exists|k: u128|
                    #![trigger key_matches(k, cfg.target@)]
                    cfg.range.start <= k <= cfg.range.end && key_matches(k, cfg.target@)
                        && rec.key_hex@ == key_hex_spec(k) && rec.address@ == cfg.target@,
                None => true,
            },
        decreases cfg.workers - i,
    {
        let sub = parts[i];
        let ghost pre_slot = found.slot();
        proof {
            lemma_scan_step(pseq, cfg.range, half as int, i as int);
        }
        run_worker(sub, cfg.target.as_str(), batch, found, progress);
        proof {
            if found.slot() is None && i < half {
                assert(pre_slot is None);
                lemma_no_match_extend(pseq, cfg.range, half as int, i as int, cfg.target@);
            }
        }
        i = i + 1;
    }
    proof {
        if found.slot() is None {
            lemma_scan_step(pseq, cfg.range, half as int, 2 * (half as int) - 1);
        }
    }
}

} // verus!
