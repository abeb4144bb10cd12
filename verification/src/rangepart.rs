//! The keyspace and its static partitioning: a bounded inclusive range of
//! scalars split into equal-sized contiguous sub-ranges, each produced once
//! per traversal direction.

use vstd::prelude::*;

verus! {

/// Traversal direction of one worker over its sub-range.
#[derive(Clone, Copy, PartialEq, Eq, Structural, Debug)]
pub enum Direction {
    Ascending,
    Descending,
}

/// The inclusive keyspace `[start, end]` fixed at configuration time.
#[derive(Clone, Copy, PartialEq, Eq, Structural, Debug)]
pub struct KeyRange {
    pub start: u128,
    pub end: u128,
}

impl KeyRange {
    /// A range is well formed when it holds at least one scalar.
    pub open spec fn wf(self) -> bool {
        self.start <= self.end
    }

    /// How many scalars the range holds.
    pub open spec fn size(self) -> int {
        self.end - self.start + 1
    }
}

/// One worker's assignment: a contiguous sub-range and a direction.
#[derive(Clone, Copy, PartialEq, Eq, Structural, Debug)]
pub struct Partition {
    pub lo: u128,
    pub hi: u128,
    pub dir: Direction,
}

/// The sub-ranges of `parts` tile `range`: non-empty, contiguous, adjacent,
/// starting at `range.start` and ending at `range.end`.
pub open spec fn tiles(parts: Seq<Partition>, range: KeyRange) -> bool {
    &&& parts.len() > 0
    &&& parts[0].lo == range.start
    &&& parts[parts.len() - 1].hi == range.end
    &&& forall|i: int| 0 <= i < parts.len() ==> (#[trigger] parts[i]).lo <= parts[i].hi
    &&& forall|i: int|
        0 <= i < parts.len() - 1 ==> (#[trigger] parts[i + 1].lo) == parts[i].hi + 1
}

/// In a tiling, earlier sub-ranges lie strictly below later ones.
pub proof fn lemma_tiles_ordered(parts: Seq<Partition>, range: KeyRange, i: int, j: int)
    requires
        tiles(parts, range),
        0 <= i < j < parts.len(),
    ensures
        parts[i].hi < parts[j].lo,
    decreases j - i,
{
    if j == i + 1 {
        assert(parts[i + 1].lo == parts[i].hi + 1);
    } else {
        lemma_tiles_ordered(parts, range, i, j - 1);
        assert(parts[(j - 1) + 1].lo == parts[j - 1].hi + 1);
    }
}

/// Every sub-range of a tiling lies inside the tiled range.
pub proof fn lemma_tiles_bounds(parts: Seq<Partition>, range: KeyRange, i: int)
    requires
        tiles(parts, range),
        0 <= i < parts.len(),
    ensures
        range.start <= parts[i].lo,
        parts[i].hi <= range.end,
{
    if i > 0 {
        lemma_tiles_ordered(parts, range, 0, i);
    }
    if i < parts.len() - 1 {
        lemma_tiles_ordered(parts, range, i, parts.len() - 1);
    }
}

/// Every scalar of the range falls in exactly one sub-range of a tiling:
/// the tiling has no gap and no overlap.
pub proof fn lemma_tiles_cover(parts: Seq<Partition>, range: KeyRange, k: u128)
    requires
        tiles(parts, range),
        range.start <= k <= range.end,
    ensures
        exists|i: int| 0 <= i < parts.len() && (#[trigger] parts[i]).lo <= k <= parts[i].hi,
        forall|i: int, j: int|
            (0 <= i < parts.len() && 0 <= j < parts.len() && (#[trigger] parts[i]).lo <= k
                <= parts[i].hi && (#[trigger] parts[j]).lo <= k <= parts[j].hi) ==> i == j,
    decreases parts.len(),
{
    // no overlap: two containing sub-ranges would be ordered apart
    assert forall|i: int, j: int|
        (0 <= i < parts.len() && 0 <= j < parts.len() && (#[trigger] parts[i]).lo <= k
            <= parts[i].hi && (#[trigger] parts[j]).lo <= k <= parts[j].hi) implies i == j by {
        if i < j {
            lemma_tiles_ordered(parts, range, i, j);
        }
        if j < i {
            lemma_tiles_ordered(parts, range, j, i);
        }
    }
    // existence, peeling the last sub-range off
    let n = parts.len() as int;
    if k >= parts[n - 1].lo {
        assert(parts[n - 1].lo <= k <= parts[n - 1].hi);
    } else {
        assert(n >= 2) by {
            if n == 1 {
                assert(parts[0].lo == range.start);
            }
        }
        let front = parts.drop_last();
        let shrunk = KeyRange { start: range.start, end: parts[n - 2].hi };
        assert(front[0] == parts[0]);
        assert(front[front.len() - 1] == parts[n - 2]);
        assert forall|i: int| 0 <= i < front.len() implies (#[trigger] front[i]).lo
            <= front[i].hi by {
            assert(front[i] == parts[i]);
        }
        assert forall|i: int| 0 <= i < front.len() - 1 implies (#[trigger] front[i + 1].lo)
            == front[i].hi + 1 by {
            assert(front[i] == parts[i]);
            assert(front[i + 1] == parts[i + 1]);
        }
        assert(tiles(front, shrunk));
        assert(k <= shrunk.end) by {
            assert(parts[(n - 2) + 1].lo == parts[n - 2].hi + 1);
        }
        lemma_tiles_cover(front, shrunk, k);
        let w = choose|i: int|
            0 <= i < front.len() && (#[trigger] front[i]).lo <= k <= front[i].hi;
        assert(front[w] == parts[w]);
        assert(0 <= w < parts.len() && parts[w].lo <= k <= parts[w].hi);
    }
}

/// Splits the range into `worker_count / 2` equal-sized contiguous
/// sub-ranges, the division remainder folded into the last, and produces
/// the same boundaries twice: first tagged `Ascending` for the first half
/// of the workers, then tagged `Descending` for the second half. Each half
/// of the result tiles the range, so each pass covers every scalar exactly
/// once.
pub fn partition_range(range: KeyRange, worker_count: usize) -> (r: Vec<Partition>)
    requires
        range.wf(),
        worker_count >= 2,
        worker_count % 2 == 0,
        range.size() >= worker_count / 2,
        range.size() <= u128::MAX,
    ensures
        r@.len() == worker_count,
        tiles(r@.take(worker_count as int / 2), range),
        tiles(r@.skip(worker_count as int / 2), range),
        forall|i: int|
            0 <= i < worker_count / 2 ==> (#[trigger] r@[i]).dir == Direction::Ascending,
        forall|i: int|
            worker_count / 2 <= i < worker_count ==> (#[trigger] r@[i]).dir
                == Direction::Descending,
        forall|i: int|
            #![trigger r@[i], r@[i + worker_count / 2]]
            0 <= i < worker_count / 2 ==> r@[i].lo == r@[i + worker_count / 2].lo && r@[i].hi
                == r@[i + worker_count / 2].hi,
        forall|i: int|
            0 <= i < worker_count / 2 ==> (#[trigger] r@[i]).lo == range.start + i * (
            range.size() / (worker_count / 2) as int),
        forall|i: int|
            0 <= i < worker_count / 2 - 1 ==> (#[trigger] r@[i]).hi == r@[i].lo + (range.size()
                / (worker_count / 2) as int) - 1,
{
    let half: usize = worker_count / 2;
    let n: u128 = range.end - range.start + 1;
    let step: u128 = n / (half as u128);
    proof {
        assert(step >= 1) by (nonlinear_arith)
            requires
                step == n as int / (half as int),
                half as int >= 1,
                n as int >= half as int;
        assert(step * (half as int) <= n) by (nonlinear_arith)
            requires
                step == n as int / (half as int),
                half as int >= 1,
                n as int >= 0;
    }
    let mut parts: Vec<Partition> = Vec::new();
    let mut i: usize = 0;
    while i < half
        invariant
            range.wf(),
            1 <= half,
            n == range.size(),
            n <= u128::MAX,
            1 <= step,
            step * (half as int) <= n,
            0 <= i <= half,
            parts@.len() == i,
            forall|j: int|
                0 <= j < i ==> (#[trigger] parts@[j]).lo == range.start + j * step,
            forall|j: int|
                0 <= j < i ==> (#[trigger] parts@[j]).hi == if j == half - 1 {
                    range.end as int
                } else {
                    range.start + (j + 1) * step - 1
                },
            forall|j: int| 0 <= j < i ==> (#[trigger] parts@[j]).dir == Direction::Ascending,
        decreases half - i,
    {
        proof {
            assert((i as int) * step + step == (i as int + 1) * step) by (nonlinear_arith);
            assert((i as int + 1) * step <= (half as int) * step) by (nonlinear_arith)
                requires
                    i as int + 1 <= half as int,
                    step >= 0;
            assert((half as int) * step == step * (half as int)) by (nonlinear_arith);
            assert(range.start + (i as int) * step + step - 1 <= range.end);
        }
        let lo: u128 = range.start + (i as u128) * step;
        let hi: u128 = if i == half - 1 {
            range.end
        } else {
            lo + (step - 1)
        };
        parts.push(Partition { lo, hi, dir: Direction::Ascending });
        i = i + 1;
    }
    proof {
        assert forall|j: int| 0 <= j < half implies (#[trigger] parts@[j]).lo
            <= parts@[j].hi by {
            assert(j * step + step == (j + 1) * step) by (nonlinear_arith);
            if j == half - 1 {
                assert((half as int - 1) * step + step == (half as int) * step)
                    by (nonlinear_arith);
                assert((half as int) * step == step * (half as int)) by (nonlinear_arith);
            } else {
                assert((j + 1) * step <= (half as int) * step) by (nonlinear_arith)
                    requires
                        j + 1 <= half as int,
                        step >= 0;
                assert((half as int) * step == step * (half as int)) by (nonlinear_arith);
            }
        }
        assert forall|j: int| 0 <= j < half - 1 implies (#[trigger] parts@[j + 1].lo)
            == parts@[j].hi + 1 by {
            assert(j * step + step == (j + 1) * step) by (nonlinear_arith);
        }
        assert(tiles(parts@, range));
    }
    let ghost asc = parts@;
    proof {
        assert forall|j: int| 0 <= j < half - 1 implies (#[trigger] asc[j]).hi == asc[j].lo
            + step - 1 by {
            assert(j * step + step == (j + 1) * step) by (nonlinear_arith);
        }
    }
    let mut i: usize = 0;
    while i < half
        invariant
            0 <= i <= half,
            1 <= half,
            half == worker_count / 2,
            n == range.size(),
            step == n as int / (half as int),
            forall|j: int| 0 <= j < half ==> (#[trigger] asc[j]).lo == range.start + j * step,
            forall|j: int|
                0 <= j < half - 1 ==> (#[trigger] asc[j]).hi == asc[j].lo + step - 1,
            parts@.len() == half + i,
            asc.len() == half,
            parts@.take(half as int) == asc,
            tiles(asc, range),
            forall|j: int| 0 <= j < half ==> (#[trigger] asc[j]).dir == Direction::Ascending,
            forall|j: int|
                0 <= j < i ==> (#[trigger] parts@[half + j]).lo == asc[j].lo && parts@[half
                    + j].hi == asc[j].hi && parts@[half + j].dir == Direction::Descending,
        decreases half - i,
    {
        let p = parts[i];
        parts.push(Partition { lo: p.lo, hi: p.hi, dir: Direction::Descending });
        proof {
            assert(parts@.take(half as int) =~= asc);
        }
        i = i + 1;
    }
    proof {
        let whole = parts@;
        assert(whole.take(half as int) =~= asc);
        let back = whole.skip(half as int);
        assert(back.len() == half);
        assert forall|j: int| 0 <= j < half implies back[j].lo == asc[j].lo && back[j].hi
            == asc[j].hi && (#[trigger] back[j]).dir == Direction::Descending by {
            assert(back[j] == whole[half + j]);
        }
        assert(tiles(back, range));
        assert forall|j: int| 0 <= j < half implies (#[trigger] whole[j]).dir
            == Direction::Ascending && whole[j].lo == asc[j].lo && whole[j].hi == asc[j].hi by {
            assert(whole[j] == asc[j]);
        }
        assert forall|j: int| half <= j < 2 * half implies (#[trigger] whole[j]).dir
            == Direction::Descending && whole[j].lo == asc[j - half].lo && whole[j].hi == asc[j
            - half].hi by {
            assert(whole[half + (j - half)].lo == asc[j - half].lo && whole[half + (j
                - half)].hi == asc[j - half].hi && whole[half + (j - half)].dir
                == Direction::Descending);
        }
    }
    parts
}

} // verus!
