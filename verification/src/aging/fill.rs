//! Filling a few cache lines of a buffer in place of all of it.
use crate::random::draw_index;
use rand::rngs::SmallRng;
use vstd::prelude::*;

verus! {

/// The bytes of a cache line.
pub const CACHE_LINE: usize = 64;

/// The bytes of a page.
pub const PAGE: usize = 4096;

/// How many cache lines to fill inside a buffer: one for every four of the pages
/// between the first and the last, at least one and at most three; none in a buffer of
/// two pages, or in one that is filled as a whole.
pub open spec fn interior_lines(size: nat) -> nat {
    let pages = size / 4096;
    if size <= 256 || pages <= 2 {
        0
    } else if (pages - 2) / 4 < 1 {
        1
    } else if (pages - 2) / 4 > 3 {
        3
    } else {
        ((pages - 2) / 4) as nat
    }
}

/// How many cache lines to fill inside a buffer.
pub fn interior_count(size: usize) -> (n: usize)
    ensures
        n == interior_lines(size as nat),
{
    let pages: usize = size / PAGE;
    if size <= CACHE_LINE * 4 || pages <= 2 {
        return 0;
    }
    let n: usize = (pages - 2) / 4;
    if n < 1 {
        1
    } else if n > 3 {
        3
    } else {
        n
    }
}

/// Whether these are pages to fill lines of: as many as asked for, between the first
/// page and the last.
pub open spec fn interior_pages(size: nat, pages: Seq<usize>) -> bool {
    &&& pages.len() == interior_lines(size)
    &&& forall|i: int| 0 <= i < pages.len() ==> 1 <= #[trigger] pages[i] < size / 4096 - 1
}

/// Pages evenly spaced between the first and the last.
pub fn even_pages(size: usize) -> (pages: Vec<usize>)
    ensures
        interior_pages(size as nat, pages@),
        forall|i: int|
            0 <= i < pages@.len() ==> #[trigger] pages@[i] == 1 + i * (size as nat / 4096 - 2)
                / (interior_lines(size as nat) as int),
{
    let count: usize = interior_count(size);
    let mut pages: Vec<usize> = Vec::new();
    let mut i: usize = 0;
    while i < count
        invariant
            i <= count <= 3,
            count == interior_lines(size as nat),
            pages@.len() == i,
            forall|j: int|
                0 <= j < i ==> #[trigger] pages@[j] == 1 + j * (size as nat / 4096 - 2) / (count as int)
                    && 1 <= pages@[j] < size as nat / 4096 - 1,
        decreases count - i,
    {
        let inner: usize = size / PAGE - 2;
        assert(i * inner <= 3 * inner) by (nonlinear_arith)
            requires
                i <= 3,
        ;
        let idx: usize = 1 + i * inner / count;
        proof {
            let a = i as int;
            let b = inner as int;
            let c = count as int;
            assert(0 <= a * b / c < b) by (nonlinear_arith)
                requires
                    0 <= a < c,
                    0 < b,
            ;
        }
        pages.push(idx);
        i = i + 1;
    }
    pages
}

/// Pages at random between the first and the last.
pub fn random_pages(size: usize, rng: &mut SmallRng) -> (pages: Vec<usize>)
    ensures
        interior_pages(size as nat, pages@),
{
    let count: usize = interior_count(size);
    let mut pages: Vec<usize> = Vec::new();
    let mut i: usize = 0;
    while i < count
        invariant
            i <= count,
            count == interior_lines(size as nat),
            pages@.len() == i,
            forall|j: int| 0 <= j < i ==> 1 <= #[trigger] pages@[j] < size as nat / 4096 - 1,
        decreases count - i,
    {
        let idx: usize = draw_index(rng, 1, size / PAGE - 1);
        pages.push(idx);
        i = i + 1;
    }
    pages
}

/// A run of bytes: where it begins, and how long it is.
#[derive(Clone, Copy, Debug, PartialEq, Eq, Structural)]
pub struct Run {
    pub at: usize,
    pub len: usize,
}

/// The cache lines at the start of pages.
pub open spec fn lines_at(pages: Seq<usize>) -> Seq<Run> {
    Seq::new(pages.len(), |i: int| Run { at: (pages[i] * 4096) as usize, len: 64 })
}

/// What to fill of a buffer: all of it where it is small; else the first cache line,
/// the last, and one at the start of each of the pages.
pub open spec fn fill_runs(size: usize, pages: Seq<usize>) -> Seq<Run> {
    if size <= 256 {
        seq![Run { at: 0, len: size }]
    } else {
        seq![Run { at: 0, len: 64 }, Run { at: (size - 64) as usize, len: 64 }] + lines_at(pages)
    }
}

/// What to fill of a buffer.
pub fn fill_plan(size: usize, pages: &[usize]) -> (runs: Vec<Run>)
    requires
        interior_pages(size as nat, pages@),
    ensures
        runs@ == fill_runs(size, pages@),
{
    let mut runs: Vec<Run> = Vec::new();
    if size <= CACHE_LINE * 4 {
        runs.push(Run { at: 0, len: size });
        assert(runs@ =~= fill_runs(size, pages@));
        return runs;
    }
    runs.push(Run { at: 0, len: CACHE_LINE });
    runs.push(Run { at: size - CACHE_LINE, len: CACHE_LINE });
    let ghost ends = runs@;
    let mut i: usize = 0;
    while i < pages.len()
        invariant
            i <= pages@.len(),
            interior_pages(size as nat, pages@),
            runs@ == ends + lines_at(pages@.take(i as int)),
        decreases pages@.len() - i,
    {
        assert(1 <= pages@[i as int] < size as nat / 4096 - 1);
        runs.push(Run { at: pages[i] * PAGE, len: CACHE_LINE });
        proof {
            assert(lines_at(pages@.take(i + 1)) =~= lines_at(pages@.take(i as int)).push(
                Run { at: (pages@[i as int] * 4096) as usize, len: 64 },
            ));
            assert(runs@ =~= ends + lines_at(pages@.take(i + 1)));
        }
        i = i + 1;
    }
    assert(pages@.take(pages@.len() as int) =~= pages@);
    assert(runs@ =~= fill_runs(size, pages@));
    runs
}

/// Whether a byte is in one of the runs.
pub open spec fn in_runs(runs: Seq<Run>, i: int) -> bool {
    exists|k: int| 0 <= k < runs.len() && (#[trigger] runs[k]).at <= i < runs[k].at + runs[k].len
}

/// Whether every run lies within a buffer.
pub open spec fn runs_fit(runs: Seq<Run>, size: nat) -> bool {
    forall|k: int| 0 <= k < runs.len() ==> (#[trigger] runs[k]).at + runs[k].len <= size
}

/// Every run to fill lies within the buffer.
pub proof fn law_fill_stays_inside(size: usize, pages: Seq<usize>)
    requires
        interior_pages(size as nat, pages),
    ensures
        runs_fit(fill_runs(size, pages), size as nat),
{
    let runs = fill_runs(size, pages);
    assert forall|k: int| 0 <= k < runs.len() implies (#[trigger] runs[k]).at + runs[k].len
        <= size by {
        if size > 256 && k >= 2 {
            assert(runs[k] == lines_at(pages)[k - 2]);
            assert(1 <= pages[k - 2] < size as nat / 4096 - 1);
        }
    }
}

/// The first byte and the last are always among those filled.
pub proof fn law_fill_reaches_both_ends(size: usize, pages: Seq<usize>)
    requires
        size > 0,
    ensures
        in_runs(fill_runs(size, pages), 0),
        in_runs(fill_runs(size, pages), size - 1),
{
    let runs = fill_runs(size, pages);
    assert(runs[0].at <= 0 < runs[0].at + runs[0].len);
    if size <= 256 {
        assert(runs[0].at <= size - 1 < runs[0].at + runs[0].len);
    } else {
        assert(runs[1].at <= size - 1 < runs[1].at + runs[1].len);
    }
}

fn fill_run(data: &mut Vec<u8>, run: Run, pattern: u8)
    requires
        run.at + run.len <= old(data)@.len(),
    ensures
        final(data)@.len() == old(data)@.len(),
        forall|i: int|
            0 <= i < final(data)@.len() ==> #[trigger] final(data)@[i] == if run.at <= i < run.at
                + run.len {
                pattern
            } else {
                old(data)@[i]
            },
{
    let ghost before = data@;
    let n: usize = data.len();
    let mut j: usize = 0;
    while j < run.len
        invariant
            j <= run.len,
            run.at + run.len <= n,
            data@.len() == n,
            data@.len() == before.len(),
            forall|i: int|
                0 <= i < data@.len() ==> #[trigger] data@[i] == if run.at <= i < run.at + j {
                    pattern
                } else {
                    before[i]
                },
        decreases run.len - j,
    {
        data.set(run.at + j, pattern);
        j = j + 1;
    }
}

/// Fills the runs to fill of a buffer, and leaves the rest as it is. `pages` are those
/// between the first and the last to fill a line of.
pub fn sparse_fill(data: &mut Vec<u8>, pattern: u8, pages: &[usize])
    requires
        interior_pages(old(data)@.len(), pages@),
    ensures
        final(data)@.len() == old(data)@.len(),
        forall|i: int|
            0 <= i < final(data)@.len() ==> #[trigger] final(data)@[i] == if in_runs(
                fill_runs(old(data)@.len() as usize, pages@),
                i,
            ) {
                pattern
            } else {
                old(data)@[i]
            },
{
    let ghost before = data@;
    let size: usize = data.len();
    let runs = fill_plan(size, pages);
    proof {
        law_fill_stays_inside(size, pages@);
    }
    let mut k: usize = 0;
    while k < runs.len()
        invariant
            k <= runs@.len(),
            data@.len() == before.len() == size,
            runs_fit(runs@, size as nat),
            forall|i: int|
                0 <= i < data@.len() ==> #[trigger] data@[i] == if in_runs(
                    runs@.take(k as int),
                    i,
                ) {
                    pattern
                } else {
                    before[i]
                },
        decreases runs@.len() - k,
    {
        let ghost mid = data@;
        let run = runs[k];
        assert(runs@[k as int].at + runs@[k as int].len <= size);
        fill_run(data, run, pattern);
        proof {
            assert forall|i: int| 0 <= i < data@.len() implies #[trigger] data@[i] == if in_runs(
                runs@.take(k + 1),
                i,
            ) {
                pattern
            } else {
                before[i]
            } by {
                let now = runs@.take(k + 1);
                let was = runs@.take(k as int);
                assert(mid[i] == if in_runs(was, i) {
                    pattern
                } else {
                    before[i]
                });
                assert(now[k as int] == run);
                if in_runs(was, i) {
                    let j = choose|j: int|
                        0 <= j < was.len() && (#[trigger] was[j]).at <= i < was[j].at + was[j].len;
                    assert(now[j] == was[j]);
                }
                if in_runs(now, i) && !(run.at <= i < run.at + run.len) {
                    let j = choose|j: int|
                        0 <= j < now.len() && (#[trigger] now[j]).at <= i < now[j].at + now[j].len;
                    assert(was[j] == now[j]);
                }
            }
        }
        k = k + 1;
    }
    assert(runs@.take(runs@.len() as int) =~= runs@);
}

} // verus!
