//! Figures derived from the kernel's counts of free blocks per order.
use vstd::arithmetic::power2::{lemma_pow2_pos, lemma_pow2_unfold, pow2};
use vstd::prelude::*;

verus! {

/// The bytes of a page.
pub const PAGE_SIZE: u64 = 4096;

/// The pages in free blocks: a block of order `i` has `2^i` of them.
pub open spec fn free_pages(counts: Seq<u64>) -> nat
    decreases counts.len(),
{
    if counts.len() == 0 {
        0
    } else {
        free_pages(counts.drop_last()) + counts.last() as nat * pow2((counts.len() - 1) as nat)
    }
}

/// The highest order of which a block is free, or zero.
pub open spec fn highest_order(counts: Seq<u64>) -> nat
    decreases counts.len(),
{
    if counts.len() == 0 {
        0
    } else if counts.last() > 0 {
        (counts.len() - 1) as nat
    } else {
        highest_order(counts.drop_last())
    }
}

/// The free blocks of the given order and above.
pub open spec fn blocks_from(counts: Seq<u64>, order: int) -> nat
    decreases counts.len(),
{
    if counts.len() <= order || counts.len() == 0 {
        0
    } else {
        blocks_from(counts.drop_last(), order) + counts.last() as nat
    }
}

/// The pages in free blocks of the given order and above.
pub open spec fn pages_from(counts: Seq<u64>, order: int) -> nat
    decreases counts.len(),
{
    if counts.len() <= order || counts.len() == 0 {
        0
    } else {
        pages_from(counts.drop_last(), order) + counts.last() as nat * pow2(
            (counts.len() - 1) as nat,
        )
    }
}

/// Fewer orders hold no more free pages of an order and above.
pub proof fn lemma_pages_grow(counts: Seq<u64>, order: int, n: int)
    requires
        0 <= n <= counts.len(),
    ensures
        pages_from(counts.take(n), order) <= pages_from(counts, order),
    decreases counts.len() - n,
{
    if n < counts.len() {
        lemma_pages_grow(counts, order, n + 1);
        assert(counts.take(n + 1).drop_last() =~= counts.take(n));
        lemma_pow2_pos(n as nat);
        assert(counts[n] as nat * pow2(n as nat) >= 0) by (nonlinear_arith);
    } else {
        assert(counts.take(n) =~= counts);
    }
}

/// Fewer orders hold no more free pages.
pub proof fn lemma_free_pages_grow(counts: Seq<u64>, n: int)
    requires
        0 <= n <= counts.len(),
    ensures
        free_pages(counts.take(n)) <= free_pages(counts),
    decreases counts.len() - n,
{
    if n < counts.len() {
        lemma_free_pages_grow(counts, n + 1);
        assert(counts.take(n + 1).drop_last() =~= counts.take(n));
        lemma_pow2_pos(n as nat);
        assert(counts[n] as nat * pow2(n as nat) >= 0) by (nonlinear_arith);
    } else {
        assert(counts.take(n) =~= counts);
    }
}

/// Free blocks of any order are no more than free pages.
pub proof fn lemma_blocks_below_pages(counts: Seq<u64>, order: int)
    ensures
        blocks_from(counts, order) <= free_pages(counts),
    decreases counts.len(),
{
    if counts.len() > 0 {
        lemma_blocks_below_pages(counts.drop_last(), order);
        let k = (counts.len() - 1) as nat;
        lemma_pow2_pos(k);
        assert(counts.last() as nat * pow2(k) >= counts.last() as nat) by (nonlinear_arith)
            requires
                pow2(k) >= 1,
        ;
    }
}

/// A block of the highest free order is among the free pages, if any are free.
pub proof fn lemma_highest_order(counts: Seq<u64>)
    ensures
        highest_order(counts) == 0 || pow2(highest_order(counts)) <= free_pages(counts),
    decreases counts.len(),
{
    if counts.len() > 0 {
        let k = (counts.len() - 1) as nat;
        lemma_pow2_pos(k);
        assert(counts.last() as nat * pow2(k) >= 0) by (nonlinear_arith);
        if counts.last() > 0 {
            assert(counts.last() as nat * pow2(k) >= pow2(k)) by (nonlinear_arith)
                requires
                    counts.last() >= 1,
                    pow2(k) >= 1,
            ;
        } else {
            lemma_highest_order(counts.drop_last());
        }
    }
}

/// The pages in all free blocks.
pub fn total_free_pages(counts: &[u64]) -> (r: u64)
    requires
        free_pages(counts@) <= u64::MAX,
    ensures
        r == free_pages(counts@),
{
    let mut total: u64 = 0;
    let mut size: u128 = 1;
    let mut i: usize = 0;
    proof {
        vstd::arithmetic::power2::lemma2_to64();
    }
    while i < counts.len()
        invariant
            i <= counts@.len(),
            free_pages(counts@) <= u64::MAX,
            total == free_pages(counts@.take(i as int)),
            0 < size <= 0x1_0000_0000_0000_0000,
            size < 0x1_0000_0000_0000_0000 ==> size == pow2(i as nat),
            size == 0x1_0000_0000_0000_0000 ==> pow2(i as nat) >= size,
        decreases counts@.len() - i,
    {
        proof {
            lemma_free_pages_grow(counts@, i + 1);
            assert(counts@.take(i + 1).drop_last() =~= counts@.take(i as int));
            lemma_pow2_unfold((i + 1) as nat);
        }
        let c: u64 = counts[i];
        if c > 0 {
            proof {
                assert(c as nat * pow2(i as nat) >= pow2(i as nat)) by (nonlinear_arith)
                    requires
                        c >= 1,
                        pow2(i as nat) >= 1,
                ;
            }
            total = total + c * (size as u64);
        } else {
            assert(c as nat * pow2(i as nat) == 0) by (nonlinear_arith)
                requires
                    c == 0,
            ;
        }
        if size < 0x8000_0000_0000_0000 {
            size = 2 * size;
        } else {
            size = 0x1_0000_0000_0000_0000;
        }
        i = i + 1;
    }
    assert(counts@.take(counts@.len() as int) =~= counts@);
    total
}

/// The highest order of which a block is free; zero where none is.
pub fn max_contiguous_order(counts: &[u64]) -> (r: usize)
    ensures
        r == highest_order(counts@),
{
    let mut i: usize = counts.len();
    assert(counts@.take(i as int) =~= counts@);
    while i > 0
        invariant
            i <= counts@.len(),
            highest_order(counts@.take(i as int)) == highest_order(counts@),
        decreases i,
    {
        if counts[i - 1] > 0 {
            return i - 1;
        }
        assert(counts@.take(i as int).drop_last() =~= counts@.take(i - 1));
        i = i - 1;
    }
    0
}

/// The free blocks of an order and above.
pub fn blocks_above_order(counts: &[u64], order: usize) -> (r: u64)
    requires
        blocks_from(counts@, order as int) <= u64::MAX,
    ensures
        r == blocks_from(counts@, order as int),
{
    let mut total: u64 = 0;
    let mut i: usize = 0;
    while i < counts.len()
        invariant
            i <= counts@.len(),
            blocks_from(counts@, order as int) <= u64::MAX,
            total == blocks_from(counts@.take(i as int), order as int),
        decreases counts@.len() - i,
    {
        proof {
            lemma_blocks_grow(counts@, order as int, i + 1);
            assert(counts@.take(i + 1).drop_last() =~= counts@.take(i as int));
        }
        if i >= order {
            total = total + counts[i];
        }
        i = i + 1;
    }
    assert(counts@.take(counts@.len() as int) =~= counts@);
    total
}

/// The pages in free blocks of an order and above.
pub fn pages_above_order(counts: &[u64], order: usize) -> (r: u64)
    requires
        pages_from(counts@, order as int) <= u64::MAX,
    ensures
        r == pages_from(counts@, order as int),
{
    let mut total: u64 = 0;
    let mut size: u128 = 1;
    let mut i: usize = 0;
    proof {
        vstd::arithmetic::power2::lemma2_to64();
    }
    while i < counts.len()
        invariant
            i <= counts@.len(),
            pages_from(counts@, order as int) <= u64::MAX,
            total == pages_from(counts@.take(i as int), order as int),
            0 < size <= 0x1_0000_0000_0000_0000,
            size < 0x1_0000_0000_0000_0000 ==> size == pow2(i as nat),
            size == 0x1_0000_0000_0000_0000 ==> pow2(i as nat) >= size,
        decreases counts@.len() - i,
    {
        proof {
            lemma_pages_grow(counts@, order as int, i + 1);
            assert(counts@.take(i + 1).drop_last() =~= counts@.take(i as int));
            lemma_pow2_unfold((i + 1) as nat);
        }
        let c: u64 = counts[i];
        if c > 0 && i >= order {
            proof {
                assert(c as nat * pow2(i as nat) >= pow2(i as nat)) by (nonlinear_arith)
                    requires
                        c >= 1,
                        pow2(i as nat) >= 1,
                ;
            }
            total = total + c * (size as u64);
        } else {
            assert(c == 0 ==> c as nat * pow2(i as nat) == 0) by (nonlinear_arith);
        }
        if size < 0x8000_0000_0000_0000 {
            size = 2 * size;
        } else {
            size = 0x1_0000_0000_0000_0000;
        }
        i = i + 1;
    }
    assert(counts@.take(counts@.len() as int) =~= counts@);
    total
}

/// Fewer orders hold no more free blocks.
pub proof fn lemma_blocks_grow(counts: Seq<u64>, order: int, n: int)
    requires
        0 <= n <= counts.len(),
    ensures
        blocks_from(counts.take(n), order) <= blocks_from(counts, order),
    decreases counts.len() - n,
{
    if n < counts.len() {
        lemma_blocks_grow(counts, order, n + 1);
        assert(counts.take(n + 1).drop_last() =~= counts.take(n));
    } else {
        assert(counts.take(n) =~= counts);
    }
}

/// `2^k` pages in bytes.
pub fn pages_of_order(k: usize) -> (r: u64)
    requires
        pow2(k as nat) * PAGE_SIZE <= u64::MAX,
    ensures
        r == pow2(k as nat) * PAGE_SIZE,
{
    let mut r: u64 = 1;
    let mut i: usize = 0;
    proof {
        vstd::arithmetic::power2::lemma2_to64();
    }
    while i < k
        invariant
            i <= k,
            pow2(k as nat) * PAGE_SIZE <= u64::MAX,
            r == pow2(i as nat),
        decreases k - i,
    {
        proof {
            lemma_pow2_unfold((i + 1) as nat);
            if i + 1 < k {
                vstd::arithmetic::power2::lemma_pow2_strictly_increases((i + 1) as nat, k as nat);
            }
        }
        r = 2 * r;
        i = i + 1;
    }
    r * PAGE_SIZE
}

/// A block of an order is two to the order pages: a free block more of an order makes so many
/// more free pages, and counts as a block and as pages of every order up to its own.
pub proof fn law_one_more_block(counts: Seq<u64>, i: int, order: int)
    requires
        0 <= i < counts.len(),
        counts[i] < u64::MAX,
    ensures
        ({
            let more = counts.update(i, (counts[i] + 1) as u64);
            &&& free_pages(more) == free_pages(counts) + pow2(i as nat)
            &&& pages_from(more, order) == pages_from(counts, order) + if i >= order {
                pow2(i as nat)
            } else {
                0nat
            }
            &&& blocks_from(more, order) == blocks_from(counts, order) + if i >= order {
                1nat
            } else {
                0nat
            }
            &&& highest_order(more) >= i
            &&& highest_order(more) >= highest_order(counts)
        }),
    decreases counts.len(),
{
    let more = counts.update(i, (counts[i] + 1) as u64);
    let n = counts.len() - 1;
    if i == n {
        assert(more.drop_last() =~= counts.drop_last());
        let p = pow2(n as nat);
        assert((counts[i] + 1) * p == counts[i] * p + p) by (nonlinear_arith);
        lemma_highest_below(counts.drop_last());
    } else {
        assert(more.drop_last() =~= counts.drop_last().update(i, (counts[i] + 1) as u64));
        law_one_more_block(counts.drop_last(), i, order);
    }
}

proof fn lemma_highest_below(counts: Seq<u64>)
    ensures
        highest_order(counts) <= counts.len(),
    decreases counts.len(),
{
    if counts.len() > 0 {
        lemma_highest_below(counts.drop_last());
    }
}

/// Without a free block there are no free pages; the highest order is that of some free block,
/// and no higher one has any.
pub proof fn law_highest_order(counts: Seq<u64>)
    ensures
        (forall|i: int| 0 <= i < counts.len() ==> counts[i] == 0) ==> free_pages(counts) == 0
            && highest_order(counts) == 0,
        (exists|i: int| 0 <= i < counts.len() && counts[i] > 0) ==> highest_order(counts)
            < counts.len() && counts[highest_order(counts) as int] > 0,
        forall|i: int| highest_order(counts) < i < counts.len() ==> counts[i] == 0,
    decreases counts.len(),
{
    if counts.len() > 0 {
        let rest = counts.drop_last();
        law_highest_order(rest);
        assert(forall|i: int| 0 <= i < rest.len() ==> rest[i] == counts[i]);
        assert(counts.last() == counts[counts.len() - 1]);
        if counts.last() == 0 {
            let p = pow2((counts.len() - 1) as nat);
            assert(0 * p == 0);
            if exists|i: int| 0 <= i < counts.len() && counts[i] > 0 {
                let i = choose|i: int| 0 <= i < counts.len() && counts[i] > 0;
                assert(rest[i] > 0);
            }
        }
    }
}

/// All blocks together hold all free pages.
pub proof fn law_all_orders_hold_all_pages(counts: Seq<u64>)
    ensures
        pages_from(counts, 0) == free_pages(counts),
    decreases counts.len(),
{
    if counts.len() > 0 {
        law_all_orders_hold_all_pages(counts.drop_last());
    }
}

} // verus!
