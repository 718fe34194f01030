//! The graphics workload: starting and switching applications, streaming textures.
use vstd::prelude::*;

verus! {

/// The graphics workload's settings.
#[derive(Clone, Copy, Debug)]
pub struct GpuConfig {
    pub buffer_count: usize,
    pub switch_count: u32,
    pub texture_size: u64,
    pub pool_size: usize,
    pub evict_pct: u32,
    pub evict_rounds: u32,
}

/// The settings where none are given.
pub open spec fn gpu_defaults() -> GpuConfig {
    GpuConfig {
        buffer_count: 50,
        switch_count: 10,
        texture_size: 1_048_576,
        pool_size: 100,
        evict_pct: 30,
        evict_rounds: 10,
    }
}

impl Default for GpuConfig {
    fn default() -> (r: Self)
        ensures
            r == gpu_defaults(),
    {
        GpuConfig {
            buffer_count: 50,
            switch_count: 10,
            texture_size: 1_048_576,
            pool_size: 100,
            evict_pct: 30,
            evict_rounds: 10,
        }
    }
}

/// The sizes of an application's buffers, from constants to render targets.
pub const APP_LAUNCH_SIZES: [u64; 7] = [
    4096,
    16384,
    65536,
    262_144,
    1_048_576,
    4_194_304,
    16_777_216,
];

/// The size of the buffers of an application that is switched to.
pub const APP_SWITCH_SIZE: u64 = 262_144;

/// How many textures a round evicts.
pub open spec fn evicted_per_round(c: GpuConfig) -> nat {
    (c.pool_size as nat * c.evict_pct as nat / 100) as nat
}

/// How many textures a round evicts.
pub fn evict_count(c: &GpuConfig) -> (r: u64)
    requires
        c.pool_size * c.evict_pct <= u64::MAX,
    ensures
        r == evicted_per_round(*c),
{
    c.pool_size as u64 * c.evict_pct as u64 / 100
}

/// The textures among the first `n` that a round evicts: every third, shifted by the
/// round, as long as there are fewer than `limit`.
pub open spec fn evictions(n: nat, round: nat, limit: nat) -> Seq<usize>
    decreases n,
{
    if n == 0 {
        Seq::empty()
    } else {
        let before = evictions((n - 1) as nat, round, limit);
        if before.len() < limit && (n - 1 + round) % 3 == 0 {
            before.push((n - 1) as usize)
        } else {
            before
        }
    }
}

/// The textures that a round evicts from a full pool.
pub fn evicted_slots(pool_size: usize, round: u32, limit: u64) -> (r: Vec<usize>)
    ensures
        r@ == evictions(pool_size as nat, round as nat, limit as nat),
{
    let mut r: Vec<usize> = Vec::new();
    let mut i: usize = 0;
    while i < pool_size
        invariant
            i <= pool_size,
            r@ == evictions(i as nat, round as nat, limit as nat),
            r@.len() <= i,
        decreases pool_size - i,
    {
        let shifted: u128 = i as u128 + round as u128;
        if (r.len() as u64) < limit && shifted % 3 == 0 {
            r.push(i);
        }
        i = i + 1;
    }
    r
}

/// A round evicts no more than its share, each texture at most once and only
/// textures of the pool.
pub proof fn law_evictions(n: nat, round: nat, limit: nat)
    requires
        n <= usize::MAX,
    ensures
        evictions(n, round, limit).len() <= limit,
        forall|i: int|
            0 <= i < evictions(n, round, limit).len() ==> (#[trigger] evictions(
                n,
                round,
                limit,
            )[i]) < n,
        forall|i: int, j: int|
            0 <= i < j < evictions(n, round, limit).len() ==> (#[trigger] evictions(
                n,
                round,
                limit,
            )[i]) < (#[trigger] evictions(n, round, limit)[j]),
    decreases n,
{
    if n > 0 {
        law_evictions((n - 1) as nat, round, limit);
    }
}

} // verus!
