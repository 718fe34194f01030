//! Buffers that a worker holds on to, first in, first out, and fewer of them while
//! memory is short.
use std::collections::VecDeque;
use vstd::prelude::*;

verus! {

/// The least that a pool shrinks to.
pub const MIN_HOLD_SIZE: usize = 2;

/// After so many shortages in a row the pool shrinks.
pub const ENOMEM_SHRINK_THRESHOLD: u32 = 3;

/// After so many allocations without a shortage a shrunk pool grows.
pub const RECOVERY_THRESHOLD: u32 = 100;

/// The bytes of held items, each an item and its size.
pub open spec fn bytes_of<T>(q: Seq<(T, u64)>) -> nat
    decreases q.len(),
{
    if q.len() == 0 {
        0
    } else {
        q[0].1 as nat + bytes_of(q.skip(1))
    }
}

/// How many items leave from the front so that one more of `size` bytes fits in
/// `max_bytes`. Zero `max_bytes` is no limit.
pub open spec fn leaving<T>(q: Seq<(T, u64)>, max_bytes: u64, size: u64) -> nat
    decreases q.len(),
{
    if max_bytes == 0 || q.len() == 0 || bytes_of(q) + size <= max_bytes {
        0
    } else {
        1 + leaving(q.skip(1), max_bytes, size)
    }
}

/// Held items, without their sizes.
pub open spec fn items<T>(q: Seq<(T, u64)>) -> Seq<T> {
    Seq::new(q.len(), |i: int| q[i].0)
}

/// The items that a worker holds.
pub struct HoldPool<T> {
    bufs: VecDeque<(T, u64)>,
    bytes: u128,
    max_bytes: u64,
    max_size: usize,
    initial_max_size: usize,
    consecutive_enomem: u32,
    success_since_shrink: u32,
}

/// A pool: its items in the order in which they came, and how much it may hold.
#[verifier::ext_equal]
pub ghost struct Pool<T> {
    pub held: Seq<(T, u64)>,
    pub max_bytes: u64,
    pub max_size: nat,
    pub initial: nat,
    pub shortages: nat,
    pub successes: nat,
}

impl<T> Pool<T> {
    /// How many items leave when one more comes: one where the pool is full, and then
    /// as many as its bytes ask for.
    pub open spec fn making_room(self, size: u64) -> nat {
        let full: nat = if self.held.len() > 0 && self.held.len() >= self.max_size {
            1
        } else {
            0
        };
        full + leaving(self.held.skip(full as int), self.max_bytes, size)
    }

    /// The pool without its first items.
    pub open spec fn without(self, n: nat) -> Pool<T> {
        Pool { held: self.held.skip(n as int), ..self }
    }

    /// The pool with one more item.
    pub open spec fn pushed(self, item: T, size: u64) -> Pool<T> {
        let p = self.without(self.making_room(size));
        Pool { held: p.held.push((item, size)), ..p }
    }

    /// The limit after one more shortage.
    pub open spec fn shrunk(self) -> nat {
        if self.shortages + 1 < ENOMEM_SHRINK_THRESHOLD {
            self.max_size
        } else if self.max_size / 2 < MIN_HOLD_SIZE {
            MIN_HOLD_SIZE as nat
        } else {
            self.max_size / 2
        }
    }

    /// How many items leave at a shortage: half of them and one more, and at the third
    /// shortage in a row as many as the smaller limit asks for.
    pub open spec fn giving_up(self) -> nat {
        let n = self.held.len();
        let half: nat = if n / 2 + 1 < n {
            n / 2 + 1
        } else {
            n
        };
        if self.shortages + 1 >= ENOMEM_SHRINK_THRESHOLD && n - half > self.shrunk() {
            (n - self.shrunk()) as nat
        } else {
            half
        }
    }

    /// The pool after a shortage.
    pub open spec fn starved(self) -> Pool<T> {
        Pool {
            held: self.held.skip(self.giving_up() as int),
            max_size: self.shrunk(),
            shortages: if self.shortages + 1 >= ENOMEM_SHRINK_THRESHOLD {
                0
            } else {
                self.shortages + 1
            },
            successes: 0,
            ..self
        }
    }

    /// The pool after an allocation: shortages no longer count, and a shrunk pool
    /// doubles after enough of them, up to where it began.
    pub open spec fn fed(self) -> Pool<T> {
        if self.max_size >= self.initial {
            Pool { shortages: 0, ..self }
        } else if self.successes + 1 < RECOVERY_THRESHOLD {
            Pool { shortages: 0, successes: self.successes + 1, ..self }
        } else {
            Pool {
                shortages: 0,
                successes: 0,
                max_size: if self.max_size * 2 < self.initial {
                    self.max_size * 2
                } else {
                    self.initial
                },
                ..self
            }
        }
    }

    /// What every operation keeps: the limit is never below where it began or the
    /// least size, whichever is less, nor above whichever is more; and the pool is
    /// within its limit, or holds a single item.
    pub open spec fn wf(self) -> bool {
        &&& self.shortages < ENOMEM_SHRINK_THRESHOLD
        &&& self.successes < RECOVERY_THRESHOLD
        &&& self.max_size >= self.initial || self.max_size >= MIN_HOLD_SIZE
        &&& self.max_size <= self.initial || self.max_size <= MIN_HOLD_SIZE
        &&& self.held.len() <= self.max_size || self.held.len() <= 1
    }
}

impl<T> View for HoldPool<T> {
    type V = Pool<T>;

    closed spec fn view(&self) -> Pool<T> {
        Pool {
            held: self.bufs@,
            max_bytes: self.max_bytes,
            max_size: self.max_size as nat,
            initial: self.initial_max_size as nat,
            shortages: self.consecutive_enomem as nat,
            successes: self.success_since_shrink as nat,
        }
    }
}

proof fn lemma_bytes_bound<T>(q: Seq<(T, u64)>)
    ensures
        bytes_of(q) <= q.len() * u64::MAX,
    decreases q.len(),
{
    if q.len() > 0 {
        lemma_bytes_bound(q.skip(1));
        assert(q.len() * u64::MAX == (q.len() - 1) * u64::MAX + u64::MAX) by (nonlinear_arith);
    }
}

proof fn lemma_bytes_push<T>(q: Seq<(T, u64)>, x: (T, u64))
    ensures
        bytes_of(q.push(x)) == bytes_of(q) + x.1,
    decreases q.len(),
{
    if q.len() == 0 {
        assert(q.push(x).skip(1) =~= Seq::<(T, u64)>::empty());
        assert(bytes_of(q.push(x)) == q.push(x)[0].1 as nat + bytes_of(q.push(x).skip(1)));
    } else {
        assert(q.push(x).skip(1) =~= q.skip(1).push(x));
        lemma_bytes_push(q.skip(1), x);
    }
}

/// No more leave than there are.
pub proof fn lemma_leaving<T>(q: Seq<(T, u64)>, max_bytes: u64, size: u64)
    ensures
        leaving(q, max_bytes, size) <= q.len(),
    decreases q.len(),
{
    if q.len() > 0 {
        lemma_leaving(q.skip(1), max_bytes, size);
    }
}

impl<T> HoldPool<T> {
    /// What every operation keeps.
    pub closed spec fn inv(&self) -> bool {
        &&& self@.wf()
        &&& self.bytes == bytes_of(self.bufs@)
    }

    /// The pool's own invariant, for those who cannot see it.
    pub proof fn lemma_inv(&self)
        requires
            self.inv(),
        ensures
            self@.wf(),
    {
    }

    /// An empty pool for at most `max_size` items of at most `max_bytes` in all; zero
    /// `max_bytes` is no limit.
    pub fn new(max_size: usize, max_bytes: u64) -> (r: HoldPool<T>)
        ensures
            r.inv(),
            r@ == (Pool {
                held: Seq::<(T, u64)>::empty(),
                max_bytes,
                max_size: max_size as nat,
                initial: max_size as nat,
                shortages: 0,
                successes: 0,
            }),
    {
        HoldPool {
            bufs: VecDeque::new(),
            bytes: 0,
            max_bytes,
            max_size,
            initial_max_size: max_size,
            consecutive_enomem: 0,
            success_since_shrink: 0,
        }
    }

    /// How many items are held.
    pub fn len(&self) -> (r: usize)
        ensures
            r == self@.held.len(),
    {
        self.bufs.len()
    }

    /// How many items may be held.
    pub fn max_size(&self) -> (r: usize)
        ensures
            r == self@.max_size,
    {
        self.max_size
    }

    /// How many items could be held at the start.
    pub fn initial(&self) -> (r: usize)
        ensures
            r == self@.initial,
    {
        self.initial_max_size
    }

    /// The bytes of the held items.
    pub fn held_bytes(&self) -> (r: u128)
        requires
            self.inv(),
        ensures
            r == bytes_of(self@.held),
    {
        self.bytes
    }

    /// Takes the first item out, if there is one.
    fn pop(&mut self, gone: &mut Vec<T>)
        requires
            old(self).bytes == bytes_of(old(self).bufs@),
            old(self).bufs@.len() > 0,
        ensures
            final(self).bytes == bytes_of(final(self).bufs@),
            final(self).bufs@ == old(self).bufs@.skip(1),
            final(gone)@ == old(gone)@.push(old(self).bufs@[0].0),
            final(self)@ == (Pool { held: old(self)@.held.skip(1), ..old(self)@ }),
    {
        if let Some(x) = self.bufs.pop_front() {
            assert(self.bufs@ =~= old(self).bufs@.skip(1));
            self.bytes = self.bytes - x.1 as u128;
            gone.push(x.0);
        }
    }

    /// Takes the first `n` items out.
    fn pop_many(&mut self, n: usize, gone: &mut Vec<T>)
        requires
            old(self).bytes == bytes_of(old(self).bufs@),
            n <= old(self).bufs@.len(),
        ensures
            final(self).bytes == bytes_of(final(self).bufs@),
            final(gone)@ == old(gone)@ + items(old(self)@.held.take(n as int)),
            final(self)@ == old(self)@.without(n as nat),
    {
        let ghost before = self@;
        let ghost start = gone@;
        let mut i: usize = 0;
        assert(before.held.skip(0) =~= before.held);
        assert(start + items(before.held.take(0)) =~= start);
        while i < n
            invariant
                i <= n <= before.held.len(),
                self.bytes == bytes_of(self.bufs@),
                self@ == before.without(i as nat),
                gone@ == start + items(before.held.take(i as int)),
            decreases n - i,
        {
            self.pop(gone);
            proof {
                assert(before.held.skip(i as int).skip(1) =~= before.held.skip(i + 1));
                assert(items(before.held.take(i + 1)) =~= items(before.held.take(i as int)).push(
                    before.held[i as int].0,
                ));
                assert(gone@ =~= start + items(before.held.take(i + 1)));
            }
            i = i + 1;
        }
    }

    /// Adds an item. The items that leave for it come back, the oldest first.
    pub fn push(&mut self, item: T, size: u64) -> (gone: Vec<T>)
        requires
            old(self).inv(),
        ensures
            final(self).inv(),
            final(self)@ == old(self)@.pushed(item, size),
            gone@ == items(old(self)@.held.take(old(self)@.making_room(size) as int)),
    {
        let ghost before = self@;
        let mut gone: Vec<T> = Vec::new();
        let full: usize = if self.bufs.len() > 0 && self.bufs.len() >= self.max_size {
            1
        } else {
            0
        };
        self.pop_many(full, &mut gone);
        let left: usize = self.bufs.len();
        let ghost mid = self@.held;
        assert(mid.len() == left);
        let ghost first = gone@;
        let ghost more = leaving(mid, self.max_bytes, size);
        let mut n: Ghost<nat> = Ghost(0);
        proof {
            lemma_leaving(mid, self.max_bytes, size);
            lemma_bytes_bound(mid);
            let n = mid.len();
            assert(n * u64::MAX <= usize::MAX * u64::MAX) by (nonlinear_arith)
                requires
                    n <= usize::MAX,
            ;
            assert(mid.skip(0) =~= mid);
            assert(first + items(mid.take(0)) =~= first);
        }
        while self.max_bytes > 0 && self.bufs.len() > 0 && self.bytes + size as u128
            > self.max_bytes as u128
            invariant
                n@ <= mid.len(),
                self.bytes == bytes_of(self.bufs@),
                self.bytes + size <= u128::MAX,
                self@ == before.without(full as nat).without(n@),
                mid == before.held.skip(full as int),
                self.bufs@ == mid.skip(n@ as int),
                self.max_bytes == before.max_bytes,
                gone@ == first + items(mid.take(n@ as int)),
                more == n@ + leaving(mid.skip(n@ as int), self.max_bytes, size),
            decreases self.bufs@.len(),
        {
            let ghost left = self.bufs@;
            self.pop(&mut gone);
            proof {
                assert(left.skip(1) =~= mid.skip(n@ as int + 1));
                assert(before.without(full as nat).without(n@ + 1).held =~= mid.skip(n@ as int + 1));
                assert(items(mid.take(n@ as int + 1)) =~= items(mid.take(n@ as int)).push(
                    mid[n@ as int].0,
                ));
                assert(gone@ =~= first + items(mid.take(n@ as int + 1)));
                n@ = n@ + 1;
            }
        }
        proof {
            let k = before.making_room(size);
            assert(k == full + n@);
            assert(before.held.skip(full as int).skip(n@ as int) =~= before.held.skip(k as int));
            assert(gone@ =~= items(before.held.take(k as int)));
            lemma_bytes_push(self.bufs@, (item, size));
        }
        self.bytes = self.bytes + size as u128;
        self.bufs.push_back((item, size));
        assert(self@ =~= before.pushed(item, size));
        gone
    }

    /// Gives items up because memory is short. They come back, the oldest first.
    pub fn notify_enomem(&mut self) -> (gone: Vec<T>)
        requires
            old(self).inv(),
        ensures
            final(self).inv(),
            final(self)@ == old(self)@.starved(),
            gone@ == items(old(self)@.held.take(old(self)@.giving_up() as int)),
    {
        let ghost before = self@;
        let mut gone: Vec<T> = Vec::new();
        let n: usize = self.bufs.len();
        let mut to_drain: usize = if n / 2 < n {
            n / 2 + 1
        } else {
            n
        };
        if to_drain > n {
            to_drain = n;
        }
        self.consecutive_enomem = self.consecutive_enomem + 1;
        self.success_since_shrink = 0;
        if self.consecutive_enomem >= ENOMEM_SHRINK_THRESHOLD {
            let half: usize = self.max_size / 2;
            self.max_size = if half < MIN_HOLD_SIZE {
                MIN_HOLD_SIZE
            } else {
                half
            };
            if n - to_drain > self.max_size {
                to_drain = n - self.max_size;
            }
            self.consecutive_enomem = 0;
        }
        self.pop_many(to_drain, &mut gone);
        proof {
            assert(to_drain == before.giving_up());
            assert(self@ =~= before.starved());
            assert(gone@ =~= items(before.held.take(to_drain as int)));
        }
        gone
    }

    /// Takes note of an allocation.
    pub fn notify_success(&mut self)
        requires
            old(self).inv(),
        ensures
            final(self).inv(),
            final(self)@ == old(self)@.fed(),
    {
        self.consecutive_enomem = 0;
        if self.max_size < self.initial_max_size {
            self.success_since_shrink = self.success_since_shrink + 1;
            if self.success_since_shrink >= RECOVERY_THRESHOLD {
                self.max_size = if self.max_size < self.initial_max_size - self.max_size {
                    self.max_size * 2
                } else {
                    self.initial_max_size
                };
                self.success_since_shrink = 0;
            }
        }
    }

    /// Gives all items up. They come back, the oldest first.
    pub fn drain_all(&mut self) -> (gone: Vec<T>)
        requires
            old(self).inv(),
        ensures
            final(self).inv(),
            final(self)@ == (Pool { held: Seq::<(T, u64)>::empty(), ..old(self)@ }),
            gone@ == items(old(self)@.held),
    {
        let mut gone: Vec<T> = Vec::new();
        let n: usize = self.bufs.len();
        let ghost before = self@;
        self.pop_many(n, &mut gone);
        proof {
            assert(before.held.take(n as int) =~= before.held);
            assert(gone@ =~= items(before.held));
            assert(self@.held =~= Seq::empty());
        }
        gone
    }
}

/// A run of the pool: items are added, memory is short, an allocation succeeds.
pub ghost enum PoolEvent<T> {
    Push { item: T, size: u64 },
    Shortage,
    Success,
}

/// The pool after a run, and the items that left it, in order.
pub open spec fn after_run<T>(p: Pool<T>, run: Seq<PoolEvent<T>>) -> (Pool<T>, Seq<T>)
    decreases run.len(),
{
    if run.len() == 0 {
        (p, Seq::empty())
    } else {
        let (q, gone) = after_run(p, run.drop_last());
        match run.last() {
            PoolEvent::Push { item, size } => (
                q.pushed(item, size),
                gone + items(q.held.take(q.making_room(size) as int)),
            ),
            PoolEvent::Shortage => (q.starved(), gone + items(q.held.take(q.giving_up() as int))),
            PoolEvent::Success => (q.fed(), gone),
        }
    }
}

/// The items that a run adds, in order.
pub open spec fn added<T>(run: Seq<PoolEvent<T>>) -> Seq<T>
    decreases run.len(),
{
    if run.len() == 0 {
        Seq::empty()
    } else {
        match run.last() {
            PoolEvent::Push { item, size } => added(run.drop_last()).push(item),
            _ => added(run.drop_last()),
        }
    }
}

/// Nothing is lost and nothing overtakes: what has left an empty pool and what it
/// still holds are together what was added, in the order in which it was added.
/// The limits hold throughout.
pub proof fn law_first_in_first_out<T>(p: Pool<T>, run: Seq<PoolEvent<T>>)
    requires
        p.wf(),
        p.held.len() == 0,
    ensures
        after_run(p, run).1 + items(after_run(p, run).0.held) == added(run),
        after_run(p, run).0.wf(),
        after_run(p, run).0.initial == p.initial,
        after_run(p, run).0.max_bytes == p.max_bytes,
    decreases run.len(),
{
    let (r, out) = after_run(p, run);
    if run.len() == 0 {
        assert(out + items(r.held) =~= added(run));
    } else {
        law_first_in_first_out(p, run.drop_last());
        let (q, gone) = after_run(p, run.drop_last());
        match run.last() {
            PoolEvent::Push { item, size } => {
                let full: nat = if q.held.len() > 0 && q.held.len() >= q.max_size {
                    1
                } else {
                    0
                };
                lemma_leaving(q.held.skip(full as int), q.max_bytes, size);
                let k = q.making_room(size) as int;
                assert(items(q.held) =~= items(q.held.take(k)) + items(q.held.skip(k)));
                assert(items(r.held) =~= items(q.held.skip(k)).push(item));
                assert(out + items(r.held) =~= (gone + items(q.held)).push(item));
            },
            PoolEvent::Shortage => {
                let k = q.giving_up() as int;
                assert(items(q.held) =~= items(q.held.take(k)) + items(q.held.skip(k)));
                assert(out + items(r.held) =~= gone + items(q.held));
            },
            PoolEvent::Success => {},
        }
    }
}

/// After every shortage at most half of the items are left, and each third one in a
/// row leaves a limit of half, but never under two.
pub proof fn law_shortage_halves<T>(p: Pool<T>)
    requires
        p.wf(),
    ensures
        2 * p.starved().held.len() <= p.held.len(),
        p.shortages + 1 < ENOMEM_SHRINK_THRESHOLD ==> p.starved().max_size == p.max_size,
        p.shortages + 1 == ENOMEM_SHRINK_THRESHOLD ==> p.starved().max_size == if p.max_size / 2
            < MIN_HOLD_SIZE {
            MIN_HOLD_SIZE as nat
        } else {
            p.max_size / 2
        },
        p.initial >= MIN_HOLD_SIZE ==> MIN_HOLD_SIZE <= p.starved().max_size <= p.initial,
{
}

/// The pool after `n` allocations without a shortage.
pub open spec fn fed_times<T>(p: Pool<T>, n: nat) -> Pool<T>
    decreases n,
{
    if n == 0 {
        p
    } else {
        fed_times(p, (n - 1) as nat).fed()
    }
}

proof fn lemma_fed_times<T>(p: Pool<T>, n: nat)
    requires
        p.max_size < p.initial,
        p.successes + n < RECOVERY_THRESHOLD,
    ensures
        fed_times(p, n).max_size == p.max_size,
        fed_times(p, n).initial == p.initial,
        fed_times(p, n).successes == p.successes + n,
        fed_times(p, n).held == p.held,
    decreases n,
{
    if n > 0 {
        lemma_fed_times(p, (n - 1) as nat);
    }
}

/// A hundred allocations after a shortage double a shrunk pool's limit, up to where
/// it began, and take nothing from the pool.
pub proof fn law_recovery<T>(p: Pool<T>)
    requires
        p.wf(),
        p.successes == 0,
        p.max_size < p.initial,
    ensures
        fed_times(p, RECOVERY_THRESHOLD as nat).max_size == if p.max_size * 2 < p.initial {
            p.max_size * 2
        } else {
            p.initial
        },
        fed_times(p, RECOVERY_THRESHOLD as nat).held == p.held,
{
    lemma_fed_times(p, (RECOVERY_THRESHOLD - 1) as nat);
}

} // verus!
