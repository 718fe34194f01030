//! Buffers that are kept for a while: those that empty a heap's pool, and those of a pool
//! that is gone through in turn.
use crate::backend::ioctl::{
    Errno, DMA_HEAP_ALLOC_FD_FLAGS, DMA_HEAP_VALID_FD_FLAGS, DMA_HEAP_VALID_HEAP_FLAGS,
};
use crate::backend::model::Mapping;
use crate::backend::protocol::{closes_open, Answers, Call, DmaBufBackend, HeapBackend, Kind, Reply};
use vstd::prelude::*;

verus! {

/// What is open once buffers are open too.
pub open spec fn opened_with(m: Map<i32, Kind>, fds: Seq<i32>) -> Map<i32, Kind> {
    m.union_prefer_right(Map::new(|fd: i32| fds.contains(fd), |fd: i32| Kind::Buffer))
}

/// What is open once descriptors are closed.
pub open spec fn opened_without(m: Map<i32, Kind>, fds: Seq<i32>) -> Map<i32, Kind> {
    m.remove_keys(fds.to_set())
}

/// Whether buffers, no two of them the same, are open.
pub open spec fn buffers_open(m: Map<i32, Kind>, fds: Seq<i32>) -> bool {
    &&& fds.no_duplicates()
    &&& forall|i: int|
        0 <= i < fds.len() ==> m.contains_key(#[trigger] fds[i]) && m[fds[i]] == Kind::Buffer
}

/// Buffers that were not open, are opened and then closed: what is open is what was open
/// before.
pub proof fn law_opened_and_closed(m: Map<i32, Kind>, fds: Seq<i32>)
    requires
        forall|i: int| 0 <= i < fds.len() ==> !m.contains_key(#[trigger] fds[i]),
    ensures
        opened_without(opened_with(m, fds), fds) == m,
{
    assert(opened_without(opened_with(m, fds), fds) =~= m);
}

/// Whether a call is made again and again, and answered with descriptors.
pub open spec fn obtained<B: Answers>(a: B, call: Call, fds: Seq<i32>, b: B) -> bool
    decreases fds.len(),
{
    if fds.len() == 0 {
        b == a
    } else {
        exists|m: B|
            obtained(a, call, fds.drop_last(), m) && #[trigger] m.answers(
                call,
                Reply::Fd(fds.last()),
                b,
            )
    }
}

/// Whether a buffer is closed, whatever comes of it.
pub open spec fn shut_down<B: Answers>(a: B, fd: i32, b: B) -> bool {
    exists|reply: Reply| #[trigger] a.answers(Call::Close { fd }, reply, b)
}

/// Whether buffers are closed, one after the other.
pub open spec fn closed_in_turn<B: Answers>(a: B, fds: Seq<i32>, b: B) -> bool
    decreases fds.len(),
{
    if fds.len() == 0 {
        b == a
    } else {
        exists|m: B|
            closed_in_turn(a, fds.drop_last(), m) && #[trigger] shut_down(m, fds.last(), b)
    }
}

/// One more buffer is open.
proof fn lemma_one_more(m: Map<i32, Kind>, held: Seq<i32>, more: Seq<i32>, fd: i32)
    requires
        buffers_open(opened_with(m, more), held),
        !opened_with(m, more).contains_key(fd),
    ensures
        opened_with(m, more).insert(fd, Kind::Buffer) == opened_with(m, more.push(fd)),
        buffers_open(opened_with(m, more.push(fd)), held.push(fd)),
{
    let now = more.push(fd);
    assert forall|x: i32| now.contains(x) == (more.contains(x) || x == fd) by {
        if more.contains(x) {
            let i = choose|i: int| 0 <= i < more.len() && more[i] == x;
            assert(now[i] == x);
        }
        if x == fd {
            assert(now[more.len() as int] == x);
        }
        if now.contains(x) && x != fd {
            let i = choose|i: int| 0 <= i < now.len() && now[i] == x;
            assert(more[i] == x);
        }
    }
    assert(opened_with(m, more).insert(fd, Kind::Buffer) =~= opened_with(m, now));
    let h = held.push(fd);
    assert forall|i: int| 0 <= i < h.len() implies opened_with(m, now).contains_key(#[trigger] h[i])
        && opened_with(m, now)[h[i]] == Kind::Buffer by {
        if i < held.len() {
            assert(h[i] == held[i]);
        }
    }
    assert forall|i: int, j: int| 0 <= i < h.len() && 0 <= j < h.len() && i != j implies h[i]
        != h[j] by {
        if i < held.len() {
            assert(h[i] == held[i]);
        }
        if j < held.len() {
            assert(h[j] == held[j]);
        }
    }
}

/// One buffer less is open.
proof fn lemma_one_less(m: Map<i32, Kind>, fds: Seq<i32>, i: int)
    requires
        buffers_open(m, fds),
        0 <= i < fds.len(),
    ensures
        opened_without(m, fds.take(i)).contains_key(fds[i]),
        opened_without(m, fds.take(i))[fds[i]] == Kind::Buffer,
        opened_without(m, fds.take(i)).remove(fds[i]) == opened_without(m, fds.take(i + 1)),
        fds.take(i + 1).drop_last() == fds.take(i),
        fds.take(i + 1).last() == fds[i],
{
    assert(m.contains_key(fds[i]));
    assert(!fds.take(i).contains(fds[i]));
    assert forall|x: i32| fds.take(i + 1).contains(x) == (fds.take(i).contains(x) || x == fds[i]) by {
        if fds.take(i).contains(x) {
            let k = choose|k: int| 0 <= k < i && fds.take(i)[k] == x;
            assert(fds.take(i + 1)[k] == x);
        }
        if x == fds[i] {
            assert(fds.take(i + 1)[i] == x);
        }
        if fds.take(i + 1).contains(x) && x != fds[i] {
            let more = fds.take(i + 1);
            let k = choose|k: int| 0 <= k < more.len() && more[k] == x;
            assert(fds.take(i)[k] == x);
        }
    }
    assert(opened_without(m, fds.take(i)).remove(fds[i]) =~= opened_without(m, fds.take(i + 1)));
    assert(fds.take(i + 1).drop_last() =~= fds.take(i));
}

/// Empties a heap's pool: on draining, buffers are allocated and kept, and on releasing
/// all of them go, so that their pages return to the pool.
pub struct PoolDrainer {
    pub heap: i32,
    pub size: u64,
    pub drain_count: u32,
    pub held: Vec<i32>,
}

impl PoolDrainer {
    /// The allocation of a buffer.
    pub open spec fn call(self) -> Call {
        Call::Allocate {
            heap: self.heap,
            len: self.size,
            fd_flags: DMA_HEAP_ALLOC_FD_FLAGS,
            heap_flags: DMA_HEAP_VALID_HEAP_FLAGS,
        }
    }

    /// Whether the buffers that are kept are open.
    pub open spec fn ready<B: Answers>(self, b: B) -> bool {
        b.valid() && buffers_open(b.opened(), self.held@)
    }

    /// A drainer of a heap, which allocates nothing yet.
    pub fn new(heap: i32, size: u64, drain_count: u32) -> (r: PoolDrainer)
        ensures
            r.heap == heap,
            r.size == size,
            r.drain_count == drain_count,
            r.held@ == Seq::<i32>::empty(),
    {
        PoolDrainer { heap, size, drain_count, held: Vec::new() }
    }

    /// How many buffers are kept.
    pub fn held_count(&self) -> (n: usize)
        ensures
            n == self.held@.len(),
    {
        self.held.len()
    }

    /// Whether draining leads from one backend to another: buffers are allocated until
    /// there are enough, or until an allocation fails.
    pub open spec fn drained<B: Answers>(
        self,
        a: B,
        more: Seq<i32>,
        r: Result<(), Errno>,
        b: B,
    ) -> bool {
        match r {
            Ok(_) => more.len() == self.drain_count && obtained(a, self.call(), more, b),
            Err(e) => more.len() < self.drain_count && exists|m: B|
                obtained(a, self.call(), more, m) && #[trigger] m.answers(
                    self.call(),
                    Reply::Failed(e),
                    b,
                ),
        }
    }

    /// Allocates as many buffers as it takes to empty the pool, and keeps them. Where an
    /// allocation fails, those before it are kept.
    pub fn drain<B: HeapBackend>(&mut self, backend: &mut B) -> (r: Result<(), Errno>)
        requires
            old(self).ready(*old(backend)),
        ensures
            final(self).ready(*final(backend)),
            final(self).heap == old(self).heap,
            final(self).size == old(self).size,
            final(self).drain_count == old(self).drain_count,
            exists|more: Seq<i32>|
                {
                    &&& final(self).held@ == old(self).held@ + more
                    &&& final(backend).opened() == opened_with(old(backend).opened(), more)
                    &&& forall|i: int|
                        0 <= i < more.len() ==> !old(backend).opened().contains_key(
                            #[trigger] more[i],
                        )
                    &&& #[trigger] old(self).drained(*old(backend), more, r, *final(backend))
                },
    {
        let ghost a = *backend;
        let ghost before = *self;
        let ghost call = self.call();
        let ghost mut more: Seq<i32> = Seq::empty();
        let mut i: u32 = 0;
        assert(opened_with(a.opened(), more) =~= a.opened());
        assert(self.held@ =~= before.held@ + more);
        while i < self.drain_count
            invariant
                i <= self.drain_count,
                before == *old(self),
                a == *old(backend),
                self.heap == before.heap,
                self.size == before.size,
                self.drain_count == before.drain_count,
                call == before.call(),
                more.len() == i,
                self.held@ == before.held@ + more,
                backend.valid(),
                backend.opened() == opened_with(a.opened(), more),
                buffers_open(backend.opened(), self.held@),
                forall|k: int|
                    0 <= k < more.len() ==> !a.opened().contains_key(#[trigger] more[k]),
                obtained(a, call, more, *backend),
            decreases self.drain_count - i,
        {
            let ghost m = *backend;
            let r = backend.allocate(
                self.heap,
                self.size,
                DMA_HEAP_ALLOC_FD_FLAGS,
                DMA_HEAP_VALID_HEAP_FLAGS,
            );
            match r {
                Ok(fd) => {
                    proof {
                        B::after_call(m, call, Reply::Fd(fd), *backend);
                        assert(!a.opened().contains_key(fd)) by {
                            assert(!opened_with(a.opened(), more).contains_key(fd));
                        }
                        lemma_one_more(a.opened(), self.held@, more, fd);
                        let now = more.push(fd);
                        assert(now.drop_last() =~= more);
                        assert(m.answers(call, Reply::Fd(now.last()), *backend));
                        assert(obtained(a, call, now, *backend));
                        assert((before.held@ + more).push(fd) =~= before.held@ + now);
                        more = now;
                    }
                    self.held.push(fd);
                },
                Err(e) => {
                    proof {
                        B::after_call(m, call, Reply::Failed(e), *backend);
                        assert(before.drained(a, more, Err::<(), Errno>(e), *backend));
                    }
                    return Err(e);
                },
            }
            i = i + 1;
        }
        assert(before.drained(a, more, Ok::<(), Errno>(()), *backend));
        Ok(())
    }

    /// Closes all buffers that are kept.
    pub fn release<B: DmaBufBackend>(&mut self, backend: &mut B)
        requires
            old(self).ready(*old(backend)),
        ensures
            final(self).ready(*final(backend)),
            final(self).heap == old(self).heap,
            final(self).size == old(self).size,
            final(self).drain_count == old(self).drain_count,
            final(self).held@ == Seq::<i32>::empty(),
            final(backend).opened() == opened_without(old(backend).opened(), old(self).held@),
            closed_in_turn(*old(backend), old(self).held@, *final(backend)),
    {
        let ghost a = *backend;
        let ghost fds = self.held@;
        let mut i: usize = 0;
        assert(opened_without(a.opened(), fds.take(0)) =~= a.opened());
        assert(fds.take(0) =~= Seq::<i32>::empty());
        while i < self.held.len()
            invariant
                i <= fds.len(),
                *self == *old(self),
                fds == self.held@,
                a == *old(backend),
                buffers_open(a.opened(), fds),
                backend.valid(),
                backend.opened() == opened_without(a.opened(), fds.take(i as int)),
                closed_in_turn(a, fds.take(i as int), *backend),
            decreases fds.len() - i,
        {
            let ghost m = *backend;
            let fd: i32 = self.held[i];
            let _ = backend.close(fd);
            proof {
                lemma_one_less(a.opened(), fds, i as int);
                let done = choose|x: Reply| m.answers(Call::Close { fd }, x, *backend);
                B::after_call(m, Call::Close { fd }, done, *backend);
                assert(closes_open(m.opened(), Call::Close { fd }));
                assert(shut_down(m, fd, *backend));
            }
            i = i + 1;
        }
        assert(fds.take(fds.len() as int) =~= fds);
        self.held = Vec::new();
    }
}

/// A mapped buffer.
#[derive(Clone, Copy, PartialEq, Eq, Structural, Debug)]
pub struct Pooled {
    pub fd: i32,
    pub mapping: Mapping,
}

/// The descriptors of buffers.
pub open spec fn fds_of(v: Seq<Pooled>) -> Seq<i32> {
    Seq::new(v.len(), |i: int| v[i].fd)
}

/// The allocation of a buffer of a pool.
pub open spec fn pool_call(heap: i32, size: u64) -> Call {
    Call::Allocate {
        heap,
        len: size,
        fd_flags: DMA_HEAP_VALID_FD_FLAGS,
        heap_flags: DMA_HEAP_VALID_HEAP_FLAGS,
    }
}

/// Whether buffers are allocated and mapped, one after the other.
pub open spec fn set_up<B: Answers>(a: B, heap: i32, size: u64, v: Seq<Pooled>, b: B) -> bool
    decreases v.len(),
{
    if v.len() == 0 {
        b == a
    } else {
        exists|m: B, k: B|
            set_up(a, heap, size, v.drop_last(), m) && #[trigger] m.answers(
                pool_call(heap, size),
                Reply::Fd(v.last().fd),
                k,
            ) && #[trigger] k.answers(
                Call::Mmap { fd: v.last().fd, len: size as usize },
                Reply::Mapped(v.last().mapping),
                b,
            )
    }
}

/// Whether buffers are unmapped and closed, one after the other.
pub open spec fn put_away<B: Answers>(a: B, v: Seq<Pooled>, b: B) -> bool
    decreases v.len(),
{
    if v.len() == 0 {
        b == a
    } else {
        exists|m: B, reply: Reply, k: B|
            put_away(a, v.drop_last(), m) && #[trigger] m.answers(
                Call::Munmap { mapping: v.last().mapping },
                reply,
                k,
            ) && #[trigger] shut_down(k, v.last().fd, b)
    }
}

/// Whether a pool cannot be made: an allocation or a mapping fails, and the buffers before
/// it are put away.
pub open spec fn fell_short<B: Answers>(
    a: B,
    heap: i32,
    size: u64,
    v: Seq<Pooled>,
    e: Errno,
    b: B,
) -> bool {
    exists|m: B, k: B|
        set_up(a, heap, size, v, m) && #[trigger] refused(m, heap, size, e, k) && #[trigger] put_away(
            k,
            v,
            b,
        )
}

/// Whether a buffer is refused, or one that is given cannot be mapped and is closed.
pub open spec fn refused<B: Answers>(m: B, heap: i32, size: u64, e: Errno, k: B) -> bool {
    ||| m.answers(pool_call(heap, size), Reply::Failed(e), k)
    ||| exists|fd: i32, x: B, y: B| #[trigger]
        m.answers(pool_call(heap, size), Reply::Fd(fd), x) && #[trigger] x.answers(
            Call::Mmap { fd, len: size as usize },
            Reply::Failed(e),
            y,
        ) && #[trigger] shut_down(y, fd, k)
}

/// Unmaps and closes buffers.
fn put_all_away<B: DmaBufBackend>(backend: &mut B, v: &Vec<Pooled>)
    requires
        old(backend).valid(),
        buffers_open(old(backend).opened(), fds_of(v@)),
    ensures
        final(backend).valid(),
        final(backend).opened() == opened_without(old(backend).opened(), fds_of(v@)),
        put_away(*old(backend), v@, *final(backend)),
{
    let ghost a = *backend;
    let ghost fds = fds_of(v@);
    let mut i: usize = 0;
    assert(opened_without(a.opened(), fds.take(0)) =~= a.opened());
    assert(v@.take(0) =~= Seq::<Pooled>::empty());
    while i < v.len()
        invariant
            i <= v@.len(),
            fds == fds_of(v@),
            a == *old(backend),
            buffers_open(a.opened(), fds),
            backend.valid(),
            backend.opened() == opened_without(a.opened(), fds.take(i as int)),
            put_away(a, v@.take(i as int), *backend),
        decreases v@.len() - i,
    {
        let ghost m = *backend;
        let p: Pooled = v[i];
        let _ = backend.munmap(p.mapping);
        let ghost k = *backend;
        proof {
            let reply = choose|x: Reply| m.answers(Call::Munmap { mapping: p.mapping }, x, k);
            B::after_call(m, Call::Munmap { mapping: p.mapping }, reply, k);
        }
        let _ = backend.close(p.fd);
        proof {
            lemma_one_less(a.opened(), fds, i as int);
            let fd = p.fd;
            assert(fd == fds[i as int]);
            let done = choose|x: Reply| k.answers(Call::Close { fd }, x, *backend);
            B::after_call(k, Call::Close { fd }, done, *backend);
            assert(closes_open(k.opened(), Call::Close { fd }));
            assert(v@.take(i + 1).drop_last() =~= v@.take(i as int));
            let now = v@.take(i + 1);
            assert(now.last() == p);
            let reply = choose|x: Reply| m.answers(Call::Munmap { mapping: p.mapping }, x, k);
            assert(m.answers(Call::Munmap { mapping: now.last().mapping }, reply, k));
            assert(shut_down(k, now.last().fd, *backend));
            assert(put_away(a, now, *backend));
        }
        i = i + 1;
    }
    assert(v@.take(v@.len() as int) =~= v@);
    assert(fds.take(fds.len() as int) =~= fds);
}

/// A pool of buffers of one size, all of them mapped, that is gone through in turn.
pub struct BufferPool {
    pub buffers: Vec<Pooled>,
    pub index: usize,
}

impl BufferPool {
    /// Whether the buffers are open, and one of them is next.
    pub open spec fn ready<B: Answers>(self, b: B) -> bool {
        &&& b.valid()
        &&& buffers_open(b.opened(), fds_of(self.buffers@))
        &&& self.wf()
    }

    /// Whether one of the buffers is next, where there are any.
    pub open spec fn wf(self) -> bool {
        self.index == 0 || self.index < self.buffers@.len()
    }

    /// Allocates and maps so many buffers of a size. Where one cannot be had, none stays
    /// open.
    pub fn new<B: HeapBackend + DmaBufBackend>(
        backend: &mut B,
        heap: i32,
        size: u64,
        count: usize,
    ) -> (r: Result<BufferPool, Errno>)
        requires
            old(backend).valid(),
        ensures
            final(backend).valid(),
            match r {
                Ok(pool) => {
                    &&& pool.index == 0
                    &&& pool.buffers@.len() == count
                    &&& pool.ready(*final(backend))
                    &&& final(backend).opened() == opened_with(
                        old(backend).opened(),
                        fds_of(pool.buffers@),
                    )
                    &&& forall|i: int|
                        0 <= i < count ==> !old(backend).opened().contains_key(
                            (#[trigger] pool.buffers@[i]).fd,
                        )
                    &&& set_up(*old(backend), heap, size, pool.buffers@, *final(backend))
                },
                Err(e) => {
                    &&& final(backend).opened() == old(backend).opened()
                    &&& exists|v: Seq<Pooled>|
                        v.len() < count && #[trigger] fell_short(
                            *old(backend),
                            heap,
                            size,
                            v,
                            e,
                            *final(backend),
                        )
                },
            },
    {
        let ghost a = *backend;
        let mut v: Vec<Pooled> = Vec::new();
        let mut i: usize = 0;
        assert(opened_with(a.opened(), fds_of(v@)) =~= a.opened());
        while i < count
            invariant
                i <= count,
                v@.len() == i,
                a == *old(backend),
                backend.valid(),
                backend.opened() == opened_with(a.opened(), fds_of(v@)),
                buffers_open(backend.opened(), fds_of(v@)),
                forall|k: int|
                    0 <= k < v@.len() ==> !a.opened().contains_key((#[trigger] v@[k]).fd),
                set_up(a, heap, size, v@, *backend),
            decreases count - i,
        {
            let ghost m = *backend;
            let ghost call = pool_call(heap, size);
            let ghost fds = fds_of(v@);
            match backend.allocate(heap, size, DMA_HEAP_VALID_FD_FLAGS, DMA_HEAP_VALID_HEAP_FLAGS) {
                Ok(fd) => {
                    let ghost k = *backend;
                    proof {
                        B::after_call(m, call, Reply::Fd(fd), k);
                        assert(!opened_with(a.opened(), fds).contains_key(fd));
                        lemma_one_more(a.opened(), fds, fds, fd);
                    }
                    let ghost ask = Call::Mmap { fd, len: size as usize };
                    match backend.mmap(fd, size as usize) {
                        Ok(mapping) => {
                            proof {
                                B::after_call(k, ask, Reply::Mapped(mapping), *backend);
                                let now = v@.push(Pooled { fd, mapping });
                                assert(fds_of(now) =~= fds.push(fd));
                                assert(now.drop_last() =~= v@);
                                assert(m.answers(call, Reply::Fd(now.last().fd), k));
                                assert(k.answers(
                                    Call::Mmap { fd: now.last().fd, len: size as usize },
                                    Reply::Mapped(now.last().mapping),
                                    *backend,
                                ));
                                assert(set_up(a, heap, size, now, *backend));
                            }
                            v.push(Pooled { fd, mapping });
                        },
                        Err(e) => {
                            let ghost y = *backend;
                            proof {
                                B::after_call(k, ask, Reply::Failed(e), y);
                            }
                            let _ = backend.close(fd);
                            let ghost z = *backend;
                            proof {
                                let done = choose|x: Reply| y.answers(Call::Close { fd }, x, z);
                                B::after_call(y, Call::Close { fd }, done, z);
                                assert(closes_open(y.opened(), Call::Close { fd }));
                                assert(shut_down(y, fd, z));
                                assert(z.opened() =~= m.opened());
                                assert(refused(m, heap, size, e, z));
                            }
                            put_all_away(backend, &v);
                            proof {
                                law_opened_and_closed(a.opened(), fds);
                                assert(put_away(z, v@, *backend));
                                assert(fell_short(a, heap, size, v@, e, *backend));
                            }
                            return Err(e);
                        },
                    }
                },
                Err(e) => {
                    let ghost z = *backend;
                    proof {
                        B::after_call(m, call, Reply::Failed(e), z);
                        assert(refused(m, heap, size, e, z));
                    }
                    put_all_away(backend, &v);
                    proof {
                        law_opened_and_closed(a.opened(), fds);
                        assert(put_away(z, v@, *backend));
                        assert(fell_short(a, heap, size, v@, e, *backend));
                    }
                    return Err(e);
                },
            }
            i = i + 1;
        }
        Ok(BufferPool { buffers: v, index: 0 })
    }

    /// The next buffer; after the last comes the first again.
    pub fn next(&mut self) -> (p: Pooled)
        requires
            old(self).buffers@.len() > 0,
            old(self).wf(),
        ensures
            p == old(self).buffers@[old(self).index as int],
            final(self).buffers@ == old(self).buffers@,
            final(self).index == (old(self).index + 1) % old(self).buffers@.len() as int,
            final(self).wf(),
    {
        let n: usize = self.buffers.len();
        let i: usize = self.index;
        self.index = if i + 1 == n {
            0
        } else {
            i + 1
        };
        proof {
            vstd::arithmetic::div_mod::lemma_mod_self_0(n as int);
            if i + 1 < n {
                vstd::arithmetic::div_mod::lemma_small_mod((i + 1) as nat, n as nat);
            }
        }
        self.buffers[i]
    }

    /// How many buffers there are.
    pub fn len(&self) -> (n: usize)
        ensures
            n == self.buffers@.len(),
    {
        self.buffers.len()
    }

    /// Whether there are none.
    pub fn is_empty(&self) -> (r: bool)
        ensures
            r == (self.buffers@.len() == 0),
    {
        self.buffers.len() == 0
    }

    /// Unmaps and closes the buffers.
    pub fn release<B: DmaBufBackend>(self, backend: &mut B)
        requires
            self.ready(*old(backend)),
        ensures
            final(backend).valid(),
            final(backend).opened() == opened_without(old(backend).opened(), fds_of(self.buffers@)),
            put_away(*old(backend), self.buffers@, *final(backend)),
    {
        put_all_away(backend, &self.buffers);
    }
}

/// The place of the next buffer after so many more.
pub open spec fn turned(index: nat, turns: nat, len: nat) -> nat
    decreases turns,
{
    if turns == 0 {
        index
    } else {
        (turned(index, (turns - 1) as nat, len) + 1) % len
    }
}

/// A pool is gone through in turn: after as many buffers as it has, the same one comes
/// again, and not before.
pub proof fn law_each_buffer_in_turn(index: nat, turns: nat, len: nat)
    requires
        index < len,
        turns <= len,
    ensures
        turned(index, turns, len) == (index + turns) % len,
        turned(index, len, len) == index,
        0 < turns < len ==> turned(index, turns, len) != index,
{
    lemma_turned(index, turns, len);
    lemma_turned(index, len, len);
    vstd::arithmetic::div_mod::lemma_mod_add_multiples_vanish(index as int, len as int);
    vstd::arithmetic::div_mod::lemma_small_mod(index, len);
    if 0 < turns < len {
        if index + turns < len {
            vstd::arithmetic::div_mod::lemma_small_mod(index + turns, len);
        } else {
            let d = (index + turns - len) as nat;
            vstd::arithmetic::div_mod::lemma_mod_add_multiples_vanish(d as int, len as int);
            vstd::arithmetic::div_mod::lemma_small_mod(d, len);
        }
    }
}

proof fn lemma_turned(index: nat, turns: nat, len: nat)
    requires
        index < len,
    ensures
        turned(index, turns, len) == (index + turns) % len,
    decreases turns,
{
    if turns == 0 {
        vstd::arithmetic::div_mod::lemma_small_mod(index, len);
    } else {
        lemma_turned(index, (turns - 1) as nat, len);
        vstd::arithmetic::div_mod::lemma_add_mod_noop(
            (index + turns - 1) as int,
            1,
            len as int,
        );
        vstd::arithmetic::div_mod::lemma_add_mod_noop(
            ((index + turns - 1) as nat % len) as int,
            1,
            len as int,
        );
        vstd::arithmetic::div_mod::lemma_mod_twice((index + turns - 1) as int, len as int);
    }
}

} // verus!
