//! Pools of buffers that are used in turn.
use crate::backend::ioctl::{
    Errno, DMA_BUF_SYNC_READ, DMA_BUF_SYNC_WRITE, DMA_HEAP_VALID_FD_FLAGS,
    DMA_HEAP_VALID_HEAP_FLAGS,
};
use crate::backend::protocol::{Answers, ContainerBackend, DmaBufBackend, HeapBackend};
use crate::order::strs;
use crate::workload::run::Run;
use crate::workload::script::{
    begin, dropped, fill, finish, map_buffer, open_heap, push_dropped,
};
use crate::workload::stage::{staged_ran, Out, Staged};
use crate::workload::step::{must, Op, Step};
use vstd::prelude::*;

verus! {

/// Allocates a buffer of a pool.
#[verifier::allow_in_spec]
pub fn pool_buffer(to: usize, size: u64) -> (r: Step)
    returns
        must(
            Op::Allocate {
                to,
                heap: 0,
                len: size,
                fd_flags: DMA_HEAP_VALID_FD_FLAGS,
                heap_flags: DMA_HEAP_VALID_HEAP_FLAGS,
                shown: size as usize,
            },
        ),
{
    must(
        Op::Allocate {
            to,
            heap: 0,
            len: size,
            fd_flags: DMA_HEAP_VALID_FD_FLAGS,
            heap_flags: DMA_HEAP_VALID_HEAP_FLAGS,
            shown: size as usize,
        },
    )
}

/// Buffers of one size in consecutive places, all of them mapped.
pub open spec fn pooled(first: int, count: nat, size: u64) -> Seq<Step>
    decreases count,
{
    if count == 0 {
        Seq::empty()
    } else {
        pooled(first, (count - 1) as nat, size) + seq![
            pool_buffer((first + count - 1) as usize, size),
            map_buffer((first + count - 1) as usize),
        ]
    }
}

/// Appends the allocation of a pool.
pub fn push_pooled(v: &mut Vec<Step>, first: usize, count: usize, size: u64)
    requires
        first + count <= usize::MAX,
    ensures
        final(v)@ == old(v)@ + pooled(first as int, count as nat, size),
{
    let ghost start = v@;
    let mut i: usize = 0;
    assert(start + Seq::<Step>::empty() =~= start);
    while i < count
        invariant
            i <= count,
            first + count <= usize::MAX,
            v@ == start + pooled(first as int, i as nat, size),
        decreases count - i,
    {
        let ghost before = pooled(first as int, i as nat, size);
        v.push(pool_buffer(first + i, size));
        v.push(map_buffer(first + i));
        assert(v@ =~= start + (before + seq![
            pool_buffer((first + i) as usize, size),
            map_buffer((first + i) as usize),
        ]));
        i = i + 1;
    }
}

/// The allocations of a group, each timed on a channel.
pub open spec fn group_buffers(first: int, count: nat, size: u64, channel: usize) -> Seq<Step>
    decreases count,
{
    if count == 0 {
        Seq::empty()
    } else {
        group_buffers(first, (count - 1) as nat, size, channel) + seq![
            pool_buffer((first + count - 1) as usize, size),
            must(Op::Split { channel }),
        ]
    }
}

/// Buffers of one size in consecutive places: each allocation is timed on a channel, and
/// all of them together on another.
pub open spec fn grouped(
    first: int,
    count: nat,
    size: u64,
    channel: usize,
    all: usize,
) -> Seq<Step> {
    seq![must(Op::Start)] + group_buffers(first, count, size, channel) + seq![
        must(Op::Total { channel: all }),
    ]
}

/// Appends the allocation of a group.
pub fn push_grouped(
    v: &mut Vec<Step>,
    first: usize,
    count: usize,
    size: u64,
    channel: usize,
    all: usize,
)
    requires
        first + count <= usize::MAX,
    ensures
        final(v)@ == old(v)@ + grouped(first as int, count as nat, size, channel, all),
{
    let ghost before = v@;
    v.push(must(Op::Start));
    let ghost start = v@;
    let mut i: usize = 0;
    assert(start + Seq::<Step>::empty() =~= start);
    while i < count
        invariant
            i <= count,
            first + count <= usize::MAX,
            v@ == start + group_buffers(first as int, i as nat, size, channel),
        decreases count - i,
    {
        let ghost earlier = group_buffers(first as int, i as nat, size, channel);
        v.push(pool_buffer(first + i, size));
        v.push(must(Op::Split { channel }));
        assert(v@ =~= start + (earlier + seq![
            pool_buffer((first + i) as usize, size),
            must(Op::Split { channel }),
        ]));
        i = i + 1;
    }
    v.push(must(Op::Total { channel: all }));
    assert(v@ =~= before + grouped(first as int, count as nat, size, channel, all));
}

/// A frame is written to a buffer.
pub open spec fn written(buf: usize, size: u64, byte: u8) -> Seq<Step> {
    seq![
        map_buffer(buf),
        begin(buf, DMA_BUF_SYNC_WRITE),
        fill(buf, size, byte),
        finish(buf, DMA_BUF_SYNC_WRITE),
    ]
}

/// Appends the writing of a frame.
pub fn push_written(v: &mut Vec<Step>, buf: usize, size: u64, byte: u8)
    ensures
        final(v)@ == old(v)@ + written(buf, size, byte),
{
    let ghost start = v@;
    v.push(map_buffer(buf));
    v.push(begin(buf, DMA_BUF_SYNC_WRITE));
    v.push(fill(buf, size, byte));
    v.push(finish(buf, DMA_BUF_SYNC_WRITE));
    assert(v@ =~= start + written(buf, size, byte));
}

/// A buffer is looked at.
pub open spec fn looked_at(buf: usize) -> Seq<Step> {
    seq![begin(buf, DMA_BUF_SYNC_READ), finish(buf, DMA_BUF_SYNC_READ)]
}

/// Appends a look at a buffer.
pub fn push_looked_at(v: &mut Vec<Step>, buf: usize)
    ensures
        final(v)@ == old(v)@ + looked_at(buf),
{
    let ghost start = v@;
    v.push(begin(buf, DMA_BUF_SYNC_READ));
    v.push(finish(buf, DMA_BUF_SYNC_READ));
    assert(v@ =~= start + looked_at(buf));
}

/// The place of the buffer that a frame goes to: each in turn.
pub open spec fn turn(first: int, count: nat, frame: nat) -> usize {
    (first + frame % count) as usize
}

/// The byte of a frame.
pub open spec fn frame_byte(frame: nat) -> u8 {
    (frame % 256) as u8
}

/// After as many frames as there are buffers, each buffer has had its turn once, and
/// the first one is next.
pub proof fn law_round_robin(first: int, count: nat, frame: nat, other: nat)
    requires
        0 <= first,
        count > 0,
        first + count <= usize::MAX,
    ensures
        turn(first, count, frame + count) == turn(first, count, frame),
        first <= turn(first, count, frame) < first + count,
        frame < other < frame + count ==> turn(first, count, frame) != turn(first, count, other),
{
    let k = count as int;
    let f = frame as int;
    let o = other as int;
    vstd::arithmetic::div_mod::lemma_mod_add_multiples_vanish(f, k);
    assert(f + k == k + f);
    assert(0 <= f % k < k) by (nonlinear_arith)
        requires
            k > 0,
    ;
    if f < o < f + k {
        if f % k == o % k {
            vstd::arithmetic::div_mod::lemma_fundamental_div_mod(f, k);
            vstd::arithmetic::div_mod::lemma_fundamental_div_mod(o, k);
            let p = f / k;
            let q = o / k;
            assert(o - f == k * q - k * p);
            assert(k * q - k * p == k * (q - p)) by (nonlinear_arith);
            assert(false) by (nonlinear_arith)
                requires
                    0 < k * (q - p) < k,
            ;
        }
    }
}

/// The stages of a stream: a pool, and then frames that are timed, whether they can be
/// written or not.
pub open spec fn stream_stages(n: nat, size: u64, pool: nat) -> Seq<Seq<Step>> {
    Seq::new(
        n,
        |i: int|
            if i == 0 {
                seq![open_heap()] + pooled(1, pool, size)
            } else if i % 2 == 1 {
                seq![must(Op::Start)] + written(
                    turn(1, pool, (i / 2) as nat),
                    size,
                    frame_byte((i / 2) as nat),
                )
            } else {
                seq![must(Op::Split { channel: 0 })]
            },
    )
}

/// Whether a stream leads from one backend to another. It fails only where its pool
/// cannot be allocated.
pub open spec fn stream_ran<B: Answers>(
    a: B,
    heap: Seq<char>,
    size: u64,
    pool: nat,
    frames: nat,
    r: Run,
    b: B,
) -> bool {
    exists|outs: Seq<Out>| #[trigger]
        staged_ran(a, stream_stages(outs.len(), size, pool), seq![heap], pool + 1, outs, b) && {
            &&& outs.len() == if outs[0].result is Err {
                1
            } else {
                2 * frames + 1
            }
            &&& r.result == outs[0].result
            &&& r.marks@ == outs.last().end.marks
        }
}

/// Runs a stream: frames are written to the buffers of a pool in turn.
pub fn run_stream<B: HeapBackend + DmaBufBackend + ContainerBackend>(
    backend: &mut B,
    heap: &str,
    size: u64,
    pool: usize,
    frames: u32,
) -> (r: Run)
    requires
        old(backend).valid(),
        0 < pool < usize::MAX,
    ensures
        final(backend).valid(),
        stream_ran(*old(backend), heap@, size, pool as nat, frames as nat, r, *final(backend)),
        final(backend).opened() == old(backend).opened(),
{
    let ghost a = *backend;
    let names: [&str; 1] = [heap];
    assert(strs(names@) =~= seq![heap@]);
    let mut s = Staged::new(pool + 1, backend, &names);
    let mut setup: Vec<Step> = vec![open_heap()];
    push_pooled(&mut setup, 1, pool, size);
    assert(setup@ =~= seq![open_heap()] + pooled(1, pool as nat, size));
    let result = s.stage(backend, setup.as_slice(), &names, Ghost(a));
    assert(s.stages@ =~= stream_stages(1, size, pool as nat));
    let split: Vec<Step> = vec![must(Op::Split { channel: 0 })];
    assert(split@ =~= seq![must(Op::Split { channel: 0 })]);
    if result.is_ok() {
        let mut f: u32 = 0;
        while f < frames
            invariant
                f <= frames,
                0 < pool < usize::MAX,
                strs(names@) == seq![heap@],
                split@ == seq![must(Op::Split { channel: 0 })],
                s.slots == pool + 1,
                s.led(a, strs(names@), *backend),
                s.outs@.len() == 2 * f + 1,
                s.stages@ == stream_stages((2 * f + 1) as nat, size, pool as nat),
                s.outs@[0].result == result,
            decreases frames - f,
        {
            let place: usize = 1 + (f as usize) % pool;
            let byte: u8 = (f % 256) as u8;
            let mut steps: Vec<Step> = vec![must(Op::Start)];
            push_written(&mut steps, place, size, byte);
            assert(place == turn(1, pool as nat, f as nat));
            assert(byte == frame_byte(f as nat));
            assert(steps@ =~= seq![must(Op::Start)] + written(
                turn(1, pool as nat, f as nat),
                size,
                frame_byte(f as nat),
            ));
            let ghost outs = s.outs@;
            let _ = s.stage(backend, steps.as_slice(), &names, Ghost(a));
            assert(s.outs@[0] == outs[0]);
            assert((2 * f + 1) / 2 == f);
            assert(s.stages@ =~= stream_stages((2 * f + 2) as nat, size, pool as nat));
            let ghost more = s.outs@;
            let _ = s.stage(backend, split.as_slice(), &names, Ghost(a));
            assert(s.outs@[0] == more[0]);
            assert(s.stages@ =~= stream_stages((2 * f + 3) as nat, size, pool as nat));
            f = f + 1;
        }
    }
    let ghost outs = s.outs@;
    let marks = s.session.marks.clone();
    let ghost end = s.session@;
    s.end(backend, &names, Ghost(a));
    let r = Run { result, marks };
    proof {
        assert(r.marks@ =~= end.marks);
        assert(staged_ran(
            a,
            stream_stages(outs.len(), size, pool as nat),
            seq![heap@],
            pool as nat + 1,
            outs,
            *backend,
        ));
    }
    r
}

/// The stages of a worker that allocates a buffer for each frame, looks at it, and
/// releases it.
pub open spec fn free_stages(n: nat, size: u64) -> Seq<Seq<Step>> {
    Seq::new(
        n,
        |i: int|
            if i == 0 {
                seq![open_heap()]
            } else if i % 3 == 1 {
                seq![must(Op::Start), pool_buffer(1, size)]
            } else if i % 3 == 2 {
                looked_at(1)
            } else {
                dropped(1) + seq![must(Op::Split { channel: 0 })]
            },
    )
}

/// How such a worker ends: where an allocation fails, well if memory is used up; else
/// after all frames. A failed look does not matter.
pub open spec fn free_ended(outs: Seq<Out>, frames: nat, result: Result<(), Errno>) -> bool {
    &&& outs.len() > 0
    &&& outs[0].result is Err ==> outs.len() == 1 && result == outs[0].result
    &&& outs[0].result is Ok ==> {
        &&& forall|i: int|
            0 <= i < outs.len() - 1 && i % 3 == 1 ==> (#[trigger] outs[i]).result is Ok
        &&& if outs.len() % 3 == 2 {
            &&& outs.len() < 3 * frames + 1
            &&& outs.last().result is Err
            &&& result == if outs.last().result == Err::<(), Errno>(Errno::ENOMEM) {
                Ok(())
            } else {
                outs.last().result
            }
        } else {
            outs.len() == 3 * frames + 1 && result is Ok
        }
    }
}

/// Whether such a worker leads from one backend to another.
pub open spec fn free_ran<B: Answers>(
    a: B,
    heap: Seq<char>,
    size: u64,
    frames: nat,
    r: Run,
    b: B,
) -> bool {
    exists|outs: Seq<Out>| #[trigger]
        staged_ran(a, free_stages(outs.len(), size), seq![heap], 2, outs, b) && {
            &&& free_ended(outs, frames, r.result)
            &&& r.marks@ == outs.last().end.marks
        }
}

/// Runs a worker that allocates a buffer for each frame.
pub fn run_alloc_free<B: HeapBackend + DmaBufBackend + ContainerBackend>(
    backend: &mut B,
    heap: &str,
    size: u64,
    frames: u32,
) -> (r: Run)
    requires
        old(backend).valid(),
    ensures
        final(backend).valid(),
        free_ran(*old(backend), heap@, size, frames as nat, r, *final(backend)),
        final(backend).opened() == old(backend).opened(),
{
    let ghost a = *backend;
    let names: [&str; 1] = [heap];
    assert(strs(names@) =~= seq![heap@]);
    let mut s = Staged::new(2, backend, &names);
    let open: Vec<Step> = vec![open_heap()];
    assert(open@ =~= seq![open_heap()]);
    let mut result = s.stage(backend, open.as_slice(), &names, Ghost(a));
    assert(s.stages@ =~= free_stages(1, size));
    let take: Vec<Step> = vec![must(Op::Start), pool_buffer(1, size)];
    assert(take@ =~= seq![must(Op::Start), pool_buffer(1, size)]);
    let mut look: Vec<Step> = Vec::new();
    push_looked_at(&mut look, 1);
    assert(look@ =~= looked_at(1));
    let mut release: Vec<Step> = Vec::new();
    push_dropped(&mut release, 1);
    release.push(must(Op::Split { channel: 0 }));
    assert(release@ =~= dropped(1) + seq![must(Op::Split { channel: 0 })]);
    let mut stopped: bool = false;
    let mut f: u32 = 0;
    while f < frames && result.is_ok() && !stopped
        invariant
            f <= frames,
            strs(names@) == seq![heap@],
            take@ == seq![must(Op::Start), pool_buffer(1, size)],
            look@ == looked_at(1),
            release@ == dropped(1) + seq![must(Op::Split { channel: 0 })],
            s.slots == 2,
            s.led(a, strs(names@), *backend),
            s.stages@ == free_stages(s.outs@.len(), size),
            s.outs@.len() > 0,
            result is Ok && !stopped ==> s.outs@.len() == 3 * f + 1 && s.outs@[0].result is Ok,
            forall|i: int|
                0 <= i < s.outs@.len() - 1 && i % 3 == 1 && s.outs@[0].result is Ok ==> (
                #[trigger] s.outs@[i]).result is Ok,
            stopped || result is Err ==> free_ended(s.outs@, frames as nat, result),
        decreases
                frames - f,
                if result is Ok && !stopped {
                    1int
                } else {
                    0
                },
    {
        let ghost outs = s.outs@;
        let got = s.stage(backend, take.as_slice(), &names, Ghost(a));
        proof {
            assert(s.stages@ =~= free_stages((3 * f + 2) as nat, size));
            assert(s.outs@[0] == outs[0]);
            assert forall|i: int| 0 <= i < s.outs@.len() - 1 && i % 3 == 1 implies (
            #[trigger] s.outs@[i]).result is Ok by {
                assert(s.outs@[i] == outs[i]);
                assert(i < outs.len() - 1 || i == 3 * f);
            }
        }
        match got {
            Ok(_) => {
                let ghost outs1 = s.outs@;
                let _ = s.stage(backend, look.as_slice(), &names, Ghost(a));
                assert(s.stages@ =~= free_stages((3 * f + 3) as nat, size));
                let ghost outs2 = s.outs@;
                let _ = s.stage(backend, release.as_slice(), &names, Ghost(a));
                assert(s.stages@ =~= free_stages((3 * f + 4) as nat, size));
                proof {
                    assert(s.outs@[0] == outs[0]);
                    assert forall|i: int| 0 <= i < s.outs@.len() - 1 && i % 3 == 1 implies (
                    #[trigger] s.outs@[i]).result is Ok by {
                        assert(s.outs@[i] == outs2[i]);
                        if i < outs1.len() - 1 {
                            assert(outs2[i] == outs1[i]);
                        } else {
                            assert(i == 3 * f + 1);
                            assert(outs2[i] == outs1.last());
                        }
                    }
                }
                f = f + 1;
            },
            Err(e) => {
                stopped = true;
                result = if e == Errno::ENOMEM {
                    Ok(())
                } else {
                    Err(e)
                };
                assert(free_ended(s.outs@, frames as nat, result));
            },
        }
    }
    let ghost outs = s.outs@;
    let marks = s.session.marks.clone();
    let ghost end = s.session@;
    s.end(backend, &names, Ghost(a));
    let r = Run { result, marks };
    proof {
        assert(r.marks@ =~= end.marks);
        assert(free_ended(outs, frames as nat, result));
        assert(staged_ran(a, free_stages(outs.len(), size), seq![heap@], 2, outs, *backend));
    }
    r
}

} // verus!
