//! What a test that passes has shown of its device.
use crate::backend::ioctl::{Errno, SEEK_CUR, SEEK_END};
use crate::backend::protocol::{Answers, Call, Pattern, Reply};
use crate::size::aligned;
use crate::workload::basic::{dup_survives_close, llseek_size, write_read_verify, zero_on_alloc};
use crate::workload::container::{mask_roundtrip, merge_contents, merge_size};
use crate::workload::edge::{dup_data, own_pattern};
use crate::workload::negative::{
    alloc_invalid_fd_flags, alloc_invalid_heap_flags, alloc_on_closed_heap, alloc_overflow_size,
    alloc_zero_size, close_same_fd, export_invalid_flags, import_bad_fd, llseek_invalid,
    mmap_beyond_size, open_nonexistent, sync_invalid_flags, sync_on_closed_fd,
};
use crate::workload::script::{allocate, done_on, open_heap, repeated};
use crate::workload::step::{
    after, blank, call_of, cleanup, outcome, performed, ran, stepped, Expect, Mark, Op, Slot,
    State, Step, Verdict, Want,
};
use crate::workload::times::{all_go_on, goes_on};
use vstd::prelude::*;

verus! {

/// A step of a workload that ends well, and what comes after it.
proof fn lemma_step<B: Answers>(
    a: B,
    steps: Seq<Step>,
    names: Seq<Seq<char>>,
    st: State,
    result: Result<(), Errno>,
    end: State,
    b: B,
) -> (r: (State, B))
    requires
        a.valid(),
        steps.len() > 0,
        goes_on(steps[0]),
        result is Ok,
        performed(a, steps, names, st, result, end, b),
    ensures
        r.1.valid(),
        stepped(a, steps[0], names, st, Verdict::Go, r.0, r.1),
        performed(r.1, steps.skip(1), names, r.0, result, end, b),
{
    let (verdict, mid, m) = choose|verdict: Verdict, mid: State, m: B| #[trigger]
        stepped(a, steps[0], names, st, verdict, mid, m) && match verdict {
            Verdict::Go => performed(m, steps.skip(1), names, mid, result, end, b),
            Verdict::End(r) => result == r && end == mid && b == m,
        };
    assert(verdict is Go);
    match call_of(steps[0], st, names) {
        Some(call) => {
            let reply = choose|reply: Reply| #[trigger]
                a.answers(call, reply, m) && (mid, verdict) == after(steps[0], st, reply);
            B::after_call(a, call, reply, m);
        },
        None => {},
    }
    (mid, m)
}

/// A workload that ends well has done each of its steps, and none of them ended it.
pub proof fn law_each_step_is_done<B: Answers>(
    a: B,
    steps: Seq<Step>,
    names: Seq<Seq<char>>,
    st: State,
    result: Result<(), Errno>,
    end: State,
    b: B,
    i: int,
) -> (r: (B, State, State, B))
    requires
        a.valid(),
        all_go_on(steps),
        result is Ok,
        performed(a, steps, names, st, result, end, b),
        0 <= i < steps.len(),
    ensures
        stepped(r.0, steps[i], names, r.1, Verdict::Go, r.2, r.3),
    decreases i,
{
    assert(goes_on(steps[0]));
    let (mid, m) = lemma_step(a, steps, names, st, result, end, b);
    if i == 0 {
        (a, st, mid, m)
    } else {
        let rest = steps.skip(1);
        assert forall|k: int| 0 <= k < rest.len() implies goes_on(#[trigger] rest[k]) by {
            assert(rest[k] == steps[k + 1]);
        }
        law_each_step_is_done(m, rest, names, mid, result, end, b, i - 1)
    }
}

/// The work of a workload that ended well, without its cleanup.
proof fn lemma_work<B: Answers>(
    a: B,
    steps: Seq<Step>,
    heap: Seq<char>,
    slots: nat,
    result: Result<(), Errno>,
    b: B,
) -> (r: (Result<(), Errno>, State, B))
    requires
        done_on(a, steps, heap, slots, result, b),
        result is Ok,
    ensures
        r.0 is Ok,
        performed(a, steps, seq![heap], blank(slots), r.0, r.1, r.2),
{
    let names = seq![heap];
    let marks = choose|marks: Seq<Mark>| #[trigger] ran(a, steps, names, slots, result, marks, b);
    let (r, mid, m, end) = choose|r: Result<(), Errno>, mid: State, m: B, end: State|
        #![trigger performed(a, steps, names, blank(slots), r, mid, m), performed(m, cleanup(slots), names, mid, Ok::<(), Errno>(()), end, b)]
        {
            &&& performed(a, steps, names, blank(slots), r, mid, m)
            &&& performed(m, cleanup(slots), names, mid, Ok::<(), Errno>(()), end, b)
            &&& result == outcome(r, mid.noted)
            &&& marks == mid.marks
        };
    (r, mid, m)
}

/// Where a workload stands once its heap is open.
proof fn lemma_heap_open<B: Answers>(
    a: B,
    steps: Seq<Step>,
    heap: Seq<char>,
    slots: nat,
    result: Result<(), Errno>,
    end: State,
    b: B,
) -> (r: (State, B))
    requires
        a.valid(),
        slots > 0,
        steps.len() > 0,
        steps[0] == open_heap(),
        result is Ok,
        performed(a, steps, seq![heap], blank(slots), result, end, b),
    ensures
        r.1.valid(),
        r.0.at(0) is Heap,
        r.0.slots.len() == slots,
        forall|k: int| 1 <= k < slots ==> #[trigger] r.0.slots[k] == Slot::Empty,
        performed(r.1, steps.skip(1), seq![heap], r.0, result, end, b),
{
    let names = seq![heap];
    let st = blank(slots);
    let (mid, m) = lemma_step(a, steps, names, st, result, end, b);
    assert(st.free(0));
    let call = Call::Open { name: heap };
    assert(call_of(steps[0], st, names) == Some(call));
    let reply = choose|reply: Reply| #[trigger]
        a.answers(call, reply, m) && (mid, Verdict::Go) == after(steps[0], st, reply);
    B::after_call(a, call, reply, m);
    (mid, m)
}

/// Where a workload stands once a buffer is allocated in the first place after the heap's.
proof fn lemma_buffer_there<B: Answers>(
    a: B,
    steps: Seq<Step>,
    heap: Seq<char>,
    st: State,
    result: Result<(), Errno>,
    end: State,
    b: B,
    size: u64,
) -> (r: (State, B))
    requires
        a.valid(),
        st.slots.len() >= 2,
        st.at(0) is Heap,
        forall|k: int| 1 <= k < st.slots.len() ==> #[trigger] st.slots[k] == Slot::Empty,
        steps.len() > 0,
        steps[0] == allocate(1, size),
        result is Ok,
        performed(a, steps, seq![heap], st, result, end, b),
    ensures
        r.1.valid(),
        r.0.at(0) is Heap,
        r.0.slots.len() == st.slots.len(),
        r.0.at(1) matches Slot::Buffer { len, mapping, .. } && len == size as usize && mapping
            is None,
        forall|k: int| 2 <= k < st.slots.len() ==> #[trigger] r.0.slots[k] == Slot::Empty,
        performed(r.1, steps.skip(1), seq![heap], r.0, result, end, b),
{
    let names = seq![heap];
    let (mid, m) = lemma_step(a, steps, names, st, result, end, b);
    let call = call_of(steps[0], st, names)->0;
    assert(call_of(steps[0], st, names) is Some);
    let reply = choose|reply: Reply| #[trigger]
        a.answers(call, reply, m) && (mid, Verdict::Go) == after(steps[0], st, reply);
    B::after_call(a, call, reply, m);
    (mid, m)
}

/// What answered a step that has to fail.
proof fn lemma_refused<B: Answers>(
    a: B,
    steps: Seq<Step>,
    names: Seq<Seq<char>>,
    st: State,
    result: Result<(), Errno>,
    end: State,
    b: B,
    e: Errno,
) -> (r: (Call, State, B))
    requires
        a.valid(),
        steps.len() > 0,
        steps[0].expect == Expect::Fails(e),
        e != Errno::EIO,
        call_of(steps[0], st, names) is Some,
        result is Ok,
        performed(a, steps, names, st, result, end, b),
    ensures
        call_of(steps[0], st, names) == Some(r.0),
        a.answers(r.0, Reply::Failed(e), r.2),
{
    let (mid, m) = lemma_step(a, steps, names, st, result, end, b);
    let call = call_of(steps[0], st, names)->0;
    let reply = choose|reply: Reply| #[trigger]
        a.answers(call, reply, m) && (mid, Verdict::Go) == after(steps[0], st, reply);
    B::after_call(a, call, reply, m);
    (call, mid, m)
}

/// The test of an allocation of nothing passes only on a device that refuses one with
/// `EINVAL`.
pub proof fn law_empty_allocation_is_refused<B: Answers>(
    a: B,
    heap: Seq<char>,
    result: Result<(), Errno>,
    b: B,
)
    requires
        a.valid(),
        done_on(a, alloc_zero_size(), heap, 2, result, b),
        result is Ok,
    ensures
        exists|x: B, call: Call, y: B| #[trigger]
            x.answers(call, Reply::Failed(Errno::EINVAL), y) && (call matches Call::Allocate {
                len,
                ..
            } && len == 0),
{
    let steps = alloc_zero_size();
    let (r, end, m) = lemma_work(a, steps, heap, 2, result, b);
    let (st, x) = lemma_heap_open(a, steps, heap, 2, r, end, m);
    let rest = steps.skip(1);
    assert(rest[0] == steps[1]);
    let (call, _, y) = lemma_refused(x, rest, seq![heap], st, r, end, m, Errno::EINVAL);
    assert(x.answers(call, Reply::Failed(Errno::EINVAL), y));
}

/// The tests of flags that no buffer can have pass only on a device that refuses such
/// allocations with `EINVAL`: with other descriptor flags, or with any heap flags.
pub proof fn law_bad_flags_are_refused<B: Answers>(
    a: B,
    heap: Seq<char>,
    result: Result<(), Errno>,
    b: B,
)
    requires
        a.valid(),
        result is Ok,
    ensures
        done_on(a, alloc_invalid_fd_flags(), heap, 2, result, b) ==> exists|x: B, call: Call, y: B|
            #[trigger]
            x.answers(call, Reply::Failed(Errno::EINVAL), y) && (call matches Call::Allocate {
                len,
                fd_flags,
                ..
            } && len > 0 && fd_flags == 0x400),
        done_on(a, alloc_invalid_heap_flags(), heap, 2, result, b) ==> exists|
            x: B,
            call: Call,
            y: B,
        | #[trigger]
            x.answers(call, Reply::Failed(Errno::EINVAL), y) && (call matches Call::Allocate {
                len,
                heap_flags,
                ..
            } && len > 0 && heap_flags != 0),
{
    if done_on(a, alloc_invalid_fd_flags(), heap, 2, result, b) {
        let steps = alloc_invalid_fd_flags();
        let (r, end, m) = lemma_work(a, steps, heap, 2, result, b);
        let (st, x) = lemma_heap_open(a, steps, heap, 2, r, end, m);
        assert(steps.skip(1)[0] == steps[1]);
        let (call, _, y) = lemma_refused(
            x,
            steps.skip(1),
            seq![heap],
            st,
            r,
            end,
            m,
            Errno::EINVAL,
        );
        assert(x.answers(call, Reply::Failed(Errno::EINVAL), y));
    }
    if done_on(a, alloc_invalid_heap_flags(), heap, 2, result, b) {
        let steps = alloc_invalid_heap_flags();
        let (r, end, m) = lemma_work(a, steps, heap, 2, result, b);
        let (st, x) = lemma_heap_open(a, steps, heap, 2, r, end, m);
        assert(steps.skip(1)[0] == steps[1]);
        let (call, _, y) = lemma_refused(
            x,
            steps.skip(1),
            seq![heap],
            st,
            r,
            end,
            m,
            Errno::EINVAL,
        );
        assert(x.answers(call, Reply::Failed(Errno::EINVAL), y));
    }
}

/// The test of fences without a direction passes only on a device that refuses to export one
/// with `EINVAL`.
pub proof fn law_fence_without_direction_is_refused<B: Answers>(
    a: B,
    heap: Seq<char>,
    result: Result<(), Errno>,
    b: B,
)
    requires
        a.valid(),
        done_on(a, export_invalid_flags(), heap, 3, result, b),
        result is Ok,
    ensures
        exists|x: B, call: Call, y: B| #[trigger]
            x.answers(call, Reply::Failed(Errno::EINVAL), y) && (call matches Call::Export {
                flags,
                ..
            } && flags & 3 == 0),
{
    let steps = export_invalid_flags();
    let (r, end, m) = lemma_work(a, steps, heap, 3, result, b);
    let (st, x) = lemma_heap_open(a, steps, heap, 3, r, end, m);
    let rest = steps.skip(1);
    assert(rest[0] == steps[1]);
    let (st1, x1) = lemma_buffer_there(x, rest, heap, st, r, end, m, 4096);
    let last = rest.skip(1);
    assert(last[0] == steps[2]);
    let (call, _, y) = lemma_refused(x1, last, seq![heap], st1, r, end, m, Errno::EINVAL);
    assert(0u32 & 3 == 0) by (bit_vector);
    assert(x1.answers(call, Reply::Failed(Errno::EINVAL), y));
}

/// The test of accesses without a direction passes only on a device that refuses the start of
/// one with `EINVAL`.
pub proof fn law_access_without_direction_is_refused<B: Answers>(
    a: B,
    heap: Seq<char>,
    result: Result<(), Errno>,
    b: B,
)
    requires
        a.valid(),
        done_on(a, sync_invalid_flags(), heap, 2, result, b),
        result is Ok,
    ensures
        exists|x: B, call: Call, y: B| #[trigger]
            x.answers(call, Reply::Failed(Errno::EINVAL), y) && (call matches Call::Sync {
                flags,
                ..
            } && flags & 3 == 0),
{
    let steps = sync_invalid_flags();
    let (r, end, m) = lemma_work(a, steps, heap, 2, result, b);
    let (st, x) = lemma_heap_open(a, steps, heap, 2, r, end, m);
    let rest = steps.skip(1);
    assert(rest[0] == steps[1]);
    let (st1, x1) = lemma_buffer_there(x, rest, heap, st, r, end, m, 4096);
    let last = rest.skip(1);
    assert(last[0] == steps[2]);
    let (call, _, y) = lemma_refused(x1, last, seq![heap], st1, r, end, m, Errno::EINVAL);
    assert((0u64 | 0) & 3 == 0) by (bit_vector);
    assert(x1.answers(call, Reply::Failed(Errno::EINVAL), y));
}

/// Whether bytes that one step writes are checked by a later one, and nothing writes to the
/// buffer, closes it or unmaps it in between.
pub open spec fn written_and_checked(s: Seq<Step>, i: int, j: int) -> bool {
    &&& 0 <= i < j < s.len()
    &&& s[i].expect == Expect::Success && s[i].when is None
    &&& s[j].expect == Expect::Success && s[j].when is None
    &&& match (s[i].op, s[j].op) {
        (
            Op::Fill { buf, at, len, pattern },
            Op::Holds { buf: other, at: from, len: many, pattern: same },
        ) => {
            &&& buf == other && at == from && len == many && pattern == same
            &&& forall|k: int|
                i < k < j ==> !((#[trigger] s[k]).op is Fill || s[k].op is Close || s[k].op
                    is Munmap || s[k].op is Mmap)
        },
        _ => false,
    }
}

/// The test of what is written checks, over the whole buffer, what it wrote.
pub proof fn law_write_read_verify(size: u64) -> (r: (int, int))
    ensures
        written_and_checked(write_read_verify(size), r.0, r.1),
        write_read_verify(size)[r.1].op == (Op::Holds {
            buf: 1,
            at: 0,
            len: size as usize,
            pattern: Pattern::Count,
        }),
        write_read_verify(size).contains(allocate(1, size)),
{
    assert(write_read_verify(size)[1] == allocate(1, size));
    (4, 7)
}

/// Each of several threads checks, over the whole buffer, the byte that it wrote.
pub proof fn law_own_pattern(byte: u8) -> (r: (int, int))
    ensures
        written_and_checked(own_pattern(byte), r.0, r.1),
        own_pattern(byte)[r.1].op matches Op::Holds { at, pattern, .. } && at == 0 && pattern
            == Pattern::Same(byte),
{
    (4, 7)
}

/// The test of a duplicate writes through a buffer, closes it, and reads the same bytes
/// through the duplicate.
pub proof fn law_dup_data() -> (r: (int, int, int, int))
    ensures
        ({
            let s = dup_data();
            &&& 0 <= r.0 < r.1 < r.2 < r.3 < s.len()
            &&& s[r.0].op matches Op::Fill { buf: 1, at, len, pattern } && at == 0
            &&& s[r.1] == (Step {
                op: Op::Dup { to: 2, buf: 1 },
                expect: Expect::Success,
                when: None,
            })
            &&& s[r.2].op == (Op::Close { slot: 1 })
            &&& s[r.3].expect == Expect::Success
            &&& s[r.3].op matches Op::Holds { buf: 2, at, len, pattern } && at == 0
                && s[r.0].op == (Op::Fill { buf: 1, at, len, pattern }) && pattern
                != Pattern::Same(0)
        }),
{
    (4, 6, 8, 11)
}

/// The test of new buffers fills four with a byte that is not zero, closes each, and then
/// checks four times that a new one is zero all over.
pub proof fn law_zero_on_alloc(size: u64, k: int)
    requires
        1 <= k <= 4,
    ensures
        ({
            let s = zero_on_alloc(size);
            let write = 5 * k - 1;
            let close = 20 + 2 * k;
            let read = 25 + 7 * k;
            &&& close < read < s.len()
            &&& s[write] == (Step {
                op: Op::Fill {
                    buf: k as usize,
                    at: 0,
                    len: size as usize,
                    pattern: Pattern::Same(0xaa),
                },
                expect: Expect::Success,
                when: None,
            })
            &&& s[close].op == (Op::Close { slot: k as usize })
            &&& s[read] == (Step {
                op: Op::Holds { buf: 1, at: 0, len: size as usize, pattern: Pattern::Same(0) },
                expect: Expect::Success,
                when: None,
            })
            &&& s[read - 3] == allocate(1, size)
        }),
{
    reveal_with_fuel(repeated, 5);
    let s = zero_on_alloc(size);
    assert(s.len() == 57);
}

/// The test of a buffer's size asks for the least whole number of units that holds it.
pub proof fn law_llseek_size(size: u64, granularity: u64)
    requires
        granularity > 0,
        aligned(size as nat, granularity as nat) <= i64::MAX,
    ensures
        ({
            let s = llseek_size(size, granularity);
            &&& s[1] == allocate(1, size)
            &&& s[2].expect == Expect::Success
            &&& s[2].op matches Op::Seek { buf: 1, offset: 0, whence, want: Want::Is(n) } && whence
                == SEEK_END && n >= size && (n as int) % (granularity as int) == 0 && n - size
                < granularity
        }),
{
    crate::size::law_align_to(size as nat, granularity as nat);
}

/// A duplicate is asked for its size after the buffer itself was closed, and the size must be
/// the one that the buffer had.
pub proof fn law_dup_survives_close(size: u64)
    ensures
        ({
            let s = dup_survives_close(size);
            &&& s[2].op matches Op::Seek { buf: 1, want: Want::Keep, .. }
            &&& s[3].op == (Op::Dup { to: 2, buf: 1 })
            &&& s[5].op == (Op::Close { slot: 1 })
            &&& s[6].expect == Expect::Success
            &&& s[6].op matches Op::Seek { buf: 2, offset: 0, whence, want: Want::Kept } && whence
                == SEEK_END
        }),
{
}

/// The test of masks asks for the mask that it set, and it is neither none nor all of the
/// three buffers.
pub proof fn law_mask_is_asked_for() -> (r: (int, int, u64))
    ensures
        ({
            let s = mask_roundtrip();
            &&& 0 <= r.0 < r.1 < s.len()
            &&& s[r.0] == (Step {
                op: Op::SetMask { device: 0, container: 4, mask: r.2 },
                expect: Expect::Success,
                when: None,
            })
            &&& s[r.1] == (Step {
                op: Op::GetMask { device: 0, container: 4, want: r.2 },
                expect: Expect::Success,
                when: None,
            })
            &&& 0 < r.2 < 7
        }),
{
    (8, 9, 5)
}

/// The test of a merged container reads through it what was written to each of its two
/// buffers, which differs, at the place of each.
pub proof fn law_merge_contents() -> (r: (u8, u8))
    ensures
        ({
            let s = merge_contents();
            &&& r.0 != r.1
            &&& s[6].op matches Op::Fill { buf: 1, at: 0, len, pattern } && len == 4096 && pattern
                == Pattern::Same(r.0)
            &&& s[8].op matches Op::Fill { buf: 2, at: 0, len, pattern } && len == 4096 && pattern
                == Pattern::Same(r.1)
            &&& s[11] == (Step {
                op: Op::Holds { buf: 4, at: 0, len: 1, pattern: Pattern::Same(r.0) },
                expect: Expect::Success,
                when: None,
            })
            &&& s[12] == (Step {
                op: Op::Holds { buf: 4, at: 4096, len: 1, pattern: Pattern::Same(r.1) },
                expect: Expect::Success,
                when: None,
            })
        }),
{
    (0xaa, 0xbb)
}

/// A merged container is expected to be as large as its buffers together.
pub proof fn law_merge_size()
    ensures
        ({
            let s = merge_size();
            &&& s[2].op matches Op::Allocate { to: 1, len: first, .. } && (
            s[4].op matches Op::Allocate { to: 2, len: second, .. } && (
            s[6].op matches Op::Seek { buf: 4, offset: 0, whence, want: Want::Is(n) } && whence
                == SEEK_END && n == first + second && s[6].expect == Expect::Success))
        }),
{
}

/// A negative test needs its refusal: the error that goes with the fault, in answer to the
/// faulty call.
pub proof fn law_faults_and_their_errors()
    ensures
        open_nonexistent().last() == (Step {
            op: Op::Open { to: 0, name: 1 },
            expect: Expect::Fails(Errno::ENOENT),
            when: None,
        }),
        alloc_overflow_size().last().expect == Expect::FailsEither(Errno::EINVAL, Errno::ENOMEM)
            && (alloc_overflow_size().last().op matches Op::Allocate { len, .. } && len
            == u64::MAX),
        alloc_on_closed_heap().last().expect == Expect::Fails(Errno::EBADF) && (
        alloc_on_closed_heap().last().op matches Op::Allocate { heap: 0, .. })
            && alloc_on_closed_heap()[1].op == (Op::Close { slot: 0 }),
        sync_on_closed_fd().last().expect == Expect::Fails(Errno::EBADF) && (
        sync_on_closed_fd().last().op matches Op::Sync { buf: 1, .. }) && sync_on_closed_fd()[3].op
            == (Op::Close { slot: 1 }),
        mmap_beyond_size().last() == (Step {
            op: Op::Mmap { buf: 1 },
            expect: Expect::Fails(Errno::EINVAL),
            when: None,
        }) && (mmap_beyond_size()[1].op matches Op::Allocate { len, shown, .. } && shown > len),
        import_bad_fd().last().expect == Expect::Fails(Errno::EINVAL) && (
        import_bad_fd().last().op matches Op::Import { buf: 1, fence: 2, .. }),
        close_same_fd().last() == (Step {
            op: Op::CloseAgain { slot: 1 },
            expect: Expect::Fails(Errno::EBADF),
            when: None,
        }) && close_same_fd()[2] == (Step {
            op: Op::Close { slot: 1 },
            expect: Expect::Succeeds,
            when: None,
        }),
        llseek_invalid().len() == 5 && forall|i: int|
            2 <= i < 5 ==> (#[trigger] llseek_invalid()[i]).expect == Expect::Fails(Errno::EINVAL)
                && (llseek_invalid()[i].op matches Op::Seek { offset, whence, .. } && (whence
                == SEEK_CUR || offset != 0)),
        sync_invalid_flags().len() == 4 && forall|i: int|
            2 <= i < 4 ==> (#[trigger] sync_invalid_flags()[i]).expect == Expect::Fails(
                Errno::EINVAL,
            ),
{
}

} // verus!
