//! How often the workloads of the parts of a device do what they are for.
use crate::backend::protocol::Answers;
use crate::scenario::camera::{image_size, CameraPlan};
use crate::scenario::codec::{nv12, CodecPlan};
use crate::scenario::gpu::{GpuConfig, APP_LAUNCH_SIZES};
use crate::scenario::display::{screen, DisplayConfig};
use crate::workload::pools::{group_buffers, grouped, pool_buffer, pooled, turn, written};
use crate::workload::run::{of_channel, Run};
use crate::workload::scene::camera::{captured, previewed};
use crate::workload::scene::codec::{all_recoded, decoded, recoded, transcoded, ENCODER_POOL};
use crate::workload::scene::common::{frame, framed, pool_bulk};
use crate::workload::scene::display::{flipped, layered, layers, rotated, turn_once};
use crate::workload::scene::gpu::{launched, launching};
use crate::workload::script::{allocate, dropped, open_heap, releases, timed_on};
use crate::workload::step::{must, Op, Step};
use crate::workload::times::{
    all_go_on, allocations, goes_on, law_all_times_noted, lemma_allocations_sum, lemma_note,
    lemma_notes_sum, lemma_quiet, lemma_times_len, noted_by, noted_on, occurrences, quiet,
};
use vstd::prelude::*;

verus! {

/// Whether steps note so many times on a channel where they end well, and allocate so many
/// buffers of a size.
pub open spec fn does(s: Seq<Step>, c: usize, times: nat, size: u64, buffers: nat) -> bool {
    &&& all_go_on(s)
    &&& occurrences(noted_by(s), c) == times
    &&& allocations(s, size) == buffers
}

proof fn lemma_does_sum(
    a: Seq<Step>,
    b: Seq<Step>,
    c: usize,
    m: nat,
    n: nat,
    size: u64,
    p: nat,
    q: nat,
)
    requires
        does(a, c, m, size, p),
        does(b, c, n, size, q),
    ensures
        does(a + b, c, m + n, size, p + q),
{
    lemma_notes_sum(a, b, c);
    lemma_allocations_sum(a, b, size);
}

/// Steps that neither note a time nor allocate.
spec fn idle(s: Seq<Step>) -> bool {
    quiet(s) && forall|i: int| 0 <= i < s.len() ==> !((#[trigger] s[i]).op is Allocate)
}

proof fn lemma_idle(s: Seq<Step>, c: usize, size: u64)
    requires
        idle(s),
    ensures
        does(s, c, 0, size, 0),
{
    lemma_quiet(s, c);
    lemma_no_allocation(s, size);
}

proof fn lemma_no_allocation(s: Seq<Step>, size: u64)
    requires
        forall|i: int| 0 <= i < s.len() ==> !((#[trigger] s[i]).op is Allocate),
    ensures
        allocations(s, size) == 0,
    decreases s.len(),
{
    if s.len() > 0 {
        assert forall|i: int| 0 <= i < s.drop_last().len() implies !((
        #[trigger] s.drop_last()[i]).op is Allocate) by {
            assert(s.drop_last()[i] == s[i]);
        }
        lemma_no_allocation(s.drop_last(), size);
        assert(s.last() == s[s.len() - 1]);
    }
}

proof fn lemma_look(channel: usize, total: bool, c: usize, size: u64)
    ensures
        does(
            seq![must(if total { Op::Total { channel } } else { Op::Split { channel } })],
            c,
            if c == channel {
                1
            } else {
                0
            },
            size,
            0,
        ),
{
    let step = must(if total { Op::Total { channel } } else { Op::Split { channel } });
    lemma_note(step, channel, c);
    lemma_no_allocation(seq![step], size);
}

proof fn lemma_one_buffer(i: usize, size: u64, c: usize)
    ensures
        does(seq![pool_buffer(i, size)], c, 0, size, 1),
{
    let s = seq![pool_buffer(i, size)];
    assert(quiet(s));
    lemma_quiet(s, c);
    assert(s.drop_last() =~= Seq::<Step>::empty());
    assert(allocations(s.drop_last(), size) == 0);
}

proof fn lemma_pooled(first: int, count: nat, size: u64, c: usize)
    ensures
        does(pooled(first, count, size), c, 0, size, count),
    decreases count,
{
    if count == 0 {
        lemma_idle(Seq::<Step>::empty(), c, size);
    } else {
        let i = (first + count - 1) as usize;
        let one = seq![pool_buffer(i, size)];
        let two = seq![must(Op::Mmap { buf: i })];
        lemma_pooled(first, (count - 1) as nat, size, c);
        lemma_one_buffer(i, size, c);
        assert(idle(two));
        lemma_idle(two, c, size);
        lemma_does_sum(one, two, c, 0, 0, size, 1, 0);
        lemma_does_sum(
            pooled(first, (count - 1) as nat, size),
            one + two,
            c,
            0,
            0,
            size,
            (count - 1) as nat,
            1,
        );
        assert(pooled(first, count, size) =~= pooled(first, (count - 1) as nat, size) + (one
            + two));
    }
}

proof fn lemma_framed(
    first: int,
    count: nat,
    size: u64,
    look: bool,
    channel: usize,
    n: nat,
    c: usize,
    any: u64,
)
    ensures
        does(
            framed(first, count, size, look, channel, n),
            c,
            if c == channel {
                n
            } else {
                0
            },
            any,
            0,
        ),
    decreases n,
{
    if n == 0 {
        lemma_idle(Seq::<Step>::empty(), c, any);
    } else {
        let f = (n - 1) as nat;
        let before = framed(first, count, size, look, channel, f);
        let one = frame(first, count, size, look, channel, f);
        let mark = seq![must(Op::Split { channel })];
        let work = one.take(one.len() - 1);
        lemma_framed(first, count, size, look, channel, f, c, any);
        assert(one =~= work + mark);
        assert forall|i: int| 0 <= i < work.len() implies noted_on(#[trigger] work[i]) is None
            && goes_on(work[i]) && !(work[i].op is Allocate) by {
            assert(work[i] == one[i]);
        }
        lemma_idle(work, c, any);
        lemma_look(channel, false, c, any);
        let k: nat = if c == channel {
            1
        } else {
            0
        };
        lemma_does_sum(work, mark, c, 0, k, any, 0, 0);
        lemma_does_sum(
            before,
            one,
            c,
            if c == channel {
                f
            } else {
                0
            },
            k,
            any,
            0,
            0,
        );
    }
}

proof fn lemma_grouped(
    first: int,
    count: nat,
    size: u64,
    channel: usize,
    all: usize,
    c: usize,
)
    requires
        channel != all,
    ensures
        does(
            grouped(first, count, size, channel, all),
            c,
            if c == channel {
                count
            } else if c == all {
                1
            } else {
                0
            },
            size,
            count,
        ),
{
    let start = seq![must(Op::Start)];
    let body = group_buffers(first, count, size, channel);
    assert(idle(start));
    lemma_idle(start, c, size);
    lemma_group_buffers(first, count, size, channel, c);
    lemma_look(all, true, c, size);
    let k: nat = if c == channel {
        count
    } else {
        0
    };
    lemma_does_sum(start, body, c, 0, k, size, 0, count);
    lemma_does_sum(
        start + body,
        seq![must(Op::Total { channel: all })],
        c,
        k,
        if c == all {
            1
        } else {
            0
        },
        size,
        count,
        0,
    );
}

proof fn lemma_group_buffers(first: int, count: nat, size: u64, channel: usize, c: usize)
    ensures
        does(
            group_buffers(first, count, size, channel),
            c,
            if c == channel {
                count
            } else {
                0
            },
            size,
            count,
        ),
    decreases count,
{
    if count == 0 {
        lemma_idle(Seq::<Step>::empty(), c, size);
    } else {
        let m = (count - 1) as nat;
        let i = (first + count - 1) as usize;
        let one = seq![pool_buffer(i, size)];
        let two = seq![must(Op::Split { channel })];
        let before = group_buffers(first, m, size, channel);
        lemma_group_buffers(first, m, size, channel, c);
        lemma_one_buffer(i, size, c);
        lemma_look(channel, false, c, size);
        let k: nat = if c == channel {
            1
        } else {
            0
        };
        lemma_does_sum(one, two, c, 0, k, size, 1, 0);
        lemma_does_sum(
            before,
            one + two,
            c,
            if c == channel {
                m
            } else {
                0
            },
            k,
            size,
            m,
            1,
        );
        assert(group_buffers(first, count, size, channel) =~= before + (one + two));
    }
}

proof fn lemma_releases(first: int, n: nat, c: usize, size: u64)
    ensures
        does(releases(first, n), c, 0, size, 0),
    decreases n,
{
    if n == 0 {
        lemma_idle(Seq::<Step>::empty(), c, size);
    } else {
        let last = dropped((first + n - 1) as usize);
        lemma_releases(first, (n - 1) as nat, c, size);
        assert(idle(last));
        lemma_idle(last, c, size);
        lemma_does_sum(releases(first, (n - 1) as nat), last, c, 0, 0, size, 0, 0);
    }
}

proof fn lemma_open(c: usize, size: u64)
    ensures
        does(seq![open_heap()], c, 0, size, 0),
        does(seq![must(Op::Start)], c, 0, size, 0),
{
    assert(idle(seq![open_heap()]));
    assert(idle(seq![must(Op::Start)]));
    lemma_idle(seq![open_heap()], c, size);
    lemma_idle(seq![must(Op::Start)], c, size);
}

proof fn lemma_times<B: Answers>(
    a: B,
    steps: Seq<Step>,
    heap: Seq<char>,
    slots: nat,
    r: Run,
    b: B,
    c: usize,
    times: nat,
    size: u64,
    buffers: nat,
)
    requires
        timed_on(a, steps, heap, slots, r, b),
        r.result is Ok,
        does(steps, c, times, size, buffers),
    ensures
        of_channel(r.marks@, c).len() == times,
{
    law_all_times_noted(a, steps, seq![heap], slots, r.result, r.marks@, b);
    lemma_times_len(r.marks@, c);
}

/// A preview that ends well has allocated its pool and noted a time for each frame.
pub proof fn law_preview_takes_all_frames<B: Answers>(
    a: B,
    heap: Seq<char>,
    c: CameraPlan,
    r: Run,
    b: B,
)
    requires
        timed_on(a, previewed(c), heap, (c.pool_size + 1) as nat, r, b),
        r.result is Ok,
    ensures
        of_channel(r.marks@, 0).len() == c.frames,
        allocations(
            previewed(c),
            image_size(c.format, c.width as nat, c.height as nat) as u64,
        ) == c.pool_size,
{
    let size = image_size(c.format, c.width as nat, c.height as nat) as u64;
    let n = c.pool_size as nat;
    let open = seq![open_heap()];
    lemma_open(0, size);
    lemma_pooled(1, n, size, 0);
    lemma_framed(1, n, size, false, 0, c.frames as nat, 0, size);
    lemma_does_sum(open, pooled(1, n, size), 0, 0, 0, size, 0, n);
    lemma_does_sum(
        open + pooled(1, n, size),
        framed(1, n, size, false, 0, c.frames as nat),
        0,
        0,
        c.frames as nat,
        size,
        n,
        0,
    );
    lemma_times(a, previewed(c), heap, n + 1, r, b, 0, c.frames as nat, size, n);
}

/// A burst that ends well has noted a time for each picture, one for all, and one for their
/// release.
pub proof fn law_burst_takes_all_pictures<B: Answers>(
    a: B,
    heap: Seq<char>,
    c: CameraPlan,
    r: Run,
    b: B,
)
    requires
        timed_on(a, captured(c), heap, (c.burst_count + 1) as nat, r, b),
        r.result is Ok,
    ensures
        of_channel(r.marks@, 0).len() == c.burst_count,
        of_channel(r.marks@, 1).len() == 1,
        of_channel(r.marks@, 2).len() == 1,
        allocations(captured(c), image_size(c.burst_format, 4000, 3000) as u64) == c.burst_count,
{
    let size = image_size(c.burst_format, 4000, 3000) as u64;
    let n = c.burst_count as nat;
    lemma_burst(c, 0);
    lemma_burst(c, 1);
    lemma_burst(c, 2);
    lemma_times(a, captured(c), heap, n + 1, r, b, 0, n, size, n);
    lemma_times(a, captured(c), heap, n + 1, r, b, 1, 1, size, n);
    lemma_times(a, captured(c), heap, n + 1, r, b, 2, 1, size, n);
}

proof fn lemma_burst(c: CameraPlan, k: usize)
    ensures
        does(
            captured(c),
            k,
            if k == 0 {
                c.burst_count as nat
            } else if k <= 2 {
                1
            } else {
                0
            },
            image_size(c.burst_format, 4000, 3000) as u64,
            c.burst_count as nat,
        ),
{
    let size = image_size(c.burst_format, 4000, 3000) as u64;
    let n = c.burst_count as nat;
    let open = seq![open_heap()];
    let all = grouped(1, n, size, 0, 1);
    let start = seq![must(Op::Start)];
    let t: nat = if k == 0 {
        n
    } else if k == 1 {
        1
    } else {
        0
    };
    lemma_open(k, size);
    lemma_grouped(1, n, size, 0, 1, k);
    lemma_releases(1, n, k, size);
    lemma_look(2, true, k, size);
    lemma_does_sum(open, all, k, 0, t, size, 0, n);
    lemma_does_sum(open + all, start, k, t, 0, size, n, 0);
    lemma_does_sum(open + all + start, releases(1, n), k, t, 0, size, n, 0);
    lemma_does_sum(
        open + all + start + releases(1, n),
        seq![must(Op::Total { channel: 2 })],
        k,
        t,
        if k == 2 {
            1
        } else {
            0
        },
        size,
        n,
        0,
    );
}

/// Pictures that are shown in turn, and end well, have a time for each frame.
pub proof fn law_flip_shows_all_frames<B: Answers>(
    a: B,
    heap: Seq<char>,
    c: DisplayConfig,
    r: Run,
    b: B,
)
    requires
        timed_on(a, flipped(c), heap, (c.buffers + 1) as nat, r, b),
        r.result is Ok,
    ensures
        of_channel(r.marks@, 0).len() == c.frames,
        allocations(flipped(c), screen(c.width as nat, c.height as nat) as u64) == c.buffers,
{
    let size = screen(c.width as nat, c.height as nat) as u64;
    let n = c.buffers as nat;
    let open = seq![open_heap()];
    lemma_open(0, size);
    lemma_pooled(1, n, size, 0);
    lemma_framed(1, n, size, false, 0, c.frames as nat, 0, size);
    lemma_does_sum(open, pooled(1, n, size), 0, 0, 0, size, 0, n);
    lemma_does_sum(
        open + pooled(1, n, size),
        framed(1, n, size, false, 0, c.frames as nat),
        0,
        0,
        c.frames as nat,
        size,
        n,
        0,
    );
    lemma_times(a, flipped(c), heap, n + 1, r, b, 0, c.frames as nat, size, n);
}

/// Pictures that are decoded, and end well, have a time for each frame, and one for the
/// allocation of the pool.
pub proof fn law_decode_takes_all_frames<B: Answers>(
    a: B,
    heap: Seq<char>,
    c: CodecPlan,
    r: Run,
    b: B,
)
    requires
        timed_on(a, decoded(c), heap, (c.dpb_size + 1) as nat, r, b),
        r.result is Ok,
    ensures
        of_channel(r.marks@, 0).len() == 1,
        of_channel(r.marks@, 1).len() == c.frames,
        allocations(decoded(c), nv12(c.width as nat, c.height as nat) as u64) == c.dpb_size,
{
    let size = nv12(c.width as nat, c.height as nat) as u64;
    let n = c.dpb_size as nat;
    lemma_decode(c, 0);
    lemma_decode(c, 1);
    lemma_times(a, decoded(c), heap, n + 1, r, b, 0, 1, size, n);
    lemma_times(a, decoded(c), heap, n + 1, r, b, 1, c.frames as nat, size, n);
}

proof fn lemma_decode(c: CodecPlan, k: usize)
    ensures
        does(
            decoded(c),
            k,
            if k == 0 {
                1
            } else if k == 1 {
                c.frames as nat
            } else {
                0
            },
            nv12(c.width as nat, c.height as nat) as u64,
            c.dpb_size as nat,
        ),
{
    let size = nv12(c.width as nat, c.height as nat) as u64;
    let n = c.dpb_size as nat;
    let open = seq![open_heap(), must(Op::Start)];
    let mark = seq![must(Op::Total { channel: 0 })];
    let t: nat = if k == 0 {
        1
    } else {
        0
    };
    assert(idle(open));
    lemma_idle(open, k, size);
    lemma_pooled(1, n, size, k);
    lemma_look(0, true, k, size);
    lemma_framed(1, n, size, true, 1, c.frames as nat, k, size);
    lemma_does_sum(open, pooled(1, n, size), k, 0, 0, size, 0, n);
    lemma_does_sum(open + pooled(1, n, size), mark, k, 0, t, size, n, 0);
    lemma_does_sum(
        open + pooled(1, n, size) + mark,
        framed(1, n, size, true, 1, c.frames as nat),
        k,
        t,
        if k == 1 {
            c.frames as nat
        } else {
            0
        },
        size,
        n,
        0,
    );
}

/// A frame is written to the buffer whose turn it is, all over, with the byte of the frame.
pub proof fn law_frame_is_written(
    first: int,
    count: nat,
    size: u64,
    look: bool,
    channel: usize,
    f: nat,
)
    ensures
        frame(first, count, size, look, channel, f)[3] == must(
            Op::Fill {
                buf: turn(first, count, f),
                at: 0,
                len: size as usize,
                pattern: crate::backend::protocol::Pattern::Same((f % 256) as u8),
            },
        ),
{
}

/// Turns of the screen that end well have a time for each.
pub proof fn law_rotation_turns_each_cycle<B: Answers>(
    a: B,
    heap: Seq<char>,
    c: DisplayConfig,
    r: Run,
    b: B,
)
    requires
        timed_on(a, rotated(c, c.rotation_cycles as nat), heap, (c.buffers + 1) as nat, r, b),
        r.result is Ok,
    ensures
        of_channel(r.marks@, 0).len() == c.rotation_cycles,
{
    let n = c.rotation_cycles as nat;
    let steps = rotated(c, n);
    lemma_rotated(c, n);
    law_all_times_noted(a, steps, seq![heap], (c.buffers + 1) as nat, r.result, r.marks@, b);
    lemma_times_len(r.marks@, 0);
}

proof fn lemma_rotated(c: DisplayConfig, n: nat)
    ensures
        all_go_on(rotated(c, n)),
        occurrences(noted_by(rotated(c, n)), 0) == n,
    decreases n,
{
    if n == 0 {
        lemma_open(0, 0);
    } else {
        let m = (n - 1) as nat;
        let before = rotated(c, m);
        let one = turn_once(c, m);
        let mark = seq![must(Op::Total { channel: 0 })];
        let work = one.take(one.len() - 1);
        lemma_rotated(c, m);
        assert(one =~= work + mark);
        lemma_releases_silent(1, c.buffers as nat);
        let s0 = seq![must(Op::Start)];
        let s1 = pool_bulk(
            1,
            c.buffers as nat,
            crate::scenario::display::turned(c, m) as u64,
        );
        let s2 = releases(1, c.buffers as nat);
        assert(work =~= s0 + s1 + s2);
        assert forall|i: int| 0 <= i < work.len() implies noted_on(#[trigger] work[i]) is None
            && goes_on(work[i]) by {
            if i < s0.len() {
                assert(work[i] == s0[i]);
            } else if i < s0.len() + s1.len() {
                assert(work[i] == s1[i - s0.len()]);
            } else {
                assert(work[i] == s2[i - s0.len() - s1.len()]);
            }
        }
        lemma_quiet(work, 0);
        lemma_look(0, true, 0, 0);
        lemma_notes_sum(work, mark, 0);
        lemma_notes_sum(before, one, 0);
    }
}

proof fn lemma_releases_silent(first: int, n: nat)
    ensures
        quiet(releases(first, n)),
    decreases n,
{
    if n > 0 {
        let before = releases(first, (n - 1) as nat);
        let last = dropped((first + n - 1) as usize);
        lemma_releases_silent(first, (n - 1) as nat);
        assert forall|i: int| 0 <= i < releases(first, n).len() implies noted_on(
            #[trigger] releases(first, n)[i],
        ) is None && goes_on(releases(first, n)[i]) by {
            if i < before.len() {
                assert(releases(first, n)[i] == before[i]);
            } else {
                assert(releases(first, n)[i] == last[i - before.len()]);
            }
        }
    }
}

/// Layers that are allocated, and end well, have a time for each, and one for all.
pub proof fn law_each_layer_is_allocated<B: Answers>(
    a: B,
    heap: Seq<char>,
    c: DisplayConfig,
    r: Run,
    b: B,
)
    requires
        timed_on(a, layered(c), heap, (c.layers + 1) as nat, r, b),
        r.result is Ok,
    ensures
        of_channel(r.marks@, 0).len() == c.layers,
        of_channel(r.marks@, 1).len() == 1,
{
    let n = c.layers as nat;
    lemma_layers(c, n, 0);
    lemma_layers(c, n, 1);
    lemma_look(1, true, 0, 0);
    lemma_look(1, true, 1, 0);
    lemma_notes_sum(layers(c, n), seq![must(Op::Total { channel: 1 })], 0);
    lemma_notes_sum(layers(c, n), seq![must(Op::Total { channel: 1 })], 1);
    law_all_times_noted(a, layered(c), seq![heap], n + 1, r.result, r.marks@, b);
    lemma_times_len(r.marks@, 0);
    lemma_times_len(r.marks@, 1);
}

proof fn lemma_layers(c: DisplayConfig, n: nat, k: usize)
    requires
        k <= 1,
    ensures
        all_go_on(layers(c, n)),
        occurrences(noted_by(layers(c, n)), k) == if k == 0 {
            n
        } else {
            0
        },
    decreases n,
{
    if n == 0 {
        let open = seq![open_heap(), must(Op::Start)];
        assert(quiet(open));
        lemma_quiet(open, k);
    } else {
        let before = layers(c, (n - 1) as nat);
        let size = crate::scenario::display::layer(c, (n - 1) as nat) as u64;
        let one = seq![pool_buffer(n as usize, size)];
        let two = seq![must(Op::Split { channel: 0 })];
        lemma_layers(c, (n - 1) as nat, k);
        lemma_one_buffer(n as usize, size, k);
        lemma_look(0, false, k, 0);
        lemma_notes_sum(one, two, k);
        lemma_notes_sum(before, one + two, k);
        assert(layers(c, n) =~= before + (one + two));
    }
}

/// Pictures that are decoded and encoded, and end well, have a time for each frame, and each
/// is written to a buffer of the decoder and to one of the encoder.
pub proof fn law_transcode_takes_all_frames<B: Answers>(
    a: B,
    heap: Seq<char>,
    c: CodecPlan,
    r: Run,
    b: B,
)
    requires
        timed_on(a, transcoded(c), heap, (c.dpb_size + 5) as nat, r, b),
        r.result is Ok,
    ensures
        of_channel(r.marks@, 0).len() == c.frames,
{
    let size = nv12(c.width as nat, c.height as nat) as u64;
    let half = nv12(c.width as nat / 2, c.height as nat / 2) as u64;
    let n = c.dpb_size as nat;
    let open = seq![open_heap()];
    let p = pooled(1, n, size);
    let q = pooled(1 + c.dpb_size, ENCODER_POOL as nat, half);
    let f = all_recoded(n, size, half, c.frames as nat);
    lemma_open(0, size);
    lemma_pooled(1, n, size, 0);
    lemma_pooled(1 + c.dpb_size, ENCODER_POOL as nat, half, 0);
    lemma_all_recoded(n, size, half, c.frames as nat);
    lemma_notes_sum(open, p, 0);
    lemma_notes_sum(open + p, q, 0);
    lemma_notes_sum(open + p + q, f, 0);
    law_all_times_noted(a, transcoded(c), seq![heap], n + 5, r.result, r.marks@, b);
    lemma_times_len(r.marks@, 0);
}

proof fn lemma_all_recoded(dpb: nat, size: u64, half: u64, n: nat)
    ensures
        all_go_on(all_recoded(dpb, size, half, n)),
        occurrences(noted_by(all_recoded(dpb, size, half, n)), 0) == n,
    decreases n,
{
    if n == 0 {
        lemma_idle(Seq::<Step>::empty(), 0, 0);
    } else {
        let before = all_recoded(dpb, size, half, (n - 1) as nat);
        let one = recoded(dpb, size, half, (n - 1) as nat);
        let mark = seq![must(Op::Split { channel: 0 })];
        let work = one.take(one.len() - 1);
        lemma_all_recoded(dpb, size, half, (n - 1) as nat);
        assert(one =~= work + mark);
        assert forall|i: int| 0 <= i < work.len() implies noted_on(#[trigger] work[i]) is None
            && goes_on(work[i]) by {
            assert(work[i] == one[i]);
        }
        lemma_quiet(work, 0);
        lemma_look(0, false, 0, 0);
        lemma_notes_sum(work, mark, 0);
        lemma_notes_sum(before, one, 0);
    }
}

/// An application that starts, and ends well, has a time for each of its buffers, and one for
/// all.
pub proof fn law_launch_allocates_each_buffer<B: Answers>(
    a: B,
    heap: Seq<char>,
    c: GpuConfig,
    r: Run,
    b: B,
)
    requires
        timed_on(a, launched(c), heap, (c.buffer_count + 1) as nat, r, b),
        r.result is Ok,
    ensures
        of_channel(r.marks@, 0).len() == c.buffer_count,
        of_channel(r.marks@, 1).len() == 1,
{
    let n = c.buffer_count as nat;
    lemma_launching(n, 0);
    lemma_launching(n, 1);
    lemma_look(1, true, 0, 0);
    lemma_look(1, true, 1, 0);
    lemma_notes_sum(launching(n), seq![must(Op::Total { channel: 1 })], 0);
    lemma_notes_sum(launching(n), seq![must(Op::Total { channel: 1 })], 1);
    law_all_times_noted(a, launched(c), seq![heap], n + 1, r.result, r.marks@, b);
    lemma_times_len(r.marks@, 0);
    lemma_times_len(r.marks@, 1);
}

proof fn lemma_launching(n: nat, k: usize)
    requires
        k <= 1,
    ensures
        all_go_on(launching(n)),
        occurrences(noted_by(launching(n)), k) == if k == 0 {
            n
        } else {
            0
        },
    decreases n,
{
    if n == 0 {
        let open = seq![open_heap(), must(Op::Start)];
        assert(quiet(open));
        lemma_quiet(open, k);
    } else {
        let before = launching((n - 1) as nat);
        let one = seq![allocate(n as usize, APP_LAUNCH_SIZES@[(n - 1) % 7])];
        let two = seq![must(Op::Split { channel: 0 })];
        lemma_launching((n - 1) as nat, k);
        assert(quiet(one));
        lemma_quiet(one, k);
        lemma_look(0, false, k, 0);
        lemma_notes_sum(one, two, k);
        lemma_notes_sum(before, one + two, k);
        assert(launching(n) =~= before + (one + two));
    }
}

} // verus!
