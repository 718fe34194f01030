//! The inference workload: loading models, inference loops, several clients.
use crate::number::{dec, push_dec};
use crate::stats::LatencyStats;
use crate::text::group_concat;
use vstd::prelude::*;

verus! {

/// The inference workload's settings.
#[derive(Clone, Copy, Debug)]
pub struct NpuConfig {
    pub model_size: u64,
    pub chunk_size: u64,
    pub input_size: u64,
    pub output_size: u64,
    pub iterations: u32,
    pub clients: u32,
}

/// The settings where none are given.
pub open spec fn npu_defaults() -> NpuConfig {
    NpuConfig {
        model_size: 536_870_912,
        chunk_size: 67_108_864,
        input_size: 602_112,
        output_size: 4096,
        iterations: 100,
        clients: 4,
    }
}

impl Default for NpuConfig {
    fn default() -> (r: Self)
        ensures
            r == npu_defaults(),
    {
        NpuConfig {
            model_size: 536_870_912,
            chunk_size: 67_108_864,
            input_size: 602_112,
            output_size: 4096,
            iterations: 100,
            clients: 4,
        }
    }
}

/// How many chunks a model is loaded in, and how large each is; without a chunk size
/// the model is one chunk.
pub open spec fn chunks(model: nat, chunk: nat) -> (nat, nat) {
    if chunk > 0 {
        (((model + chunk - 1) / chunk as int) as nat, chunk)
    } else {
        (1, model)
    }
}

/// How many chunks a model is loaded in, and how large each is.
pub fn chunk_params(model_size: u64, chunk_size: u64) -> (r: (usize, u64))
    requires
        chunks(model_size as nat, chunk_size as nat).0 <= usize::MAX,
    ensures
        r.0 == chunks(model_size as nat, chunk_size as nat).0,
        r.1 == chunks(model_size as nat, chunk_size as nat).1,
{
    if chunk_size > 0 {
        let n: u128 = (model_size as u128 + chunk_size as u128 - 1) / chunk_size as u128;
        (n as usize, chunk_size)
    } else {
        (1, model_size)
    }
}

/// The chunks hold the model, and without the last they do not.
pub proof fn law_chunks_hold_model(model: nat, chunk: nat)
    requires
        chunk > 0,
    ensures
        chunks(model, chunk).0 * chunks(model, chunk).1 >= model,
        chunks(model, chunk).0 > 0 ==> (chunks(model, chunk).0 - 1) * chunk < model,
        model > 0 ==> chunks(model, chunk).0 > 0,
{
    let n = chunks(model, chunk).0 as int;
    let m = model as int;
    let c = chunk as int;
    assert(n * c >= m && (n - 1) * c < m && (m > 0 ==> n > 0)) by (nonlinear_arith)
        requires
            n == (m + c - 1) / c,
            c > 0,
            m >= 0,
    ;
}

/// What is told before the workload: its settings.
pub open spec fn settings_text(heap: Seq<char>, c: NpuConfig) -> Seq<char> {
    "scenario npu sequence:\n  heap: "@ + heap + "\n  model_size: "@ + dec(c.model_size as nat)
        + "\n  chunk_size: "@ + dec(c.chunk_size as nat) + " ("@ + dec(
        chunks(c.model_size as nat, c.chunk_size as nat).0,
    ) + " chunks)\n  input_size: "@ + dec(c.input_size as nat) + "\n  output_size: "@ + dec(
        c.output_size as nat,
    ) + "\n  iterations: "@ + dec(c.iterations as nat) + "\n  clients: "@ + dec(c.clients as nat)
        + "\n\n"@
}

/// What is told before the workload: its phases.
pub open spec fn phases_text(c: NpuConfig) -> Seq<char> {
    "  phase 1: model_load     bulk_alloc "@ + dec(
        chunks(c.model_size as nat, c.chunk_size as nat).0,
    )
        + " weight chunks, mmap+write, probe 4K/64K/1M\n  phase 2: inference_loop  hold model + "@
        + dec(c.iterations as nat)
        + " x (input alloc -> compute -> output read -> release)\n  phase 3: model_switch   load A(half) -> load B(full) alongside -> release A -> load C(half)\n  phase 4: sustained      hold model + "@
        + dec(c.iterations as nat)
        + " x alloc/free with periodic p50/p95/p99 snapshots\n  phase 5: concurrent     "@ + dec(
        c.clients as nat,
    ) + " threads x "@ + dec(c.iterations as nat / c.clients as nat)
        + " iters each, independent inference loops\n  cleanup: release all model buffers\n\n"@
}

/// What the words of the results mean.
pub open spec fn legend_text() -> Seq<char> {
    "scenario npu result legend:\n  chunks          number of model weight chunks loaded\n  total_alloc_us  total model load time\n  probe_us        small alloc latency while model is held\n  p50/p95/p99_us  per-iteration alloc latency percentiles\n  client_id       concurrent client thread index\n  iterations      iterations completed (per client or total)\n\n"@
}

/// What is told before the workload.
pub fn sequence(heap: &str, config: &NpuConfig) -> (s: String)
    requires
        config.clients > 0,
        chunks(config.model_size as nat, config.chunk_size as nat).0 <= usize::MAX,
    ensures
        s@ == settings_text(heap@, *config) + phases_text(*config) + legend_text(),
{
    let mut s = String::new();
    push_settings(&mut s, heap, config);
    push_phases(&mut s, config);
    s.append(
        "scenario npu result legend:\n  chunks          number of model weight chunks loaded\n  total_alloc_us  total model load time\n  probe_us        small alloc latency while model is held\n  p50/p95/p99_us  per-iteration alloc latency percentiles\n  client_id       concurrent client thread index\n  iterations      iterations completed (per client or total)\n\n",
    );
    assert(Seq::<char>::empty() + settings_text(heap@, *config) =~= settings_text(
        heap@,
        *config,
    ));
    s
}

fn push_settings(s: &mut String, heap: &str, config: &NpuConfig)
    requires
        chunks(config.model_size as nat, config.chunk_size as nat).0 <= usize::MAX,
    ensures
        final(s)@ == old(s)@ + settings_text(heap@, *config),
{
    broadcast use group_concat;

    let (count, _) = chunk_params(config.model_size, config.chunk_size);
    s.append("scenario npu sequence:\n  heap: ");
    s.append(heap);
    s.append("\n  model_size: ");
    push_dec(s, config.model_size);
    s.append("\n  chunk_size: ");
    push_dec(s, config.chunk_size);
    s.append(" (");
    push_dec(s, count as u64);
    s.append(" chunks)\n  input_size: ");
    push_dec(s, config.input_size);
    s.append("\n  output_size: ");
    push_dec(s, config.output_size);
    s.append("\n  iterations: ");
    push_dec(s, config.iterations as u64);
    s.append("\n  clients: ");
    push_dec(s, config.clients as u64);
    s.append("\n\n");
}

fn push_phases(s: &mut String, config: &NpuConfig)
    requires
        config.clients > 0,
        chunks(config.model_size as nat, config.chunk_size as nat).0 <= usize::MAX,
    ensures
        final(s)@ == old(s)@ + phases_text(*config),
{
    broadcast use group_concat;

    let (count, _) = chunk_params(config.model_size, config.chunk_size);
    s.append("  phase 1: model_load     bulk_alloc ");
    push_dec(s, count as u64);
    s.append(
        " weight chunks, mmap+write, probe 4K/64K/1M\n  phase 2: inference_loop  hold model + ",
    );
    push_dec(s, config.iterations as u64);
    s.append(
        " x (input alloc -> compute -> output read -> release)\n  phase 3: model_switch   load A(half) -> load B(full) alongside -> release A -> load C(half)\n  phase 4: sustained      hold model + ",
    );
    push_dec(s, config.iterations as u64);
    s.append(" x alloc/free with periodic p50/p95/p99 snapshots\n  phase 5: concurrent     ");
    push_dec(s, config.clients as u64);
    s.append(" threads x ");
    push_dec(s, (config.iterations / config.clients) as u64);
    s.append(
        " iters each, independent inference loops\n  cleanup: release all model buffers\n\n",
    );
}

/// What is told of a loaded model.
pub fn load_line(count: usize, chunk: u64, total_us: u64, stats: &LatencyStats) -> (s: String)
    ensures
        s@ == "scenario npu: model_load chunks="@ + dec(count as nat) + " chunk_size="@ + dec(
            chunk as nat,
        ) + " total_alloc_us="@ + dec(total_us as nat) + " p50_us="@ + dec(stats.p50_us as nat)
            + " p95_us="@ + dec(stats.p95_us as nat),
{
    broadcast use group_concat;

    let mut s = String::new();
    s.append("scenario npu: model_load chunks=");
    push_dec(&mut s, count as u64);
    s.append(" chunk_size=");
    push_dec(&mut s, chunk);
    s.append(" total_alloc_us=");
    push_dec(&mut s, total_us);
    s.append(" p50_us=");
    push_dec(&mut s, stats.p50_us);
    s.append(" p95_us=");
    push_dec(&mut s, stats.p95_us);
    s
}

/// What is told of a small allocation beside the model: how long it took, or that
/// there was no memory.
pub fn probe_line(size: u64, probe_us: Option<u64>) -> (s: String)
    ensures
        s@ == match probe_us {
            Some(us) => "scenario npu: model_load_probe_ok probe_size="@ + dec(size as nat)
                + " probe_us="@ + dec(us as nat),
            None => "scenario npu: model_load_probe_enomem probe_size="@ + dec(size as nat),
        },
{
    broadcast use group_concat;

    let mut s = String::new();
    match probe_us {
        Some(us) => {
            s.append("scenario npu: model_load_probe_ok probe_size=");
            push_dec(&mut s, size);
            s.append(" probe_us=");
            push_dec(&mut s, us);
        },
        None => {
            s.append("scenario npu: model_load_probe_enomem probe_size=");
            push_dec(&mut s, size);
        },
    }
    s
}

/// What is told of the inference loop.
pub fn loop_line(iterations: u32, stats: &LatencyStats) -> (s: String)
    ensures
        s@ == "scenario npu: inference_loop iterations="@ + dec(iterations as nat) + " p50_us="@
            + dec(stats.p50_us as nat) + " p95_us="@ + dec(stats.p95_us as nat) + " p99_us="@ + dec(
            stats.p99_us as nat,
        ),
{
    broadcast use group_concat;

    let mut s = String::new();
    s.append("scenario npu: inference_loop iterations=");
    push_dec(&mut s, iterations as u64);
    s.append(" p50_us=");
    push_dec(&mut s, stats.p50_us);
    s.append(" p95_us=");
    push_dec(&mut s, stats.p95_us);
    s.append(" p99_us=");
    push_dec(&mut s, stats.p99_us);
    s
}

/// After how many inferences the sustained phase tells of them.
pub const SNAPSHOT_INTERVAL: u32 = 50;

/// The inferences of the sustained phase that are told of together: all of an interval,
/// under the number of the last.
pub fn snapshot_windows(times: &[u64]) -> (v: Vec<(u32, Vec<u64>)>)
    requires
        times@.len() <= u32::MAX,
    ensures
        v@.len() == times@.len() / SNAPSHOT_INTERVAL as nat,
        forall|k: int|
            0 <= k < v@.len() ==> (#[trigger] v@[k]).0 == SNAPSHOT_INTERVAL * (k + 1) && v@[k].1@
                == times@.subrange(SNAPSHOT_INTERVAL * k, SNAPSHOT_INTERVAL * (k + 1)),
{
    let mut v: Vec<(u32, Vec<u64>)> = Vec::new();
    let mut window: Vec<u64> = Vec::new();
    let mut i: u32 = 0;
    while i < times.len() as u32
        invariant
            i <= times@.len() <= u32::MAX,
            v@.len() == i / SNAPSHOT_INTERVAL,
            window@ =~= times@.subrange(SNAPSHOT_INTERVAL * v@.len(), i as int),
            forall|k: int|
                0 <= k < v@.len() ==> (#[trigger] v@[k]).0 == SNAPSHOT_INTERVAL * (k + 1)
                    && v@[k].1@ == times@.subrange(
                    SNAPSHOT_INTERVAL * k,
                    SNAPSHOT_INTERVAL * (k + 1),
                ),
        decreases times@.len() - i,
    {
        window.push(times[i as usize]);
        i = i + 1;
        if i % SNAPSHOT_INTERVAL == 0 {
            v.push((i, window));
            window = Vec::new();
        }
    }
    v
}

/// What the sustained phase tells.
pub fn snapshot_line(iteration: u32, window: usize, stats: &LatencyStats) -> (s: String)
    ensures
        s@ == "scenario npu: sustained_snapshot iteration="@ + dec(iteration as nat)
            + " window_size="@ + dec(window as nat) + " p50_us="@ + dec(stats.p50_us as nat)
            + " p95_us="@ + dec(stats.p95_us as nat) + " p99_us="@ + dec(stats.p99_us as nat),
{
    broadcast use group_concat;

    let mut s = String::new();
    s.append("scenario npu: sustained_snapshot iteration=");
    push_dec(&mut s, iteration as u64);
    s.append(" window_size=");
    push_dec(&mut s, window as u64);
    s.append(" p50_us=");
    push_dec(&mut s, stats.p50_us);
    s.append(" p95_us=");
    push_dec(&mut s, stats.p95_us);
    s.append(" p99_us=");
    push_dec(&mut s, stats.p99_us);
    s
}

/// What is told of the first model of a switch.
pub fn first_model_line(count: usize) -> (s: String)
    ensures
        s@ == "scenario npu: model_switch_phase1 chunks="@ + dec(count as nat),
{
    broadcast use group_concat;

    let mut s = String::new();
    s.append("scenario npu: model_switch_phase1 chunks=");
    push_dec(&mut s, count as u64);
    s
}

/// What is told of a model that is loaded in a later phase of a switch.
pub fn next_model_line(phase: u32, count: usize, total_us: u64, stats: &LatencyStats) -> (s: String)
    ensures
        s@ == "scenario npu: model_switch_phase"@ + dec(phase as nat) + " chunks="@ + dec(
            count as nat,
        ) + " total_us="@ + dec(total_us as nat) + " p50_us="@ + dec(stats.p50_us as nat),
{
    broadcast use group_concat;

    let mut s = String::new();
    s.append("scenario npu: model_switch_phase");
    push_dec(&mut s, phase as u64);
    s.append(" chunks=");
    push_dec(&mut s, count as u64);
    s.append(" total_us=");
    push_dec(&mut s, total_us);
    s.append(" p50_us=");
    push_dec(&mut s, stats.p50_us);
    s
}

/// What is told of the release of the first model of a switch.
pub fn model_released_line(us: u64) -> (s: String)
    ensures
        s@ == "scenario npu: model_switch_phase3 release_us="@ + dec(us as nat),
{
    broadcast use group_concat;

    let mut s = String::new();
    s.append("scenario npu: model_switch_phase3 release_us=");
    push_dec(&mut s, us);
    s
}

/// What is told of a client.
pub fn client_line(id: u32, iterations: usize, stats: &LatencyStats) -> (s: String)
    ensures
        s@ == "scenario npu: concurrent_client client_id="@ + dec(id as nat) + " iterations="@
            + dec(iterations as nat) + " p50_us="@ + dec(stats.p50_us as nat) + " p95_us="@ + dec(
            stats.p95_us as nat,
        ),
{
    broadcast use group_concat;

    let mut s = String::new();
    s.append("scenario npu: concurrent_client client_id=");
    push_dec(&mut s, id as u64);
    s.append(" iterations=");
    push_dec(&mut s, iterations as u64);
    s.append(" p50_us=");
    push_dec(&mut s, stats.p50_us);
    s.append(" p95_us=");
    push_dec(&mut s, stats.p95_us);
    s
}

} // verus!
