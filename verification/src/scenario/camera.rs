//! The camera workload: preview, burst capture, resolution changes, several streams.
use crate::number::{dec, push_dec};
use crate::stats::LatencyStats;
use crate::text::group_concat;
use vstd::prelude::*;

verus! {

/// Pixel format of a camera buffer.
#[derive(Clone, Copy, PartialEq, Eq, Structural, Debug)]
pub enum CameraFormat {
    Nv12,
    Raw10,
    Raw16,
}

/// The bytes of an image: one and a half, one and a quarter or two for each pixel.
pub open spec fn image_size(format: CameraFormat, width: nat, height: nat) -> nat {
    match format {
        CameraFormat::Nv12 => (width * height * 3 / 2) as nat,
        CameraFormat::Raw10 => (width * height * 5 / 4) as nat,
        CameraFormat::Raw16 => (width * height * 2) as nat,
    }
}

/// How many times the pixels are taken before the division.
pub open spec fn multiplier(format: CameraFormat) -> nat {
    match format {
        CameraFormat::Nv12 => 3,
        CameraFormat::Raw10 => 5,
        CameraFormat::Raw16 => 2,
    }
}

/// The name of a format.
pub open spec fn format_name(format: CameraFormat) -> Seq<char> {
    match format {
        CameraFormat::Nv12 => "Nv12"@,
        CameraFormat::Raw10 => "Raw10"@,
        CameraFormat::Raw16 => "Raw16"@,
    }
}

impl CameraFormat {
    /// The bytes of an image.
    pub fn buffer_size(self, width: u32, height: u32) -> (r: u64)
        requires
            width * height * multiplier(self) <= u64::MAX,
        ensures
            r == image_size(self, width as nat, height as nat),
    {
        proof {
            assert(width * height <= 0xffff_ffff * 0xffff_ffff) by (nonlinear_arith)
                requires
                    width <= 0xffff_ffff,
                    height <= 0xffff_ffff,
            ;
        }
        let pixels: u64 = width as u64 * height as u64;
        match self {
            CameraFormat::Nv12 => pixels * 3 / 2,
            CameraFormat::Raw10 => pixels * 5 / 4,
            CameraFormat::Raw16 => pixels * 2,
        }
    }

    /// The name of a format.
    pub fn name(self) -> (r: &'static str)
        ensures
            r@ == format_name(self),
    {
        match self {
            CameraFormat::Nv12 => "Nv12",
            CameraFormat::Raw10 => "Raw10",
            CameraFormat::Raw16 => "Raw16",
        }
    }
}

/// One of the camera's streams.
#[derive(Clone, Copy, Debug)]
pub struct StreamConfig {
    pub width: u32,
    pub height: u32,
    pub format: CameraFormat,
    pub pool_size: usize,
    pub frames: u32,
}

/// A stream of full-size preview images.
pub open spec fn preview_stream() -> StreamConfig {
    StreamConfig { width: 1920, height: 1080, format: CameraFormat::Nv12, pool_size: 8, frames: 30 }
}

impl Default for StreamConfig {
    fn default() -> (r: Self)
        ensures
            r == preview_stream(),
    {
        StreamConfig {
            width: 1920,
            height: 1080,
            format: CameraFormat::Nv12,
            pool_size: 8,
            frames: 30,
        }
    }
}

/// The camera workload's settings.
#[derive(Debug)]
pub struct CameraConfig {
    pub width: u32,
    pub height: u32,
    pub format: CameraFormat,
    pub pool_size: usize,
    pub fps: u32,
    pub frames: u32,
    pub burst_format: CameraFormat,
    pub burst_count: u32,
    pub resolutions: Vec<(u32, u32)>,
    pub streams: Vec<StreamConfig>,
}

/// The camera workload's settings, as values.
#[verifier::ext_equal]
pub ghost struct CameraPlan {
    pub width: u32,
    pub height: u32,
    pub format: CameraFormat,
    pub pool_size: usize,
    pub fps: u32,
    pub frames: u32,
    pub burst_format: CameraFormat,
    pub burst_count: u32,
    pub resolutions: Seq<(u32, u32)>,
    pub streams: Seq<StreamConfig>,
}

impl View for CameraConfig {
    type V = CameraPlan;

    open spec fn view(&self) -> CameraPlan {
        CameraPlan {
            width: self.width,
            height: self.height,
            format: self.format,
            pool_size: self.pool_size,
            fps: self.fps,
            frames: self.frames,
            burst_format: self.burst_format,
            burst_count: self.burst_count,
            resolutions: self.resolutions@,
            streams: self.streams@,
        }
    }
}

/// The settings where none are given.
pub open spec fn camera_defaults() -> CameraPlan {
    CameraPlan {
        width: 1920,
        height: 1080,
        format: CameraFormat::Nv12,
        pool_size: 8,
        fps: 30,
        frames: 100,
        burst_format: CameraFormat::Raw16,
        burst_count: 10,
        resolutions: seq![(1920u32, 1080u32), (4000u32, 3000u32), (1920u32, 1080u32)],
        streams: seq![
            preview_stream(),
            (StreamConfig { width: 1280, height: 720, pool_size: 6, ..preview_stream() }),
            (StreamConfig {
                width: 640,
                height: 480,
                format: CameraFormat::Raw10,
                pool_size: 4,
                frames: 30,
            }),
        ],
    }
}

impl Default for CameraConfig {
    fn default() -> (r: Self)
        ensures
            r@ == camera_defaults(),
    {
        let resolutions: Vec<(u32, u32)> = vec![(1920u32, 1080u32), (4000u32, 3000u32), (1920u32, 1080u32)];
        let streams: Vec<StreamConfig> = vec![
            StreamConfig::default(),
            StreamConfig {
                width: 1280,
                height: 720,
                format: CameraFormat::Nv12,
                pool_size: 6,
                frames: 30,
            },
            StreamConfig {
                width: 640,
                height: 480,
                format: CameraFormat::Raw10,
                pool_size: 4,
                frames: 30,
            },
        ];
        let r = CameraConfig {
            width: 1920,
            height: 1080,
            format: CameraFormat::Nv12,
            pool_size: 8,
            fps: 30,
            frames: 100,
            burst_format: CameraFormat::Raw16,
            burst_count: 10,
            resolutions,
            streams,
        };
        assert(r@ =~= camera_defaults());
        r
    }
}

/// A copy of plain values.
pub fn copied<T: Copy>(v: &Vec<T>) -> (r: Vec<T>)
    ensures
        r@ == v@,
{
    let mut r: Vec<T> = Vec::new();
    let mut i: usize = 0;
    while i < v.len()
        invariant
            i <= v@.len(),
            r@ == v@.take(i as int),
        decreases v@.len() - i,
    {
        r.push(v[i]);
        i = i + 1;
        assert(r@ =~= v@.take(i as int));
    }
    assert(v@.take(v@.len() as int) =~= v@);
    r
}

impl Clone for CameraConfig {
    fn clone(&self) -> (r: Self)
        ensures
            r@ == self@,
    {
        CameraConfig {
            width: self.width,
            height: self.height,
            format: self.format,
            pool_size: self.pool_size,
            fps: self.fps,
            frames: self.frames,
            burst_format: self.burst_format,
            burst_count: self.burst_count,
            resolutions: copied(&self.resolutions),
            streams: copied(&self.streams),
        }
    }
}

/// Whether the images of a configuration have sizes that fit.
pub open spec fn sizes_fit(c: CameraPlan) -> bool {
    &&& c.width * c.height * multiplier(c.format) <= u64::MAX
    &&& forall|i: int|
        0 <= i < c.resolutions.len() ==> (#[trigger] c.resolutions[i]).0 * c.resolutions[i].1
            * multiplier(c.format) <= u64::MAX
    &&& forall|i: int|
        0 <= i < c.streams.len() ==> (#[trigger] c.streams[i]).width * c.streams[i].height
            * multiplier(c.streams[i].format) <= u64::MAX
}

/// Sizes in brackets, as a list of pairs.
pub open spec fn pairs_text(v: Seq<(u32, u32)>) -> Seq<char>
    decreases v.len(),
{
    if v.len() == 0 {
        Seq::empty()
    } else {
        pairs_text(v.drop_last()) + (if v.len() > 1 {
            ", ("@
        } else {
            "("@
        }) + dec(v.last().0 as nat) + ", "@ + dec(v.last().1 as nat) + ")"@
    }
}

fn push_pairs(out: &mut String, v: &Vec<(u32, u32)>)
    ensures
        final(out)@ == old(out)@ + pairs_text(v@),
{
    let ghost start = out@;
    let mut i: usize = 0;
    assert(v@.take(0) =~= Seq::empty());
    assert(start + Seq::<char>::empty() =~= start);
    while i < v.len()
        invariant
            i <= v@.len(),
            out@ == start + pairs_text(v@.take(i as int)),
        decreases v@.len() - i,
    {
        broadcast use group_concat;

        if i > 0 {
            out.append(", (");
        } else {
            out.append("(");
        }
        push_dec(out, v[i].0 as u64);
        out.append(", ");
        push_dec(out, v[i].1 as u64);
        out.append(")");
        proof {
            assert(v@.take(i + 1).drop_last() =~= v@.take(i as int));
        }
        i = i + 1;
    }
    assert(v@.take(v@.len() as int) =~= v@);
}

/// What the intro says of each stream.
pub open spec fn streams_text(v: Seq<StreamConfig>) -> Seq<char>
    decreases v.len(),
{
    if v.len() == 0 {
        Seq::empty()
    } else {
        let s = v.last();
        streams_text(v.drop_last()) + "    stream "@ + dec((v.len() - 1) as nat) + ": "@ + dec(
            s.width as nat,
        ) + "x"@ + dec(s.height as nat) + " "@ + format_name(s.format) + " pool="@ + dec(
            s.pool_size as nat,
        ) + " frames="@ + dec(s.frames as nat) + "\n"@
    }
}

fn push_streams(out: &mut String, v: &Vec<StreamConfig>)
    ensures
        final(out)@ == old(out)@ + streams_text(v@),
{
    let ghost start = out@;
    let mut i: usize = 0;
    assert(v@.take(0) =~= Seq::empty());
    assert(start + Seq::<char>::empty() =~= start);
    while i < v.len()
        invariant
            i <= v@.len(),
            out@ == start + streams_text(v@.take(i as int)),
        decreases v@.len() - i,
    {
        broadcast use group_concat;

        let s: StreamConfig = v[i];
        out.append("    stream ");
        push_dec(out, i as u64);
        out.append(": ");
        push_dec(out, s.width as u64);
        out.append("x");
        push_dec(out, s.height as u64);
        out.append(" ");
        out.append(s.format.name());
        out.append(" pool=");
        push_dec(out, s.pool_size as u64);
        out.append(" frames=");
        push_dec(out, s.frames as u64);
        out.append("\n");
        proof {
            assert(v@.take(i + 1).drop_last() =~= v@.take(i as int));
        }
        i = i + 1;
    }
    assert(v@.take(v@.len() as int) =~= v@);
}

/// What is told before the workload: its settings.
pub open spec fn settings_text(heap: Seq<char>, c: CameraPlan) -> Seq<char> {
    "scenario camera sequence:\n  heap: "@ + heap + "\n  preview: "@ + dec(c.width as nat) + "x"@
        + dec(c.height as nat) + " "@ + format_name(c.format) + " (buf_size: "@ + dec(
        image_size(c.format, c.width as nat, c.height as nat),
    ) + ")\n  pool_size: "@ + dec(c.pool_size as nat) + ", fps: "@ + dec(c.fps as nat)
        + ", frames: "@ + dec(c.frames as nat) + "\n  burst: "@ + format_name(c.burst_format)
        + " x "@ + dec(c.burst_count as nat) + " (buf_size: "@ + dec(
        image_size(c.burst_format, 4000, 3000),
    ) + ")\n  resolutions: ["@ + pairs_text(c.resolutions) + "]\n  streams: "@ + dec(
        c.streams.len(),
    ) + " concurrent\n"@ + streams_text(c.streams) + "\n"@
}

/// What is told before the workload: its phases.
pub open spec fn phases_text(c: CameraPlan) -> Seq<char> {
    "  phase 1: preview       alloc "@ + dec(c.pool_size as nat) + "-buffer pool, cycle "@ + dec(
        c.frames as nat,
    ) + " frames with mmap+write\n  phase 2: capture       burst alloc "@ + dec(
        c.burst_count as nat,
    ) + " x high-res "@ + format_name(c.burst_format)
        + " buffers, measure close latency\n  phase 3: switch        "@ + dec(c.resolutions.len())
        + " resolution transitions, realloc pool each time\n  phase 4: multi_stream  "@ + dec(
        c.streams.len(),
    )
        + " concurrent streams with independent buffer pools\n  cleanup: release all pools\n\n"@
}

/// What the words of the results mean.
pub open spec fn legend_text() -> Seq<char> {
    "scenario camera result legend:\n  buf_size        per-frame buffer size (bytes)\n  pool_size       number of buffers in rotation pool\n  capture_size    burst capture buffer size\n  close_us        time to release all burst buffers\n  p50/p95_us      per-frame or per-switch latency percentiles\n  max_us          worst-case alloc latency in burst\n  stream_id       concurrent stream thread index\n\n"@
}

/// What is told before the workload.
pub fn sequence(heap: &str, config: &CameraConfig) -> (s: String)
    requires
        sizes_fit(config@),
    ensures
        s@ == settings_text(heap@, config@) + phases_text(config@) + legend_text(),
{
    let mut s = String::new();
    push_settings(&mut s, heap, config);
    push_phases(&mut s, config);
    s.append(
        "scenario camera result legend:\n  buf_size        per-frame buffer size (bytes)\n  pool_size       number of buffers in rotation pool\n  capture_size    burst capture buffer size\n  close_us        time to release all burst buffers\n  p50/p95_us      per-frame or per-switch latency percentiles\n  max_us          worst-case alloc latency in burst\n  stream_id       concurrent stream thread index\n\n",
    );
    assert(Seq::<char>::empty() + settings_text(heap@, config@) =~= settings_text(
        heap@,
        config@,
    ));
    s
}

fn push_settings(s: &mut String, heap: &str, config: &CameraConfig)
    requires
        sizes_fit(config@),
    ensures
        final(s)@ == old(s)@ + settings_text(heap@, config@),
{
    broadcast use group_concat;

    s.append("scenario camera sequence:\n  heap: ");
    s.append(heap);
    s.append("\n  preview: ");
    push_dec(s, config.width as u64);
    s.append("x");
    push_dec(s, config.height as u64);
    s.append(" ");
    s.append(config.format.name());
    s.append(" (buf_size: ");
    push_dec(s, config.format.buffer_size(config.width, config.height));
    s.append(")\n  pool_size: ");
    push_dec(s, config.pool_size as u64);
    s.append(", fps: ");
    push_dec(s, config.fps as u64);
    s.append(", frames: ");
    push_dec(s, config.frames as u64);
    s.append("\n  burst: ");
    s.append(config.burst_format.name());
    s.append(" x ");
    push_dec(s, config.burst_count as u64);
    s.append(" (buf_size: ");
    push_dec(s, config.burst_format.buffer_size(4000, 3000));
    s.append(")\n  resolutions: [");
    push_pairs(s, &config.resolutions);
    s.append("]\n  streams: ");
    push_dec(s, config.streams.len() as u64);
    s.append(" concurrent\n");
    push_streams(s, &config.streams);
    s.append("\n");
}

fn push_phases(s: &mut String, config: &CameraConfig)
    ensures
        final(s)@ == old(s)@ + phases_text(config@),
{
    broadcast use group_concat;

    s.append("  phase 1: preview       alloc ");
    push_dec(s, config.pool_size as u64);
    s.append("-buffer pool, cycle ");
    push_dec(s, config.frames as u64);
    s.append(" frames with mmap+write\n  phase 2: capture       burst alloc ");
    push_dec(s, config.burst_count as u64);
    s.append(" x high-res ");
    s.append(config.burst_format.name());
    s.append(" buffers, measure close latency\n  phase 3: switch        ");
    push_dec(s, config.resolutions.len() as u64);
    s.append(" resolution transitions, realloc pool each time\n  phase 4: multi_stream  ");
    push_dec(s, config.streams.len() as u64);
    s.append(" concurrent streams with independent buffer pools\n  cleanup: release all pools\n\n");
}

/// What is told of the preview.
pub fn preview_line(buf_size: u64, pool_size: usize, stats: &LatencyStats) -> (s: String)
    ensures
        s@ == "scenario camera: preview buf_size="@ + dec(buf_size as nat) + " pool_size="@ + dec(
            pool_size as nat,
        ) + " p50_us="@ + dec(stats.p50_us as nat) + " p95_us="@ + dec(stats.p95_us as nat),
{
    broadcast use group_concat;

    let mut s = String::new();
    s.append("scenario camera: preview buf_size=");
    push_dec(&mut s, buf_size);
    s.append(" pool_size=");
    push_dec(&mut s, pool_size as u64);
    s.append(" p50_us=");
    push_dec(&mut s, stats.p50_us);
    s.append(" p95_us=");
    push_dec(&mut s, stats.p95_us);
    s
}

/// What is told of the burst.
pub fn capture_line(capture_size: u64, count: u32, stats: &LatencyStats) -> (s: String)
    ensures
        s@ == "scenario camera: capture capture_size="@ + dec(capture_size as nat)
            + " burst_count="@ + dec(count as nat) + " p50_us="@ + dec(stats.p50_us as nat)
            + " p95_us="@ + dec(stats.p95_us as nat) + " max_us="@ + dec(stats.max_us as nat),
{
    broadcast use group_concat;

    let mut s = String::new();
    s.append("scenario camera: capture capture_size=");
    push_dec(&mut s, capture_size);
    s.append(" burst_count=");
    push_dec(&mut s, count as u64);
    s.append(" p50_us=");
    push_dec(&mut s, stats.p50_us);
    s.append(" p95_us=");
    push_dec(&mut s, stats.p95_us);
    s.append(" max_us=");
    push_dec(&mut s, stats.max_us);
    s
}

/// What is told of the release of the burst.
pub fn capture_release_line(us: u64) -> (s: String)
    ensures
        s@ == "scenario camera: capture_release close_us="@ + dec(us as nat),
{
    broadcast use group_concat;

    let mut s = String::new();
    s.append("scenario camera: capture_release close_us=");
    push_dec(&mut s, us);
    s
}

/// What is told of a change of resolution; phases count from one.
pub fn switch_line(
    index: usize,
    width: u32,
    height: u32,
    buf_size: u64,
    alloc_us: u64,
    stats: &LatencyStats,
) -> (s: String)
    requires
        index < usize::MAX,
    ensures
        s@ == "scenario camera: switch phase="@ + dec((index + 1) as nat) + " width="@ + dec(
            width as nat,
        ) + " height="@ + dec(height as nat) + " buf_size="@ + dec(buf_size as nat)
            + " alloc_us="@ + dec(alloc_us as nat) + " p50_us="@ + dec(stats.p50_us as nat),
{
    broadcast use group_concat;

    let mut s = String::new();
    s.append("scenario camera: switch phase=");
    push_dec(&mut s, (index + 1) as u64);
    s.append(" width=");
    push_dec(&mut s, width as u64);
    s.append(" height=");
    push_dec(&mut s, height as u64);
    s.append(" buf_size=");
    push_dec(&mut s, buf_size);
    s.append(" alloc_us=");
    push_dec(&mut s, alloc_us);
    s.append(" p50_us=");
    push_dec(&mut s, stats.p50_us);
    s
}

/// What is told of a stream.
pub fn stream_line(id: usize, frames: usize, stats: &LatencyStats) -> (s: String)
    ensures
        s@ == "scenario camera: multi_stream stream_id="@ + dec(id as nat) + " frames="@ + dec(
            frames as nat,
        ) + " p50_us="@ + dec(stats.p50_us as nat) + " p95_us="@ + dec(stats.p95_us as nat),
{
    broadcast use group_concat;

    let mut s = String::new();
    s.append("scenario camera: multi_stream stream_id=");
    push_dec(&mut s, id as u64);
    s.append(" frames=");
    push_dec(&mut s, frames as u64);
    s.append(" p50_us=");
    push_dec(&mut s, stats.p50_us);
    s.append(" p95_us=");
    push_dec(&mut s, stats.p95_us);
    s
}

/// A picture takes one and a half, one and a quarter, or two bytes for each pixel, without a
/// fraction.
pub proof fn law_bytes_per_pixel(width: nat, height: nat)
    ensures
        2 * image_size(CameraFormat::Nv12, width, height) <= 3 * (width * height) < 2 * image_size(
            CameraFormat::Nv12,
            width,
            height,
        ) + 2,
        4 * image_size(CameraFormat::Raw10, width, height) <= 5 * (width * height) < 4
            * image_size(CameraFormat::Raw10, width, height) + 4,
        image_size(CameraFormat::Raw16, width, height) == 2 * (width * height),
{
    let n = width * height;
    assert(n * 3 / 2 * 2 <= 3 * n < n * 3 / 2 * 2 + 2);
    assert(n * 5 / 4 * 4 <= 5 * n < n * 5 / 4 * 4 + 4);
}

} // verus!
