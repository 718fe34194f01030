//! The video workload: a pool of decoded pictures, changes of resolution, transcoding.
use crate::scenario::camera::copied;
use vstd::prelude::*;

verus! {

/// The bytes of an NV12 picture: one and a half for each pixel.
pub open spec fn nv12(width: nat, height: nat) -> nat {
    (width * height * 3 / 2) as nat
}

/// The bytes of an NV12 picture.
pub fn nv12_size(width: u32, height: u32) -> (r: u64)
    requires
        width * height * 3 <= u64::MAX,
    ensures
        r == nv12(width as nat, height as nat),
{
    proof {
        assert(width * height <= 0xffff_ffff * 0xffff_ffff) by (nonlinear_arith)
            requires
                width <= 0xffff_ffff,
                height <= 0xffff_ffff,
        ;
    }
    width as u64 * height as u64 * 3 / 2
}

/// The video workload's settings.
#[derive(Debug)]
pub struct CodecConfig {
    pub width: u32,
    pub height: u32,
    pub dpb_size: usize,
    pub fps: u32,
    pub frames: u32,
    pub resolutions: Vec<(u32, u32)>,
}

/// The video workload's settings, as values.
#[verifier::ext_equal]
pub ghost struct CodecPlan {
    pub width: u32,
    pub height: u32,
    pub dpb_size: usize,
    pub fps: u32,
    pub frames: u32,
    pub resolutions: Seq<(u32, u32)>,
}

impl View for CodecConfig {
    type V = CodecPlan;

    open spec fn view(&self) -> CodecPlan {
        CodecPlan {
            width: self.width,
            height: self.height,
            dpb_size: self.dpb_size,
            fps: self.fps,
            frames: self.frames,
            resolutions: self.resolutions@,
        }
    }
}

/// The settings where none are given.
pub open spec fn codec_defaults() -> CodecPlan {
    CodecPlan {
        width: 3840,
        height: 2160,
        dpb_size: 16,
        fps: 30,
        frames: 60,
        resolutions: seq![
            (1280u32, 720u32),
            (1920u32, 1080u32),
            (3840u32, 2160u32),
            (1920u32, 1080u32),
        ],
    }
}

impl Default for CodecConfig {
    fn default() -> (r: Self)
        ensures
            r@ == codec_defaults(),
    {
        let r = CodecConfig {
            width: 3840,
            height: 2160,
            dpb_size: 16,
            fps: 30,
            frames: 60,
            resolutions: vec![
                (1280u32, 720u32),
                (1920u32, 1080u32),
                (3840u32, 2160u32),
                (1920u32, 1080u32),
            ],
        };
        assert(r@ =~= codec_defaults());
        r
    }
}

impl Clone for CodecConfig {
    fn clone(&self) -> (r: Self)
        ensures
            r@ == self@,
    {
        CodecConfig {
            width: self.width,
            height: self.height,
            dpb_size: self.dpb_size,
            fps: self.fps,
            frames: self.frames,
            resolutions: copied(&self.resolutions),
        }
    }
}

/// A picture takes one and a half bytes for each pixel, without a fraction.
pub proof fn law_bytes_per_pixel(width: nat, height: nat)
    ensures
        2 * nv12(width, height) <= 3 * (width * height) < 2 * nv12(width, height) + 2,
{
    let n = width * height;
    assert(n * 3 / 2 * 2 <= 3 * n < n * 3 / 2 * 2 + 2);
}

} // verus!
