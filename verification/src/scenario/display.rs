//! The display workload: flipping, rotation, layers.
use vstd::prelude::*;

verus! {

/// The bytes of a pixel of the screen.
const BPP_ARGB8888: u64 = 4;

/// The display workload's settings.
#[derive(Clone, Copy, Debug)]
pub struct DisplayConfig {
    pub width: u32,
    pub height: u32,
    pub buffers: usize,
    pub fps: u32,
    pub frames: u32,
    pub rotation_cycles: u32,
    pub layers: usize,
}

/// The settings where none are given.
pub open spec fn display_defaults() -> DisplayConfig {
    DisplayConfig {
        width: 1440,
        height: 3200,
        buffers: 3,
        fps: 60,
        frames: 120,
        rotation_cycles: 20,
        layers: 6,
    }
}

impl Default for DisplayConfig {
    fn default() -> (r: Self)
        ensures
            r == display_defaults(),
    {
        DisplayConfig {
            width: 1440,
            height: 3200,
            buffers: 3,
            fps: 60,
            frames: 120,
            rotation_cycles: 20,
            layers: 6,
        }
    }
}

/// The bytes of a screen: four for each pixel.
pub open spec fn screen(width: nat, height: nat) -> nat {
    width * height * 4
}

/// The bytes of a screen.
pub fn framebuffer_size(width: u32, height: u32) -> (r: u64)
    requires
        width * height * 4 <= u64::MAX,
    ensures
        r == screen(width as nat, height as nat),
{
    proof {
        assert(width * height <= 0xffff_ffff * 0xffff_ffff) by (nonlinear_arith)
            requires
                width <= 0xffff_ffff,
                height <= 0xffff_ffff,
        ;
    }
    width as u64 * height as u64 * BPP_ARGB8888
}

/// By what the height of a layer is divided: nothing for the first, then two, four,
/// eight and sixteen.
pub open spec fn layer_divisor(i: nat) -> nat {
    if i == 0 {
        1
    } else if i == 1 {
        2
    } else if i == 2 {
        4
    } else if i == 3 {
        8
    } else {
        16
    }
}

/// The bytes of a layer: the whole screen, or a part of its height.
pub open spec fn layer(c: DisplayConfig, i: nat) -> nat {
    screen(c.width as nat, c.height as nat / layer_divisor(i))
}

/// The bytes of a layer.
pub fn layer_size(c: &DisplayConfig, i: usize) -> (r: u64)
    requires
        c.width * c.height * 4 <= u64::MAX,
    ensures
        r == layer(*c, i as nat),
{
    let divisor: u32 = if i == 0 {
        1
    } else if i == 1 {
        2
    } else if i == 2 {
        4
    } else if i == 3 {
        8
    } else {
        16
    };
    let height: u32 = c.height / divisor;
    proof {
        assert(c.width * height * 4 <= c.width * c.height * 4) by (nonlinear_arith)
            requires
                height <= c.height,
        ;
    }
    framebuffer_size(c.width, height)
}

/// The bytes of a screen in a cycle: upright in even ones, lying in odd ones.
pub open spec fn turned(c: DisplayConfig, cycle: nat) -> nat {
    if cycle % 2 == 0 {
        screen(c.width as nat, c.height as nat)
    } else {
        screen(c.height as nat, c.width as nat)
    }
}

/// The bytes of a screen in a cycle.
pub fn turned_size(c: &DisplayConfig, cycle: u32) -> (r: u64)
    requires
        c.width * c.height * 4 <= u64::MAX,
    ensures
        r == turned(*c, cycle as nat),
{
    if cycle % 2 == 0 {
        framebuffer_size(c.width, c.height)
    } else {
        proof {
            assert(c.height * c.width == c.width * c.height) by (nonlinear_arith);
        }
        framebuffer_size(c.height, c.width)
    }
}

/// Turning a screen changes nothing about its size.
pub proof fn law_turning_keeps_size(c: DisplayConfig, cycle: nat)
    ensures
        turned(c, cycle) == screen(c.width as nat, c.height as nat),
{
    assert(c.height as nat * c.width as nat == c.width as nat * c.height as nat)
        by (nonlinear_arith);
}

/// No layer is larger than one before it.
pub proof fn law_layers_shrink(c: DisplayConfig, i: nat, j: nat)
    requires
        i <= j,
    ensures
        layer(c, j) <= layer(c, i),
{
    let h = c.height as nat;
    assert(h / layer_divisor(j) <= h / layer_divisor(i));
    let a = h / layer_divisor(j);
    let b = h / layer_divisor(i);
    assert(c.width as nat * a * 4 <= c.width as nat * b * 4) by (nonlinear_arith)
        requires
            a <= b,
    ;
}

/// A screen takes four bytes for each pixel, the first layer is the whole screen, and each of
/// the next four is half as high as the one before.
pub proof fn law_layers_halve(c: DisplayConfig, i: nat)
    requires
        i < 4,
    ensures
        screen(c.width as nat, c.height as nat) == 4 * (c.width * c.height),
        layer(c, 0) == screen(c.width as nat, c.height as nat),
        layer_divisor(i + 1) == 2 * layer_divisor(i),
        layer_divisor(4 + i) == 16,
{
    let w = c.width as nat;
    let h = c.height as nat;
    assert(w * h * 4 == 4 * (w * h)) by (nonlinear_arith);
    assert(h / 1 == h);
}

} // verus!
