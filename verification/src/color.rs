//! Tone mapping of an accumulated sample sum to an 8-bit color triple.

use vstd::prelude::*;

use crate::fixed::{clamp_s, fx_clamp, fx_div_s, fx_sqrt, fx_sqrt_s, FX_ONE};
use crate::vec3::{vdiv_s, Vec3};

verus! {

/// Upper clamp of a tone-mapped channel: 0.999 in fixed point, so that the
/// final scaling never reaches 256.
pub const MAX_PERC: i64 = 65470;

/// Every channel lies within the unit interval of the fixed-point scale.
pub open spec fn color_in_range_s(v: Vec3) -> bool {
    0 <= v.x <= FX_ONE && 0 <= v.y <= FX_ONE && 0 <= v.z <= FX_ONE
}

pub open spec fn black_s() -> Vec3 {
    Vec3 { x: 0, y: 0, z: 0 }
}

pub open spec fn white_s() -> Vec3 {
    Vec3 { x: FX_ONE, y: FX_ONE, z: FX_ONE }
}

/// The zenith color of the background gradient: (0.5, 0.7, 1.0).
pub open spec fn sky_blue_s() -> Vec3 {
    Vec3 { x: 32768, y: 45875, z: FX_ONE }
}

pub fn black() -> (r: Vec3)
    ensures
        r == black_s(),
{
    Vec3 { x: 0, y: 0, z: 0 }
}

pub fn white() -> (r: Vec3)
    ensures
        r == white_s(),
{
    Vec3 { x: FX_ONE, y: FX_ONE, z: FX_ONE }
}

pub fn sky_blue() -> (r: Vec3)
    ensures
        r == sky_blue_s(),
{
    Vec3 { x: 32768, y: 45875, z: FX_ONE }
}

/// One channel of the tone curve: gamma-correct by square root, clamp to
/// [0, 0.999], and scale to an integer below 256.
pub open spec fn channel_s(v: int) -> u8 {
    (clamp_s(fx_sqrt_s(v), 0, MAX_PERC as int) / 256) as u8
}

/// The 8-bit triple for a pixel whose samples sum to `c`.
pub open spec fn get_color_s(c: Vec3, samples: int) -> (u8, u8, u8) {
    let scaled = vdiv_s(c, samples * (FX_ONE as int));
    (channel_s(scaled.x as int), channel_s(scaled.y as int), channel_s(scaled.z as int))
}

fn channel(v: i64) -> (r: u8)
    ensures
        r == channel_s(v as int),
        r <= 255,
{
    let s: i64 = fx_sqrt(v);
    let c: i64 = fx_clamp(s, 0, MAX_PERC);
    proof {
        vstd::arithmetic::div_mod::lemma_div_is_ordered(c as int, MAX_PERC as int, 256);
    }
    ((c as u64) / 256) as u8
}

/// Average the accumulated color over its sample count and tone-map each
/// channel to `[0, 255]`.
pub fn get_color(pixel_color: Vec3, samples_per_pixel: i64) -> (rgb: (u8, u8, u8))
    requires
        1 <= samples_per_pixel <= 0x40000000,
    ensures
        rgb == get_color_s(pixel_color, samples_per_pixel as int),
{
    let denom: i64 = samples_per_pixel * FX_ONE;
    let scaled = pixel_color.div(denom);
    (channel(scaled.x), channel(scaled.y), channel(scaled.z))
}

} // verus!
