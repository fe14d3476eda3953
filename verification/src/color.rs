//! Pixel encoding: averaging a pixel's sample sum and clamp-encoding it to
//! 8-bit channels.

use vstd::prelude::*;

use crate::fixed::div_t;
use crate::fixed::div_i128;
use crate::fixed::lemma_div_t_bounds;
use crate::fixed::lemma_div_t_mono;
use crate::vec3::Vec3;

verus! {

/// `x` forced into `[min, max]`.
pub open spec fn clamp_s(x: int, min: int, max: int) -> int {
    if x < min {
        min
    } else if max < x {
        max
    } else {
        x
    }
}

/// `x` forced into `[min, max]`.
pub fn clamp(x: i64, min: i64, max: i64) -> (r: i64)
    ensures
        r == clamp_s(x as int, min as int, max as int),
{
    if x < min {
        min
    } else if max < x {
        max
    } else {
        x
    }
}

/// One encoded 8-bit channel: the sample sum averaged over `n` samples,
/// clamped just below one full unit, then scaled to 256 steps and truncated.
pub open spec fn channel_s(sum: int, n: int) -> int {
    div_t(clamp_s(div_t(sum, n), 0, 65470) * 256, 65536)
}

/// Encode a pixel's accumulated sample colors as 8-bit RGB. The clamp
/// ceiling sits just below one unit so no channel can reach 256.
pub fn write_color(color: Vec3, sample_per_pixel: u32) -> (r: (u8, u8, u8))
    requires
        1 <= sample_per_pixel,
        color.bounded(0x4000_0000_0000),
    ensures
        r.0 as int == channel_s(color.x as int, sample_per_pixel as int),
        r.1 as int == channel_s(color.y as int, sample_per_pixel as int),
        r.2 as int == channel_s(color.z as int, sample_per_pixel as int),
{
    let ir = encode_channel(color.x, sample_per_pixel);
    let ig = encode_channel(color.y, sample_per_pixel);
    let ib = encode_channel(color.z, sample_per_pixel);
    (ir, ig, ib)
}

/// One channel of `write_color`.
fn encode_channel(sum: i64, n: u32) -> (r: u8)
    requires
        1 <= n,
        -0x4000_0000_0000 <= sum <= 0x4000_0000_0000,
    ensures
        r as int == channel_s(sum as int, n as int),
{
    let avg: i64 = div_i128(sum as i128, n as i128) as i64;
    proof {
        lemma_div_t_bounds(sum as int, n as int);
    }
    let cl: i64 = clamp(avg, 0, 65470);
    let byte: i64 = div_i128((cl as i128) * 256, 65536) as i64;
    proof {
        lemma_div_t_bounds(cl as int * 256, 65536);
        lemma_div_t_mono(cl as int * 256, 16760320, 65536);
        assert(div_t(16760320, 65536) == 255);
        assert(65470 * 256 == 16760320);
    }
    byte as u8
}

} // verus!
