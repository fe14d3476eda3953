//! Material kinds and the Schlick reflectance approximation.

use vstd::prelude::*;

use crate::fixed::div_t;
use crate::fixed::div_i128;
use crate::fixed::fmul_s;
use crate::fixed::lemma_div_t_bounds;
use crate::fixed::lemma_div_t_size;
use crate::fixed::lemma_div_t_mono;
use crate::fixed::lemma_div_t_exact;
use crate::fixed::lemma_mul_le;
use crate::fixed::SCALE;

verus! {

/// The closed set of surface materials. `Unset` marks a surface built
/// without a material; it renders as a flagged color, never silently.
#[derive(Clone, Copy, Debug, PartialEq, Eq, Structural)]
pub enum Material {
    Lambertian,
    Metal,
    Dielectric,
    Unset,
}

/// The fifth power.
pub open spec fn pow5(x: int) -> int {
    x * x * x * x * x
}

/// The base reflectance `((1 - idx) / (1 + idx))^2` of the Schlick
/// approximation, squared by a fixed-point product.
pub open spec fn schlick_r0(ref_idx: int) -> int {
    let r0 = div_t(((SCALE as int) - ref_idx) * (SCALE as int), (SCALE as int) + ref_idx);
    fmul_s(r0, r0)
}

/// Schlick reflectance: `r0 + (1 - r0) (1 - cos)^5`, with `(1 - cos)^5`
/// carrying five scale factors that one division removes.
pub open spec fn schlick_s(cosine: int, ref_idx: int) -> int {
    let r1 = schlick_r0(ref_idx);
    r1 + div_t(
        ((SCALE as int) - r1) * pow5((SCALE as int) - cosine),
        0x1_0000_0000_0000_0000_0000,
    )
}

/// The base reflectance lies in `[0, 1]`.
pub proof fn lemma_schlick_r0_range(ref_idx: int)
    requires
        0 <= ref_idx <= 4 * (SCALE as int),
    ensures
        0 <= schlick_r0(ref_idx) <= SCALE as int,
{
    let s = SCALE as int;
    let num = (s - ref_idx) * s;
    assert(-(s * (s + ref_idx)) <= num <= s * (s + ref_idx)) by (nonlinear_arith)
        requires 0 <= ref_idx && s == 65536 && num == (s - ref_idx) * s;
    lemma_div_t_size(num, s + ref_idx, s);
    let r0 = div_t(num, s + ref_idx);
    assert(0 <= r0 * r0 <= s * s) by (nonlinear_arith)
        requires -s <= r0 <= s;
    lemma_div_t_bounds(r0 * r0, s);
    lemma_div_t_mono(r0 * r0, s * s, s);
    lemma_div_t_exact(s, s);
    assert(s * s == s * s);
}

impl Material {
    /// Schlick's reflectance approximation for view cosine `cosine` and
    /// refractive-index ratio `ref_idx`.
    pub fn shlick(cosine: i64, ref_idx: i64) -> (r: i64)
        requires
            -0x10_0000 <= cosine <= SCALE as int,
            0 <= ref_idx <= 4 * (SCALE as int),
        ensures
            r == schlick_s(cosine as int, ref_idx as int),
            0 <= r,
    {
        let s128: i128 = SCALE as i128;
        proof {
            lemma_schlick_r0_range(ref_idx as int);
            assert(-(65536 * (65536 + ref_idx)) <= (65536 - ref_idx) * 65536 <= 65536 * (65536
                + ref_idx)) by (nonlinear_arith)
                requires 0 <= ref_idx;
            lemma_div_t_size((65536 - ref_idx) * 65536, 65536 + ref_idx as int, 65536);
        }
        let r0: i128 = div_i128((s128 - ref_idx as i128) * s128, s128 + ref_idx as i128);
        proof {
            lemma_mul_le(r0 as int, 65536, r0 as int, 65536);
            lemma_div_t_size((r0 as int) * (r0 as int), 65536, 65536);
        }
        let r1: i128 = div_i128(r0 * r0, s128);
        let x: i128 = s128 - cosine as i128;
        proof {
            lemma_mul_le(x as int, 0x11_0000, x as int, 0x11_0000);
            lemma_mul_le((x as int) * (x as int), 0x121_0000_0000, (x as int) * (x as int),
                0x121_0000_0000);
            lemma_mul_le(
                (x as int) * (x as int) * ((x as int) * (x as int)),
                0x1_4641_0000_0000_0000_0000,
                x as int,
                0x11_0000,
            );
        }
        let x2: i128 = x * x;
        let x4: i128 = x2 * x2;
        let x5: i128 = x4 * x;
        proof {
            assert(x5 == pow5(x as int)) by (nonlinear_arith)
                requires x2 == (x as int) * (x as int) && x4 == x2 * x2 && x5 == x4 * x;
            assert(0 <= x5 <= 0x15_AA51_0000_0000_0000_0000_0000) by (nonlinear_arith)
                requires x5 == pow5(x as int) && 0 <= x <= 0x11_0000;
            lemma_mul_le(65536 - r1 as int, 65536, x5 as int, 0x15_AA51_0000_0000_0000_0000_0000);
            lemma_div_t_size(
                (65536 - r1 as int) * (x5 as int),
                0x1_0000_0000_0000_0000_0000,
                0x15_AA51_0000,
            );
            lemma_div_t_bounds((65536 - r1 as int) * (x5 as int), 0x1_0000_0000_0000_0000_0000);
            assert(0 <= (65536 - r1 as int) * (x5 as int)) by (nonlinear_arith)
                requires r1 <= 65536 && 0 <= x5;
        }
        let term: i128 = div_i128((s128 - r1) * x5, 0x1_0000_0000_0000_0000_0000);
        (r1 + term) as i64
    }
}

/// At head-on view, `cos = 1`, the Schlick reflectance equals the base
/// reflectance exactly: the `(1 - cos)^5` term vanishes.
pub proof fn lemma_schlick_head_on(ref_idx: int)
    requires
        0 <= ref_idx <= 4 * (SCALE as int),
    ensures
        schlick_s(SCALE as int, ref_idx) == schlick_r0(ref_idx),
{
    let s = SCALE as int;
    assert(pow5(s - s) == 0);
    assert((s - schlick_r0(ref_idx)) * 0 == 0) by (nonlinear_arith);
}

/// Schlick reflectance never decreases as the view cosine falls toward a
/// grazing angle.
pub proof fn lemma_schlick_monotone(c1: int, c2: int, ref_idx: int)
    requires
        0 <= c1 <= c2 <= SCALE as int,
        0 <= ref_idx <= 4 * (SCALE as int),
    ensures
        schlick_s(c2, ref_idx) <= schlick_s(c1, ref_idx),
{
    let s = SCALE as int;
    let r1 = schlick_r0(ref_idx);
    lemma_schlick_r0_range(ref_idx);
    let x1 = s - c1;
    let x2 = s - c2;
    assert(0 <= pow5(x2) <= pow5(x1)) by (nonlinear_arith)
        requires 0 <= x2 <= x1;
    assert((s - r1) * pow5(x2) <= (s - r1) * pow5(x1)) by (nonlinear_arith)
        requires 0 <= s - r1 && 0 <= pow5(x2) <= pow5(x1);
    assert(0 <= (s - r1) * pow5(x2)) by (nonlinear_arith)
        requires 0 <= s - r1 && 0 <= pow5(x2);
    lemma_div_t_mono((s - r1) * pow5(x2), (s - r1) * pow5(x1), 0x1_0000_0000_0000_0000_0000);
}

} // verus!
