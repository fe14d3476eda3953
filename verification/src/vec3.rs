//! Three-component fixed-point vectors, used interchangeably as points,
//! directions and RGB colors.
//!
//! Contracts speak of a vector through its view `v3()`, a triple of
//! mathematical integers, and of each operation through a spec function that
//! pins the result exactly, rounding included.

use vstd::prelude::*;

use crate::fixed::div_t;
use crate::fixed::div_i128;
use crate::fixed::fmul_s;
use crate::fixed::fdiv_s;
use crate::fixed::fx_mul;
use crate::fixed::fx_div;
use crate::fixed::isqrt_u128;
use crate::fixed::sqrt_t;
use crate::fixed::lemma_sqrt_t;
use crate::fixed::lemma_div_t_bounds;
use crate::fixed::lemma_div_t_remainder;
use crate::fixed::lemma_div_t_size;
use crate::fixed::lemma_mul_le;
use crate::fixed::lemma_div_t_exact;
use crate::fixed::SCALE;
use crate::rng::random_fixed;

verus! {

/// The dot product of two integer triples.
pub open spec fn dot3(a: (int, int, int), b: (int, int, int)) -> int {
    a.0 * b.0 + a.1 * b.1 + a.2 * b.2
}

/// The squared length of an integer triple.
pub open spec fn lsq3(a: (int, int, int)) -> int {
    dot3(a, a)
}

/// The fixed-point dot product: `dot3` carries two scale factors, so one is
/// divided back out.
pub open spec fn dot_fx3(a: (int, int, int), b: (int, int, int)) -> int {
    div_t(dot3(a, b), SCALE as int)
}

/// The fixed-point cross product, each component rescaled.
pub open spec fn cross3(a: (int, int, int), b: (int, int, int)) -> (int, int, int) {
    (
        div_t(a.1 * b.2 - a.2 * b.1, SCALE as int),
        div_t(a.2 * b.0 - a.0 * b.2, SCALE as int),
        div_t(a.0 * b.1 - a.1 * b.0, SCALE as int),
    )
}

/// The normalisation of `a`: each component is scaled up and divided by the
/// rounded-down length `sqrt_t(lsq3(a))`.
pub open spec fn unit3(a: (int, int, int)) -> (int, int, int) {
    let l = sqrt_t(lsq3(a));
    (
        div_t(a.0 * (SCALE as int), l),
        div_t(a.1 * (SCALE as int), l),
        div_t(a.2 * (SCALE as int), l),
    )
}

/// The mirror reflection `v - 2 (v . n) n`.
pub open spec fn reflect3(v: (int, int, int), n: (int, int, int)) -> (int, int, int) {
    let d = dot_fx3(v, n);
    (
        v.0 - 2 * fmul_s(n.0, d),
        v.1 - 2 * fmul_s(n.1, d),
        v.2 - 2 * fmul_s(n.2, d),
    )
}

/// Snell refraction of the unit incident `uv` at unit normal `n` with index
/// ratio `ratio`: the parallel part is `(uv + n cos) ratio`, the
/// perpendicular part `-n sqrt(1 - |parallel|^2)`, with the radicand held at
/// zero when rounding or total internal reflection drives it negative.
pub open spec fn refract3(uv: (int, int, int), n: (int, int, int), ratio: int) -> (int, int, int) {
    let c = -dot_fx3(uv, n);
    let par = (
        fmul_s(uv.0 + fmul_s(n.0, c), ratio),
        fmul_s(uv.1 + fmul_s(n.1, c), ratio),
        fmul_s(uv.2 + fmul_s(n.2, c), ratio),
    );
    let k = (SCALE as int) - div_t(lsq3(par), SCALE as int);
    let sq = if k <= 0 { 0 } else { sqrt_t(k * (SCALE as int)) };
    (par.0 - fmul_s(n.0, sq), par.1 - fmul_s(n.1, sq), par.2 - fmul_s(n.2, sq))
}

/// A triple of fixed-point scalars.
#[derive(Clone, Copy, Debug)]
pub struct Vec3 {
    pub x: i64,
    pub y: i64,
    pub z: i64,
}

impl Vec3 {
    /// The vector as a triple of mathematical integers.
    pub open spec fn v3(self) -> (int, int, int) {
        (self.x as int, self.y as int, self.z as int)
    }

    /// Every component has magnitude at most `b`.
    pub open spec fn bounded(self, b: int) -> bool {
        -b <= self.x <= b && -b <= self.y <= b && -b <= self.z <= b
    }

    pub fn new(x: i64, y: i64, z: i64) -> (r: Vec3)
        ensures
            r.v3() == (x as int, y as int, z as int),
    {
        Vec3 { x, y, z }
    }

    pub fn x(&self) -> (r: i64)
        ensures
            r == self.x,
    {
        self.x
    }

    pub fn y(&self) -> (r: i64)
        ensures
            r == self.y,
    {
        self.y
    }

    pub fn z(&self) -> (r: i64)
        ensures
            r == self.z,
    {
        self.z
    }

    pub fn r(&self) -> (r: i64)
        ensures
            r == self.x,
    {
        self.x
    }

    pub fn g(&self) -> (r: i64)
        ensures
            r == self.y,
    {
        self.y
    }

    pub fn b(&self) -> (r: i64)
        ensures
            r == self.z,
    {
        self.z
    }

    /// Component-wise sum.
    pub fn add(&self, other: Vec3) -> (r: Vec3)
        requires
            self.bounded(0x2000_0000_0000_0000),
            other.bounded(0x2000_0000_0000_0000),
        ensures
            r.v3() == (self.x + other.x, self.y + other.y, self.z + other.z),
    {
        Vec3 { x: self.x + other.x, y: self.y + other.y, z: self.z + other.z }
    }

    /// Component-wise difference.
    pub fn sub(&self, other: Vec3) -> (r: Vec3)
        requires
            self.bounded(0x2000_0000_0000_0000),
            other.bounded(0x2000_0000_0000_0000),
        ensures
            r.v3() == (self.x - other.x, self.y - other.y, self.z - other.z),
    {
        Vec3 { x: self.x - other.x, y: self.y - other.y, z: self.z - other.z }
    }

    /// Component-wise negation.
    pub fn neg(&self) -> (r: Vec3)
        requires
            self.bounded(0x2000_0000_0000_0000),
        ensures
            r.v3() == (-self.x as int, -self.y as int, -self.z as int),
    {
        Vec3 { x: -self.x, y: -self.y, z: -self.z }
    }

    /// Component-wise fixed-point product (used for color attenuation).
    pub fn mul(&self, other: Vec3) -> (r: Vec3)
        requires
            self.bounded(0x4000_0000),
            other.bounded(0x4000_0000),
        ensures
            r.v3() == (
                fmul_s(self.x as int, other.x as int),
                fmul_s(self.y as int, other.y as int),
                fmul_s(self.z as int, other.z as int),
            ),
    {
        proof {
            lemma_mul_bound_30(self.x as int, other.x as int);
            lemma_mul_bound_30(self.y as int, other.y as int);
            lemma_mul_bound_30(self.z as int, other.z as int);
        }
        Vec3 {
            x: fx_mul(self.x, other.x),
            y: fx_mul(self.y, other.y),
            z: fx_mul(self.z, other.z),
        }
    }

    /// Scaling by a fixed-point scalar.
    pub fn scale(&self, t: i64) -> (r: Vec3)
        requires
            self.bounded(0x4000_0000),
            -0x4000_0000 <= t <= 0x4000_0000,
        ensures
            r.v3() == (
                fmul_s(self.x as int, t as int),
                fmul_s(self.y as int, t as int),
                fmul_s(self.z as int, t as int),
            ),
    {
        proof {
            lemma_mul_bound_30(self.x as int, t as int);
            lemma_mul_bound_30(self.y as int, t as int);
            lemma_mul_bound_30(self.z as int, t as int);
        }
        Vec3 { x: fx_mul(self.x, t), y: fx_mul(self.y, t), z: fx_mul(self.z, t) }
    }

    /// Division by a positive fixed-point scalar.
    pub fn div(&self, t: i64) -> (r: Vec3)
        requires
            self.bounded(0x4000_0000_0000),
            1 <= t,
        ensures
            r.v3() == (
                fdiv_s(self.x as int, t as int),
                fdiv_s(self.y as int, t as int),
                fdiv_s(self.z as int, t as int),
            ),
    {
        Vec3 { x: fx_div(self.x, t), y: fx_div(self.y, t), z: fx_div(self.z, t) }
    }

    /// The fixed-point dot product.
    pub fn dot(&self, other: Vec3) -> (r: i64)
        requires
            self.bounded(0x4000_0000),
            other.bounded(0x4000_0000),
        ensures
            r == dot_fx3(self.v3(), other.v3()),
    {
        let w: i128 = dot_wide(*self, other);
        let q: i128 = div_i128(w, SCALE as i128);
        proof {
            lemma_div_t_size(w as int, SCALE as int, 0xC000_0000_0000);
        }
        q as i64
    }

    /// The fixed-point cross product.
    pub fn cross(&self, other: Vec3) -> (r: Vec3)
        requires
            self.bounded(0x4000_0000),
            other.bounded(0x4000_0000),
        ensures
            r.v3() == cross3(self.v3(), other.v3()),
            r.bounded(0x8000_0000_0000),
    {
        proof {
            lemma_mul_bound_30(self.x as int, other.y as int);
            lemma_mul_bound_30(self.x as int, other.z as int);
            lemma_mul_bound_30(self.y as int, other.x as int);
            lemma_mul_bound_30(self.y as int, other.z as int);
            lemma_mul_bound_30(self.z as int, other.x as int);
            lemma_mul_bound_30(self.z as int, other.y as int);
        }
        let cx: i128 = (self.y as i128) * (other.z as i128) - (self.z as i128) * (other.y as i128);
        let cy: i128 = (self.z as i128) * (other.x as i128) - (self.x as i128) * (other.z as i128);
        let cz: i128 = (self.x as i128) * (other.y as i128) - (self.y as i128) * (other.x as i128);
        let qx: i128 = div_i128(cx, SCALE as i128);
        let qy: i128 = div_i128(cy, SCALE as i128);
        let qz: i128 = div_i128(cz, SCALE as i128);
        proof {
            lemma_div_t_size(cx as int, SCALE as int, 0x8000_0000_0000);
            lemma_div_t_size(cy as int, SCALE as int, 0x8000_0000_0000);
            lemma_div_t_size(cz as int, SCALE as int, 0x8000_0000_0000);
        }
        Vec3 { x: qx as i64, y: qy as i64, z: qz as i64 }
    }

    /// The fixed-point squared length (one scale factor divided back out).
    pub fn length_squared(&self) -> (r: i64)
        requires
            self.bounded(0x4000_0000),
        ensures
            r == div_t(lsq3(self.v3()), SCALE as int),
            0 <= r,
    {
        let w: i128 = dot_wide(*self, *self);
        let q: i128 = div_i128(w, SCALE as i128);
        proof {
            lemma_lsq3_nonneg(self.v3());
            lemma_div_t_size(w as int, SCALE as int, 0xC000_0000_0000);
            lemma_div_t_bounds(w as int, SCALE as int);
        }
        q as i64
    }

    /// The length, exact as the rounded-down square root of the raw squared
    /// length (both scale factors cancel under the root).
    pub fn length(&self) -> (r: i64)
        requires
            self.bounded(0x4000_0000),
        ensures
            r == sqrt_t(lsq3(self.v3())),
            0 <= r <= 0x8000_0000,
    {
        let w: i128 = dot_wide(*self, *self);
        proof {
            lemma_lsq3_nonneg(self.v3());
        }
        let s: u64 = isqrt_u128(w as u128);
        proof {
            assert(s <= 0x8000_0000) by (nonlinear_arith)
                requires
                    (s as int) * (s as int) <= 0x3000_0000_0000_0000,
                    0 <= s;
        }
        s as i64
    }
}

/// The raw dot product, two scale factors wide. Unlike `dot`, nothing is
/// rounded, so its sign is the exact sign of the geometric dot product.
pub fn dot_wide(a: Vec3, b: Vec3) -> (r: i128)
    requires
        a.bounded(0x4000_0000),
        b.bounded(0x4000_0000),
    ensures
        r == dot3(a.v3(), b.v3()),
        -0x3000_0000_0000_0000i128 <= r <= 0x3000_0000_0000_0000i128,
{
    proof {
        lemma_mul_bound_30(a.x as int, b.x as int);
        lemma_mul_bound_30(a.y as int, b.y as int);
        lemma_mul_bound_30(a.z as int, b.z as int);
    }
    (a.x as i128) * (b.x as i128) + (a.y as i128) * (b.y as i128) + (a.z as i128) * (b.z as i128)
}

/// The product of two scalars below `2^30` stays below `2^60`.
proof fn lemma_mul_bound_30(a: int, b: int)
    requires
        -0x4000_0000 <= a <= 0x4000_0000,
        -0x4000_0000 <= b <= 0x4000_0000,
    ensures
        -0x1000_0000_0000_0000 <= a * b <= 0x1000_0000_0000_0000,
{
    assert(-0x1000_0000_0000_0000 <= a * b <= 0x1000_0000_0000_0000) by (nonlinear_arith)
        requires
            -0x4000_0000 <= a <= 0x4000_0000,
            -0x4000_0000 <= b <= 0x4000_0000;
}

/// A squared length is never negative.
pub proof fn lemma_lsq3_nonneg(a: (int, int, int))
    ensures
        lsq3(a) >= 0,
        a.0 * a.0 <= lsq3(a),
        a.1 * a.1 <= lsq3(a),
        a.2 * a.2 <= lsq3(a),
{
    assert(a.0 * a.0 >= 0 && a.1 * a.1 >= 0 && a.2 * a.2 >= 0) by (nonlinear_arith);
}

/// No component outgrows the rounded-down length.
pub proof fn lemma_component_le_sqrt(a: (int, int, int))
    ensures
        -sqrt_t(lsq3(a)) <= a.0 <= sqrt_t(lsq3(a)),
        -sqrt_t(lsq3(a)) <= a.1 <= sqrt_t(lsq3(a)),
        -sqrt_t(lsq3(a)) <= a.2 <= sqrt_t(lsq3(a)),
{
    lemma_lsq3_nonneg(a);
    lemma_sqrt_t(lsq3(a));
    let l = sqrt_t(lsq3(a));
    assert(-l <= a.0 <= l && -l <= a.1 <= l && -l <= a.2 <= l) by (nonlinear_arith)
        requires
            0 <= l,
            a.0 * a.0 <= lsq3(a),
            a.1 * a.1 <= lsq3(a),
            a.2 * a.2 <= lsq3(a),
            lsq3(a) < (l + 1) * (l + 1);
}

/// `v / length(v)`: the normalisation of a non-degenerate vector. Every
/// component of the result is at most one unit in magnitude.
pub fn unit_vector(v: Vec3) -> (r: Vec3)
    requires
        v.bounded(0x4000_0000),
        1 <= lsq3(v.v3()),
    ensures
        r.v3() == unit3(v.v3()),
        r.bounded(SCALE as int),
{
    let w: i128 = dot_wide(v, v);
    let l: u64 = isqrt_u128(w as u128);
    proof {
        lemma_sqrt_t(w as int);
        assert(1 <= l) by (nonlinear_arith)
            requires 1 <= w as int && (w as int) < ((l as int) + 1) * ((l as int) + 1) && 0 <= l;
        lemma_component_le_sqrt(v.v3());
        lemma_scaled_component_bound(v.x as int, l as int);
        lemma_scaled_component_bound(v.y as int, l as int);
        lemma_scaled_component_bound(v.z as int, l as int);
    }
    let qx: i128 = div_i128((v.x as i128) * (SCALE as i128), l as i128);
    let qy: i128 = div_i128((v.y as i128) * (SCALE as i128), l as i128);
    let qz: i128 = div_i128((v.z as i128) * (SCALE as i128), l as i128);
    proof {
        lemma_div_t_size((v.x as int) * (SCALE as int), l as int, SCALE as int);
        lemma_div_t_size((v.y as int) * (SCALE as int), l as int, SCALE as int);
        lemma_div_t_size((v.z as int) * (SCALE as int), l as int, SCALE as int);
    }
    Vec3 { x: qx as i64, y: qy as i64, z: qz as i64 }
}

/// `|c| <= l` gives `|c * SCALE| <= SCALE * l`.
proof fn lemma_scaled_component_bound(c: int, l: int)
    requires
        -l <= c <= l,
        1 <= l,
    ensures
        -(SCALE as int) * l <= c * (SCALE as int) <= (SCALE as int) * l,
{
    assert(-(SCALE as int) * l <= c * (SCALE as int) <= (SCALE as int) * l) by (nonlinear_arith)
        requires -l <= c <= l && 1 <= l && SCALE == 65536;
}

/// The dot product of vectors bounded by `c` is bounded by `3 c^2`.
pub proof fn lemma_dot3_bound(a: (int, int, int), b: (int, int, int), c: int)
    requires
        0 <= c,
        -c <= a.0 <= c && -c <= a.1 <= c && -c <= a.2 <= c,
        -c <= b.0 <= c && -c <= b.1 <= c && -c <= b.2 <= c,
    ensures
        -3 * (c * c) <= dot3(a, b) <= 3 * (c * c),
{
    lemma_mul_le(a.0, c, b.0, c);
    lemma_mul_le(a.1, c, b.1, c);
    lemma_mul_le(a.2, c, b.2, c);
    assert(-3 * (c * c) <= dot3(a, b) <= 3 * (c * c)) by (nonlinear_arith)
        requires
            -(c * c) <= a.0 * b.0 <= c * c,
            -(c * c) <= a.1 * b.1 <= c * c,
            -(c * c) <= a.2 * b.2 <= c * c;
}

/// The mirror reflection of `v` about `n`.
pub fn reflect(v: Vec3, n: Vec3) -> (r: Vec3)
    requires
        v.bounded(2 * SCALE as int),
        n.bounded(2 * SCALE as int),
    ensures
        r.v3() == reflect3(v.v3(), n.v3()),
        r.bounded(64 * SCALE as int),
{
    let d: i64 = v.dot(n);
    proof {
        lemma_dot3_bound(v.v3(), n.v3(), 131072);
        lemma_div_t_size(dot3(v.v3(), n.v3()), 65536, 786432);
        lemma_mul_le(n.x as int, 131072, d as int, 786432);
        lemma_mul_le(n.y as int, 131072, d as int, 786432);
        lemma_mul_le(n.z as int, 131072, d as int, 786432);
        lemma_div_t_size((n.x as int) * (d as int), 65536, 1572864);
        lemma_div_t_size((n.y as int) * (d as int), 65536, 1572864);
        lemma_div_t_size((n.z as int) * (d as int), 65536, 1572864);
    }
    Vec3 {
        x: v.x - 2 * fx_mul(n.x, d),
        y: v.y - 2 * fx_mul(n.y, d),
        z: v.z - 2 * fx_mul(n.z, d),
    }
}

/// Snell refraction; see `refract3` for the exact formula.
pub fn refract(uv: Vec3, n: Vec3, etai_over_etat: i64) -> (r: Vec3)
    requires
        uv.bounded(2 * SCALE as int),
        n.bounded(2 * SCALE as int),
        0 <= etai_over_etat <= 4 * SCALE as int,
    ensures
        r.v3() == refract3(uv.v3(), n.v3(), etai_over_etat as int),
        r.bounded(256 * SCALE as int),
{
    proof {
        lemma_dot3_bound(uv.v3(), n.v3(), 131072);
        lemma_div_t_size(dot3(uv.v3(), n.v3()), 65536, 786432);
    }
    let c: i64 = -uv.dot(n);
    proof {
        lemma_mul_le(n.x as int, 131072, c as int, 786432);
        lemma_mul_le(n.y as int, 131072, c as int, 786432);
        lemma_mul_le(n.z as int, 131072, c as int, 786432);
        lemma_div_t_size((n.x as int) * (c as int), 65536, 1572864);
        lemma_div_t_size((n.y as int) * (c as int), 65536, 1572864);
        lemma_div_t_size((n.z as int) * (c as int), 65536, 1572864);
    }
    let sx: i64 = uv.x + fx_mul(n.x, c);
    let sy: i64 = uv.y + fx_mul(n.y, c);
    let sz: i64 = uv.z + fx_mul(n.z, c);
    proof {
        lemma_mul_le(sx as int, 1703936, etai_over_etat as int, 262144);
        lemma_mul_le(sy as int, 1703936, etai_over_etat as int, 262144);
        lemma_mul_le(sz as int, 1703936, etai_over_etat as int, 262144);
        lemma_div_t_size((sx as int) * (etai_over_etat as int), 65536, 6815744);
        lemma_div_t_size((sy as int) * (etai_over_etat as int), 65536, 6815744);
        lemma_div_t_size((sz as int) * (etai_over_etat as int), 65536, 6815744);
    }
    let par = Vec3 {
        x: fx_mul(sx, etai_over_etat),
        y: fx_mul(sy, etai_over_etat),
        z: fx_mul(sz, etai_over_etat),
    };
    let lsqp: i64 = par.length_squared();
    let k: i64 = SCALE - lsqp;
    let sq: i64 = if k <= 0 {
        0
    } else {
        let root: u64 = isqrt_u128((k as u128) * (SCALE as u128));
        proof {
            assert(root <= SCALE) by (nonlinear_arith)
                requires
                    0 <= root,
                    (root as int) * (root as int) <= (k as int) * (SCALE as int),
                    k <= SCALE,
                    SCALE == 65536;
        }
        root as i64
    };
    proof {
        lemma_mul_le(n.x as int, 131072, sq as int, 65536);
        lemma_mul_le(n.y as int, 131072, sq as int, 65536);
        lemma_mul_le(n.z as int, 131072, sq as int, 65536);
        lemma_div_t_size((n.x as int) * (sq as int), 65536, 131072);
        lemma_div_t_size((n.y as int) * (sq as int), 65536, 131072);
        lemma_div_t_size((n.z as int) * (sq as int), 65536, 131072);
    }
    Vec3 {
        x: par.x - fx_mul(n.x, sq),
        y: par.y - fx_mul(n.y, sq),
        z: par.z - fx_mul(n.z, sq),
    }
}

/// A unit vector along a coordinate axis, in either direction.
pub open spec fn axis_unit3(n: (int, int, int)) -> bool {
    ||| ((n.0 == SCALE as int || n.0 == -(SCALE as int)) && n.1 == 0 && n.2 == 0)
    ||| (n.0 == 0 && (n.1 == SCALE as int || n.1 == -(SCALE as int)) && n.2 == 0)
    ||| (n.0 == 0 && n.1 == 0 && (n.2 == SCALE as int || n.2 == -(SCALE as int)))
}

/// Reflecting twice about one axis-aligned unit mirror normal gives the
/// original vector back, rounding and all: along such a normal every
/// division in `reflect3` is exact.
pub proof fn lemma_reflect_involution(v: (int, int, int), n: (int, int, int))
    requires
        axis_unit3(n),
    ensures
        reflect3(reflect3(v, n), n) == v,
{
    let s = SCALE as int;
    if n.1 == 0 && n.2 == 0 {
        lemma_reflect_axis_exact(v.0, n.0);
        let w = reflect3(v, n);
        assert(w == (-v.0, v.1, v.2));
        lemma_reflect_axis_exact(-v.0, n.0);
    } else if n.0 == 0 && n.2 == 0 {
        lemma_reflect_axis_exact(v.1, n.1);
        assert(dot3(v, n) == v.1 * n.1);
        let w = reflect3(v, n);
        assert(w == (v.0, -v.1, v.2));
        lemma_reflect_axis_exact(-v.1, n.1);
    } else {
        lemma_reflect_axis_exact(v.2, n.2);
        let w = reflect3(v, n);
        assert(w == (v.0, v.1, -v.2));
        lemma_reflect_axis_exact(-v.2, n.2);
    }
}

/// Along an axis normal with component `s = +-SCALE`, the reflected
/// component of `a` is exactly `-a`: `div_t(a * s, SCALE)` is exact.
proof fn lemma_reflect_axis_exact(a: int, s: int)
    requires
        s == SCALE as int || s == -(SCALE as int),
    ensures
        fmul_s(s, div_t(a * s, SCALE as int)) == a,
        div_t(0 * div_t(a * s, SCALE as int), SCALE as int) == 0,
{
    let sc = SCALE as int;
    if s == sc {
        lemma_div_t_exact(a, sc);
        assert(a * s == a * sc);
        assert(fmul_s(s, a) == div_t(s * a, sc));
        assert(s * a == a * sc) by (nonlinear_arith)
            requires s == sc;
        lemma_div_t_exact(a, sc);
    } else {
        assert(a * s == (-a) * sc) by (nonlinear_arith)
            requires s == -sc;
        lemma_div_t_exact(-a, sc);
        assert(s * (-a) == a * sc) by (nonlinear_arith)
            requires s == -sc;
        lemma_div_t_exact(a, sc);
        assert(fmul_s(s, div_t(a * s, sc)) == div_t(s * (-a), sc));
    }
}

/// Normalising a vector of at least a quarter unit's length gives a nearly
/// unit result: the squared length lands within eight parts in a thousand of
/// one, since each component's division by the rounded-down length loses
/// less than one step.
pub proof fn lemma_unit3_near_unit(a: (int, int, int))
    requires
        0x1000_0000 <= lsq3(a),
    ensures
        4294508544 <= lsq3(unit3(a)) <= 4295884803,
{
    let s = 65536int;
    let q = lsq3(a);
    lemma_lsq3_nonneg(a);
    lemma_sqrt_t(q);
    let l = sqrt_t(q);
    assert(16384 <= l) by (nonlinear_arith)
        requires 0x1000_0000 <= q && q < (l + 1) * (l + 1) && 0 <= l;
    assert(q <= l * l + 2 * l) by (nonlinear_arith)
        requires q < (l + 1) * (l + 1);
    lemma_component_le_sqrt(a);
    let u = unit3(a);
    lemma_div_t_remainder(a.0 * s, l);
    lemma_div_t_remainder(a.1 * s, l);
    lemma_div_t_remainder(a.2 * s, l);
    let rem0 = a.0 * s - l * u.0;
    let rem1 = a.1 * s - l * u.1;
    let rem2 = a.2 * s - l * u.2;
    assert(-l <= rem0 <= l && -l <= rem1 <= l && -l <= rem2 <= l);
    assert((l * u.0) * (l * u.0) == (l * l) * (u.0 * u.0) && (a.0 * s - rem0) * (a.0 * s - rem0)
        == (a.0 * a.0) * (s * s) - 2 * (a.0 * rem0) * s + rem0 * rem0) by (nonlinear_arith);
    assert((l * u.1) * (l * u.1) == (l * l) * (u.1 * u.1) && (a.1 * s - rem1) * (a.1 * s - rem1)
        == (a.1 * a.1) * (s * s) - 2 * (a.1 * rem1) * s + rem1 * rem1) by (nonlinear_arith);
    assert((l * u.2) * (l * u.2) == (l * l) * (u.2 * u.2) && (a.2 * s - rem2) * (a.2 * s - rem2)
        == (a.2 * a.2) * (s * s) - 2 * (a.2 * rem2) * s + rem2 * rem2) by (nonlinear_arith);
    assert(l * u.0 == a.0 * s - rem0 && l * u.1 == a.1 * s - rem1 && l * u.2 == a.2 * s - rem2);
    let ll = l * l;
    assert((l * l) * (u.0 * u.0) == ll * (u.0 * u.0) && (l * l) * (u.1 * u.1) == ll * (u.1 * u.1)
        && (l * l) * (u.2 * u.2) == ll * (u.2 * u.2));
    assert(ll * lsq3(u) == ll * (u.0 * u.0) + ll * (u.1 * u.1) + ll * (u.2 * u.2))
        by (nonlinear_arith)
        requires lsq3(u) == u.0 * u.0 + u.1 * u.1 + u.2 * u.2;
    assert(q * (s * s) == (a.0 * a.0) * (s * s) + (a.1 * a.1) * (s * s) + (a.2 * a.2) * (s * s))
        by (nonlinear_arith)
        requires q == a.0 * a.0 + a.1 * a.1 + a.2 * a.2;
    let cross = a.0 * rem0 + a.1 * rem1 + a.2 * rem2;
    assert(2 * cross * s == 2 * (a.0 * rem0) * s + 2 * (a.1 * rem1) * s + 2 * (a.2 * rem2) * s)
        by (nonlinear_arith)
        requires cross == a.0 * rem0 + a.1 * rem1 + a.2 * rem2;
    assert(ll * lsq3(u) == q * (s * s) - 2 * cross * s + (rem0 * rem0 + rem1 * rem1 + rem2
        * rem2));
    lemma_mul_le(a.0, l, rem0, l);
    lemma_mul_le(a.1, l, rem1, l);
    lemma_mul_le(a.2, l, rem2, l);
    lemma_mul_le(rem0, l, rem0, l);
    lemma_mul_le(rem1, l, rem1, l);
    lemma_mul_le(rem2, l, rem2, l);
    assert(0 <= rem0 * rem0 && 0 <= rem1 * rem1 && 0 <= rem2 * rem2) by (nonlinear_arith);
    assert(-3 * ll <= cross <= 3 * ll && rem0 * rem0 + rem1 * rem1 + rem2 * rem2 <= 3 * ll)
        by (nonlinear_arith)
        requires
            cross == a.0 * rem0 + a.1 * rem1 + a.2 * rem2,
            ll == l * l,
            -(l * l) <= a.0 * rem0 <= l * l,
            -(l * l) <= a.1 * rem1 <= l * l,
            -(l * l) <= a.2 * rem2 <= l * l,
            0 <= rem0 * rem0 <= l * l,
            0 <= rem1 * rem1 <= l * l,
            0 <= rem2 * rem2 <= l * l;
    assert(4294508544 <= lsq3(u) <= 4295884803) by (nonlinear_arith)
        requires
            s == 65536,
            16384 <= l,
            ll == l * l,
            ll <= q <= ll + 2 * l,
            ll * lsq3(u) == q * (s * s) - 2 * cross * s + (rem0 * rem0 + rem1 * rem1 + rem2
                * rem2),
            -3 * ll <= cross <= 3 * ll,
            0 <= rem0 * rem0 + rem1 * rem1 + rem2 * rem2 <= 3 * ll;
}

/// Refraction at the identity index ratio sends a head-on incident ray
/// straight through unchanged: with an exactly unit normal `n` and incident
/// `-n`, every rounding step in `refract3` is exact. At other angles and
/// ratios the inverse-ratio round trip holds only up to rounding.
pub proof fn lemma_refract_head_on(n: (int, int, int))
    requires
        lsq3(n) == 65536 * 65536,
    ensures
        refract3((-n.0, -n.1, -n.2), n, 65536) == (-n.0, -n.1, -n.2),
{
    let s = 65536int;
    let uv = (-n.0, -n.1, -n.2);
    assert((-n.0) * n.0 == -(n.0 * n.0) && (-n.1) * n.1 == -(n.1 * n.1) && (-n.2) * n.2 == -(
    n.2 * n.2)) by (nonlinear_arith);
    assert(dot3(uv, n) == -(s * s));
    assert(-(s * s) == (-s) * s) by (nonlinear_arith);
    lemma_div_t_exact(-s, s);
    assert(dot_fx3(uv, n) == -s);
    lemma_div_t_exact(n.0, s);
    lemma_div_t_exact(n.1, s);
    lemma_div_t_exact(n.2, s);
    assert(fmul_s(n.0, s) == n.0 && fmul_s(n.1, s) == n.1 && fmul_s(n.2, s) == n.2);
    assert(fmul_s(uv.0 + n.0, s) == 0 && fmul_s(uv.1 + n.1, s) == 0 && fmul_s(uv.2 + n.2, s)
        == 0);
    assert(lsq3((0int, 0int, 0int)) == 0) by (nonlinear_arith);
    assert(div_t(0, s) == 0);
    lemma_sqrt_t(s * s);
    let q = sqrt_t(s * s);
    assert(q == s) by (nonlinear_arith)
        requires 0 <= q && q * q <= s * s < (q + 1) * (q + 1) && s == 65536;
}

/// A random direction of roughly unit length: drawn by rejection from the
/// cube, kept when its length is between a quarter unit and one unit, then
/// normalised. After a bounded number of failed draws a fixed axis direction
/// is returned, so the function always terminates.
pub fn random_unit_vector(rng: &mut rand::rngs::StdRng) -> (r: Vec3)
    ensures
        r.bounded(SCALE as int),
        4294508544 <= lsq3(r.v3()) <= 4295884803,
{
    let mut tries: u32 = 0;
    while tries < 64
        decreases 64 - tries,
    {
        let x: i64 = random_fixed(rng, -SCALE, SCALE + 1);
        let y: i64 = random_fixed(rng, -SCALE, SCALE + 1);
        let z: i64 = random_fixed(rng, -SCALE, SCALE + 1);
        proof {
            lemma_mul_le(x as int, SCALE as int, x as int, SCALE as int);
            lemma_mul_le(y as int, SCALE as int, y as int, SCALE as int);
            lemma_mul_le(z as int, SCALE as int, z as int, SCALE as int);
        }
        let q: i64 = x * x + y * y + z * z;
        if q >= 0x1000_0000 && q <= 0x1_0000_0000 {
            let v = Vec3 { x, y, z };
            proof {
                assert(lsq3(v.v3()) == q);
                lemma_unit3_near_unit(v.v3());
            }
            return unit_vector(v);
        }
        tries = tries + 1;
    }
    proof {
        assert(lsq3((0int, 0int, 65536int)) == 4294967296) by (nonlinear_arith);
    }
    Vec3 { x: 0, y: 0, z: SCALE }
}

/// A random direction along the rim of the unit disk in the xy plane, drawn
/// by the same rejection scheme as `random_unit_vector`.
pub fn random_in_unit_disk(rng: &mut rand::rngs::StdRng) -> (r: Vec3)
    ensures
        r.bounded(SCALE as int),
        r.z == 0,
        4294508544 <= lsq3(r.v3()) <= 4295884803,
{
    let mut tries: u32 = 0;
    while tries < 64
        decreases 64 - tries,
    {
        let x: i64 = random_fixed(rng, -SCALE, SCALE + 1);
        let y: i64 = random_fixed(rng, -SCALE, SCALE + 1);
        proof {
            lemma_mul_le(x as int, SCALE as int, x as int, SCALE as int);
            lemma_mul_le(y as int, SCALE as int, y as int, SCALE as int);
        }
        let q: i64 = x * x + y * y;
        if q >= 0x1000_0000 && q <= 0x1_0000_0000 {
            let v = Vec3 { x, y, z: 0 };
            proof {
                assert(lsq3(v.v3()) == q);
                lemma_unit3_near_unit(v.v3());
            }
            let u = unit_vector(v);
            proof {
                assert(unit3(v.v3()).2 == 0);
            }
            return u;
        }
        tries = tries + 1;
    }
    proof {
        assert(lsq3((65536int, 0int, 0int)) == 4294967296) by (nonlinear_arith);
    }
    Vec3 { x: SCALE, y: 0, z: 0 }
}

/// A random color with each channel drawn from `[0, 1)` (see
/// `random_fixed` for the draw's small modulo bias).
pub fn random_color(rng: &mut rand::rngs::StdRng) -> (r: Vec3)
    ensures
        0 <= r.x < SCALE,
        0 <= r.y < SCALE,
        0 <= r.z < SCALE,
{
    let x: i64 = random_fixed(rng, 0, SCALE);
    let y: i64 = random_fixed(rng, 0, SCALE);
    let z: i64 = random_fixed(rng, 0, SCALE);
    Vec3 { x, y, z }
}

/// A random color with each channel drawn from `[min, max)` (see
/// `random_fixed` for the draw's small modulo bias).
pub fn random_color_range(rng: &mut rand::rngs::StdRng, min: i64, max: i64) -> (r: Vec3)
    requires
        0 <= min < max <= SCALE,
    ensures
        min <= r.x < max,
        min <= r.y < max,
        min <= r.z < max,
{
    let x: i64 = random_fixed(rng, min, max);
    let y: i64 = random_fixed(rng, min, max);
    let z: i64 = random_fixed(rng, min, max);
    Vec3 { x, y, z }
}

/// A color literal.
pub fn color(r: i64, g: i64, b: i64) -> (v: Vec3)
    ensures
        v.v3() == (r as int, g as int, b as int),
{
    Vec3 { x: r, y: g, z: b }
}

/// The zero vector.
pub fn origin() -> (v: Vec3)
    ensures
        v.v3() == (0int, 0int, 0int),
{
    Vec3 { x: 0, y: 0, z: 0 }
}

} // verus!
