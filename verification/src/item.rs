//! Spheres, the scene's one surface kind, with a linearly interpolated
//! moving center for motion blur.

use vstd::prelude::*;

use crate::fixed::div_t;
use crate::fixed::div_i128;
use crate::fixed::fmul_s;
use crate::fixed::isqrt_u128;
use crate::fixed::sqrt_t;
use crate::fixed::lemma_div_t_bounds;
use crate::fixed::lemma_div_t_size;
use crate::fixed::lemma_div_t_mono;
use crate::fixed::lemma_div_t_exact;
use crate::fixed::lemma_div_t_remainder;
use crate::fixed::lemma_fmul_frac;
use crate::fixed::lemma_mul_le;
use crate::fixed::SCALE;
use crate::hitrecord::HitRecord;
use crate::material::Material;
use crate::ray::at3;
use crate::ray::Ray;
use crate::vec3::dot3;
use crate::vec3::lsq3;
use crate::vec3::lemma_lsq3_nonneg;
use crate::vec3::Vec3;

verus! {

/// A sphere whose center moves linearly from `center0` at `time0` to
/// `center1` at `time1`, carrying its material and scattering parameters.
#[derive(Clone, Copy, Debug)]
pub struct Sphere {
    pub center0: Vec3,
    pub center1: Vec3,
    pub radius: i64,
    pub material: Material,
    pub attenuation: Vec3,
    pub metal_fuzz: i64,
    pub time0: i64,
    pub time1: i64,
}

impl Sphere {
    /// A well-formed sphere: centers inside the world cube, a positive
    /// bounded radius, color channels and roughness inside `[0, 1]`, and an
    /// ordered bounded time window.
    pub open spec fn wf(self) -> bool {
        &&& self.center0.bounded(0x1000_0000)
        &&& self.center1.bounded(0x1000_0000)
        &&& 1 <= self.radius <= 0x1000_0000
        &&& 0 <= self.attenuation.x <= SCALE as int
        &&& 0 <= self.attenuation.y <= SCALE as int
        &&& 0 <= self.attenuation.z <= SCALE as int
        &&& 0 <= self.metal_fuzz <= SCALE as int
        &&& 0 <= self.time0 <= self.time1 <= 0x400_0000
    }

    /// Whether a ray time is one this sphere can be evaluated at: any time
    /// for a degenerate window, otherwise a time inside the window.
    pub open spec fn time_ok(self, t: int) -> bool {
        self.time0 == self.time1 || self.time0 <= t <= self.time1
    }

    /// The center at time `t`: `center0 + (center1 - center0) * m` where `m`
    /// is the elapsed fraction of the time window. A degenerate window means
    /// a stationary sphere evaluated without interpolation.
    pub open spec fn center_at(self, t: int) -> (int, int, int) {
        if self.time0 == self.time1 {
            self.center0.v3()
        } else {
            let m = div_t((t - self.time0) * (SCALE as int), self.time1 - self.time0);
            (
                self.center0.x + fmul_s(self.center1.x - self.center0.x, m),
                self.center0.y + fmul_s(self.center1.y - self.center0.y, m),
                self.center0.z + fmul_s(self.center1.z - self.center0.z, m),
            )
        }
    }

    pub fn new(
        center0: Vec3,
        center1: Vec3,
        radius: i64,
        material: Material,
        attenuation: Vec3,
        metal_fuzz: i64,
        time0: i64,
        time1: i64,
    ) -> (r: Sphere)
        requires
            center0.bounded(0x1000_0000),
            center1.bounded(0x1000_0000),
            1 <= radius <= 0x1000_0000,
            0 <= attenuation.x <= SCALE as int,
            0 <= attenuation.y <= SCALE as int,
            0 <= attenuation.z <= SCALE as int,
            0 <= metal_fuzz <= SCALE as int,
            0 <= time0 <= time1 <= 0x400_0000,
        ensures
            r == (Sphere {
                center0,
                center1,
                radius,
                material,
                attenuation,
                metal_fuzz,
                time0,
                time1,
            }),
            r.wf(),
    {
        Sphere { center0, center1, radius, material, attenuation, metal_fuzz, time0, time1 }
    }

    /// The center at ray time `time`.
    pub fn center(&self, time: i64) -> (r: Vec3)
        requires
            self.wf(),
            self.time_ok(time as int),
            0 <= time <= 0x400_0000,
        ensures
            r.v3() == self.center_at(time as int),
            r.bounded(0x1000_0000),
    {
        if self.time0 == self.time1 {
            return self.center0;
        }
        let window: i64 = self.time1 - self.time0;
        let num: i64 = (time - self.time0) * SCALE;
        let m: i64 = div_i128(num as i128, window as i128) as i64;
        proof {
            lemma_div_t_bounds(num as int, window as int);
            lemma_div_t_mono(num as int, (window as int) * (SCALE as int), window as int);
            lemma_div_t_exact(SCALE as int, window as int);
            assert((time - self.time0) * (SCALE as int) <= (window as int) * (SCALE as int))
                by (nonlinear_arith)
                requires time - self.time0 <= window && SCALE == 65536;
            assert(0 <= m <= SCALE);
            lemma_fmul_frac(self.center1.x - self.center0.x, m as int);
            lemma_fmul_frac(self.center1.y - self.center0.y, m as int);
            lemma_fmul_frac(self.center1.z - self.center0.z, m as int);
            lemma_mul_le(self.center1.x - self.center0.x, 0x2000_0000, m as int, 65536);
            lemma_mul_le(self.center1.y - self.center0.y, 0x2000_0000, m as int, 65536);
            lemma_mul_le(self.center1.z - self.center0.z, 0x2000_0000, m as int, 65536);
        }
        let dx: i64 = div_i128(
            ((self.center1.x - self.center0.x) as i128) * (m as i128),
            SCALE as i128,
        ) as i64;
        let dy: i64 = div_i128(
            ((self.center1.y - self.center0.y) as i128) * (m as i128),
            SCALE as i128,
        ) as i64;
        let dz: i64 = div_i128(
            ((self.center1.z - self.center0.z) as i128) * (m as i128),
            SCALE as i128,
        ) as i64;
        Vec3 { x: self.center0.x + dx, y: self.center0.y + dy, z: self.center0.z + dz }
    }

    /// The ray origin relative to the center at the ray's time.
    pub open spec fn oc3(self, ray: Ray) -> (int, int, int) {
        let c = self.center_at(ray.time as int);
        (ray.origin.x - c.0, ray.origin.y - c.1, ray.origin.z - c.2)
    }

    /// The quadratic's leading coefficient: the raw squared direction.
    pub open spec fn quad_a(self, ray: Ray) -> int {
        lsq3(ray.direction.v3())
    }

    /// The quadratic's doubled middle coefficient.
    pub open spec fn quad_b(self, ray: Ray) -> int {
        2 * dot3(self.oc3(ray), ray.direction.v3())
    }

    /// The quadratic's constant coefficient.
    pub open spec fn quad_c(self, ray: Ray) -> int {
        lsq3(self.oc3(ray)) - self.radius * self.radius
    }

    /// The discriminant `b^2 - 4 a c` of the intersection quadratic.
    pub open spec fn discriminant(self, ray: Ray) -> int {
        self.quad_b(ray) * self.quad_b(ray) - 4 * self.quad_a(ray) * self.quad_c(ray)
    }

    /// The smaller quadratic root `(-b - sqrt(disc)) / (2a)`, rescaled to a
    /// fixed-point ray parameter.
    pub open spec fn hit_root(self, ray: Ray) -> int {
        div_t(
            (-self.quad_b(ray) - sqrt_t(self.discriminant(ray))) * (SCALE as int),
            2 * self.quad_a(ray),
        )
    }

    /// The hit point relative to the sphere's center.
    pub open spec fn offset3(self, ray: Ray) -> (int, int, int) {
        let p = at3(ray.origin.v3(), ray.direction.v3(), self.hit_root(ray));
        let c = self.center_at(ray.time as int);
        (p.0 - c.0, p.1 - c.1, p.2 - c.2)
    }

    /// The outward normal at the hit point: the center offset divided by the
    /// radius.
    pub open spec fn outward3(self, ray: Ray) -> (int, int, int) {
        let q = self.offset3(ray);
        (
            div_t(q.0 * (SCALE as int), self.radius as int),
            div_t(q.1 * (SCALE as int), self.radius as int),
            div_t(q.2 * (SCALE as int), self.radius as int),
        )
    }

    /// When `hit` reports an intersection: the direction is non-degenerate,
    /// the discriminant is nonnegative, the smaller root lies strictly
    /// inside the window, and the computed hit point lands near the sphere's
    /// surface (between three quarters and five quarters of the radius from
    /// the center).
    ///
    /// The surface band is a deliberate deviation from the pure two-part
    /// criterion (nonnegative discriminant, root strictly inside the
    /// window): with exact arithmetic the hit point sits on the surface and
    /// the band never rejects, but the fixed-point root and point carry
    /// rounding of a few steps plus roughly one step of the root's scale per
    /// unit of squared direction length, so a sphere whose radius is only a
    /// few steps, met by a ray with a direction near the bound's cap, can
    /// drift outside the band and be reported as a miss. The band is what
    /// guarantees the stored normal's near-unit length; proving it always
    /// holds away from that degenerate regime would need a bound on the
    /// computed root's distance from the real root, which is not attempted
    /// here.
    pub open spec fn hit_accept(self, ray: Ray, tmin: int, tmax: int) -> bool {
        &&& self.quad_a(ray) >= 1
        &&& self.discriminant(ray) >= 0
        &&& tmin < self.hit_root(ray) < tmax
        &&& 9 * (self.radius * self.radius) <= 16 * lsq3(self.offset3(ray))
        &&& 16 * lsq3(self.offset3(ray)) <= 25 * (self.radius * self.radius)
    }

    /// What a hit record reported for this sphere and ray holds: the exact
    /// root and hit point, the sphere's scattering data, the
    /// outward-corrected normal with its sign and near-unit-length
    /// guarantees.
    pub open spec fn is_hit_record_for(self, ray: Ray, h: HitRecord) -> bool {
        &&& h.t == self.hit_root(ray)
        &&& h.point.v3() == at3(ray.origin.v3(), ray.direction.v3(), self.hit_root(ray))
        &&& h.point.bounded(0x4000_0000)
        &&& h.material == self.material
        &&& h.attenuation == self.attenuation
        &&& h.metal_fuzz == self.metal_fuzz
        &&& h.front_face == (dot3(ray.direction.v3(), self.outward3(ray)) < 0)
        &&& (h.front_face ==> h.normal.v3() == self.outward3(ray))
        &&& (!h.front_face ==> h.normal.v3() == (
            -self.outward3(ray).0,
            -self.outward3(ray).1,
            -self.outward3(ray).2,
        ))
        &&& h.normal.bounded(2 * SCALE as int)
        &&& 2414870528 <= lsq3(h.normal.v3()) <= 6711934976
        &&& (h.front_face ==> dot3(ray.direction.v3(), h.normal.v3()) < 0)
        &&& (!h.front_face ==> dot3(ray.direction.v3(), h.normal.v3()) <= 0)
    }

    /// Does the ray meet this sphere at a parameter strictly inside
    /// `(tmin, tmax)`? If so, the record of the nearest such intersection.
    pub fn hit(&self, ray: &Ray, tmin: i64, tmax: i64) -> (r: Option<HitRecord>)
        requires
            self.wf(),
            ray.wf(),
            self.time_ok(ray.time as int),
        ensures
            r.is_some() == self.hit_accept(*ray, tmin as int, tmax as int),
            r matches Some(h) ==> self.is_hit_record_for(*ray, h) && tmin < h.t < tmax,
    {
        let center = self.center(ray.time);
        let ocx: i64 = ray.origin.x - center.x;
        let ocy: i64 = ray.origin.y - center.y;
        let ocz: i64 = ray.origin.z - center.z;
        let dx: i64 = ray.direction.x;
        let dy: i64 = ray.direction.y;
        let dz: i64 = ray.direction.z;
        proof {
            lemma_mul_le(dx as int, 0x400_0000, dx as int, 0x400_0000);
            lemma_mul_le(dy as int, 0x400_0000, dy as int, 0x400_0000);
            lemma_mul_le(dz as int, 0x400_0000, dz as int, 0x400_0000);
        }
        let a: i64 = dx * dx + dy * dy + dz * dz;
        proof {
            assert(a == self.quad_a(*ray));
            lemma_lsq3_nonneg(ray.direction.v3());
        }
        if a == 0 {
            return None;
        }
        proof {
            lemma_mul_le(ocx as int, 0x5000_0000, dx as int, 0x400_0000);
            lemma_mul_le(ocy as int, 0x5000_0000, dy as int, 0x400_0000);
            lemma_mul_le(ocz as int, 0x5000_0000, dz as int, 0x400_0000);
            lemma_mul_le(ocx as int, 0x5000_0000, ocx as int, 0x5000_0000);
            lemma_mul_le(ocy as int, 0x5000_0000, ocy as int, 0x5000_0000);
            lemma_mul_le(ocz as int, 0x5000_0000, ocz as int, 0x5000_0000);
            lemma_mul_le(self.radius as int, 0x1000_0000, self.radius as int, 0x1000_0000);
        }
        // each product above is within 0x1900_0000_0000_0000, each mixed
        // product within 0x140_0000_0000_0000
        let b: i128 = 2 * ((ocx as i128) * (dx as i128) + (ocy as i128) * (dy as i128) + (ocz
            as i128) * (dz as i128));
        let c: i128 = (ocx as i128) * (ocx as i128) + (ocy as i128) * (ocy as i128) + (ocz
            as i128) * (ocz as i128) - (self.radius as i128) * (self.radius as i128);
        proof {
            assert(b == self.quad_b(*ray));
            assert(c == self.quad_c(*ray));
            lemma_mul_le(b as int, 0x780_0000_0000_0000, b as int, 0x780_0000_0000_0000);
            lemma_mul_le(a as int, 0x30_0000_0000_0000, c as int, 0x4C00_0000_0000_0000);
        }
        let disc: i128 = b * b - 4 * ((a as i128) * c);
        proof {
            assert(self.quad_b(*ray) * self.quad_b(*ray) - 4 * self.quad_a(*ray) * self.quad_c(
            *ray) == self.quad_b(*ray) * self.quad_b(*ray) - 4 * (self.quad_a(*ray)
                * self.quad_c(*ray))) by (nonlinear_arith);
            assert(disc == self.discriminant(*ray));
        }
        if disc < 0 {
            return None;
        }
        let sq: u64 = isqrt_u128(disc as u128);
        proof {
            assert((sq as int) * (sq as int) <= disc as int);
            assert(sq as int <= 0x2000_0000_0000_0000) by (nonlinear_arith)
                requires
                    0 <= sq,
                    (sq as int) * (sq as int) <= 0x200_0000_0000_0000_0000_0000_0000_0000,
                ;
            lemma_mul_le(-(b as int) - (sq as int), 0x4000_0000_0000_0000, SCALE as int, 65536);
        }
        let num: i128 = -b - (sq as i128);
        let root_wide: i128 = div_i128(num * (SCALE as i128), 2 * (a as i128));
        proof {
            assert(root_wide == self.hit_root(*ray));
        }
        if root_wide <= tmin as i128 || root_wide >= tmax as i128 {
            return None;
        }
        let t: i64 = root_wide as i64;
        proof {
            lemma_mul_le(dx as int, 0x400_0000, root_wide as int, 0x8000_0000_0000_0000);
            lemma_mul_le(dy as int, 0x400_0000, root_wide as int, 0x8000_0000_0000_0000);
            lemma_mul_le(dz as int, 0x400_0000, root_wide as int, 0x8000_0000_0000_0000);
            lemma_div_t_size((dx as int) * (root_wide as int), 65536, 0x2_0000_0000_0000_0000_0000);
            lemma_div_t_size((dy as int) * (root_wide as int), 65536, 0x2_0000_0000_0000_0000_0000);
            lemma_div_t_size((dz as int) * (root_wide as int), 65536, 0x2_0000_0000_0000_0000_0000);
        }
        let px: i128 = (ray.origin.x as i128) + div_i128((dx as i128) * root_wide, SCALE as i128);
        let py: i128 = (ray.origin.y as i128) + div_i128((dy as i128) * root_wide, SCALE as i128);
        let pz: i128 = (ray.origin.z as i128) + div_i128((dz as i128) * root_wide, SCALE as i128);
        proof {
            assert((px as int, py as int, pz as int) == at3(
                ray.origin.v3(),
                ray.direction.v3(),
                root_wide as int,
            ));
        }
        let qx: i128 = px - (center.x as i128);
        let qy: i128 = py - (center.y as i128);
        let qz: i128 = pz - (center.z as i128);
        let r2: i128 = (self.radius as i128) * (self.radius as i128);
        let rad2: i128 = 2 * (self.radius as i128);
        if qx > rad2 || qx < -rad2 || qy > rad2 || qy < -rad2 || qz > rad2 || qz < -rad2 {
            proof {
                lemma_far_component_rejects(
                    (qx as int, qy as int, qz as int),
                    self.radius as int,
                );
            }
            return None;
        }
        proof {
            lemma_mul_le(qx as int, 0x2000_0000, qx as int, 0x2000_0000);
            lemma_mul_le(qy as int, 0x2000_0000, qy as int, 0x2000_0000);
            lemma_mul_le(qz as int, 0x2000_0000, qz as int, 0x2000_0000);
        }
        let qsq: i128 = qx * qx + qy * qy + qz * qz;
        if 16 * qsq < 9 * r2 || 16 * qsq > 25 * r2 {
            return None;
        }
        let point = Vec3 { x: px as i64, y: py as i64, z: pz as i64 };
        proof {
            lemma_mul_le(qx as int, 0x2000_0000, SCALE as int, 65536);
            lemma_mul_le(qy as int, 0x2000_0000, SCALE as int, 65536);
            lemma_mul_le(qz as int, 0x2000_0000, SCALE as int, 65536);
            lemma_offset_component_bound(
                (qx as int, qy as int, qz as int),
                self.radius as int,
            );
        }
        let ox: i64 = div_i128(qx * (SCALE as i128), self.radius as i128) as i64;
        let oy: i64 = div_i128(qy * (SCALE as i128), self.radius as i128) as i64;
        let oz: i64 = div_i128(qz * (SCALE as i128), self.radius as i128) as i64;
        let outward = Vec3 { x: ox, y: oy, z: oz };
        proof {
            lemma_normal_band(
                (qx as int, qy as int, qz as int),
                self.radius as int,
                outward.v3(),
            );
        }
        let mut rec = HitRecord::new(
            point,
            outward,
            true,
            t,
            self.material,
            self.attenuation,
            self.metal_fuzz,
        );
        rec.set_face_normal(ray, outward);
        proof {
            lemma_lsq3_neg(outward.v3());
            lemma_dot3_neg(ray.direction.v3(), outward.v3());
        }
        Some(rec)
    }
}

/// A moving sphere's center meets its endpoints exactly: at `time0` it is
/// `center0`, and at `time1` it is `center1`, because the interpolation
/// fraction is exactly zero and exactly one there and both scalings divide
/// without remainder.
pub proof fn lemma_center_endpoints(s: Sphere)
    requires
        s.wf(),
    ensures
        s.center_at(s.time0 as int) == s.center0.v3(),
        s.time0 < s.time1 ==> s.center_at(s.time1 as int) == s.center1.v3(),
{
    let sc = SCALE as int;
    if s.time0 < s.time1 {
        let w = s.time1 - s.time0;
        assert((s.time0 - s.time0) * sc == 0);
        assert(div_t(0, w) == 0);
        assert((s.center1.x - s.center0.x) * 0 == 0);
        assert((s.center1.y - s.center0.y) * 0 == 0);
        assert((s.center1.z - s.center0.z) * 0 == 0);
        assert(div_t(0, sc) == 0);
        assert((s.time1 - s.time0) * sc == sc * w) by (nonlinear_arith)
            requires w == s.time1 - s.time0;
        lemma_div_t_exact(sc, w);
        lemma_div_t_exact(s.center1.x - s.center0.x, sc);
        lemma_div_t_exact(s.center1.y - s.center0.y, sc);
        lemma_div_t_exact(s.center1.z - s.center0.z, sc);
    }
}

/// One offset component beyond twice the radius puts the squared offset
/// outside the accepted surface band.
proof fn lemma_far_component_rejects(q: (int, int, int), radius: int)
    requires
        1 <= radius,
        q.0 > 2 * radius || q.0 < -2 * radius || q.1 > 2 * radius || q.1 < -2 * radius || q.2 > 2
            * radius || q.2 < -2 * radius,
    ensures
        16 * lsq3(q) > 25 * (radius * radius),
{
    lemma_lsq3_nonneg(q);
    assert(16 * lsq3(q) > 25 * (radius * radius)) by (nonlinear_arith)
        requires
            1 <= radius,
            q.0 > 2 * radius || q.0 < -2 * radius || q.1 > 2 * radius || q.1 < -2 * radius || q.2
                > 2 * radius || q.2 < -2 * radius,
            q.0 * q.0 <= lsq3(q) && q.1 * q.1 <= lsq3(q) && q.2 * q.2 <= lsq3(q),
            lsq3(q) == q.0 * q.0 + q.1 * q.1 + q.2 * q.2;
}

/// Each offset component scaled by `SCALE` stays within `2 SCALE` radii.
proof fn lemma_offset_component_bound(q: (int, int, int), radius: int)
    requires
        1 <= radius,
        -2 * radius <= q.0 <= 2 * radius,
        -2 * radius <= q.1 <= 2 * radius,
        -2 * radius <= q.2 <= 2 * radius,
    ensures
        -(2 * (SCALE as int)) * radius <= q.0 * (SCALE as int) <= (2 * (SCALE as int)) * radius,
        -(2 * (SCALE as int)) * radius <= q.1 * (SCALE as int) <= (2 * (SCALE as int)) * radius,
        -(2 * (SCALE as int)) * radius <= q.2 * (SCALE as int) <= (2 * (SCALE as int)) * radius,
        -(2 * (SCALE as int)) <= div_t(q.0 * (SCALE as int), radius) <= 2 * (SCALE as int),
        -(2 * (SCALE as int)) <= div_t(q.1 * (SCALE as int), radius) <= 2 * (SCALE as int),
        -(2 * (SCALE as int)) <= div_t(q.2 * (SCALE as int), radius) <= 2 * (SCALE as int),
{
    let s = SCALE as int;
    assert(-((2 * s) * radius) <= q.0 * s <= (2 * s) * radius) by (nonlinear_arith)
        requires 1 <= radius && s == 65536 && -2 * radius <= q.0 <= 2 * radius;
    assert(-((2 * s) * radius) <= q.1 * s <= (2 * s) * radius) by (nonlinear_arith)
        requires 1 <= radius && s == 65536 && -2 * radius <= q.1 <= 2 * radius;
    assert(-((2 * s) * radius) <= q.2 * s <= (2 * s) * radius) by (nonlinear_arith)
        requires 1 <= radius && s == 65536 && -2 * radius <= q.2 <= 2 * radius;
    lemma_div_t_size(q.0 * s, radius, 2 * s);
    lemma_div_t_size(q.1 * s, radius, 2 * s);
    lemma_div_t_size(q.2 * s, radius, 2 * s);
}

/// Negating a vector keeps its squared length.
proof fn lemma_lsq3_neg(a: (int, int, int))
    ensures
        lsq3((-a.0, -a.1, -a.2)) == lsq3(a),
{
    assert((-a.0) * (-a.0) == a.0 * a.0 && (-a.1) * (-a.1) == a.1 * a.1 && (-a.2) * (-a.2) == a.2
        * a.2) by (nonlinear_arith);
}

/// Negating one argument negates a dot product.
proof fn lemma_dot3_neg(a: (int, int, int), b: (int, int, int))
    ensures
        dot3(a, (-b.0, -b.1, -b.2)) == -dot3(a, b),
{
    assert(a.0 * (-b.0) == -(a.0 * b.0) && a.1 * (-b.1) == -(a.1 * b.1) && a.2 * (-b.2) == -(a.2
        * b.2)) by (nonlinear_arith);
}

/// A hit point accepted inside the surface band yields a normal whose
/// squared length is within a stated tolerance of one: the normal is the
/// offset over the radius, and the division loses less than one part in the
/// radius per component.
proof fn lemma_normal_band(q: (int, int, int), radius: int, n: (int, int, int))
    requires
        1 <= radius,
        9 * (radius * radius) <= 16 * lsq3(q) <= 25 * (radius * radius),
        n.0 == div_t(q.0 * (SCALE as int), radius),
        n.1 == div_t(q.1 * (SCALE as int), radius),
        n.2 == div_t(q.2 * (SCALE as int), radius),
    ensures
        -(2 * (SCALE as int)) <= n.0 <= 2 * (SCALE as int),
        -(2 * (SCALE as int)) <= n.1 <= 2 * (SCALE as int),
        -(2 * (SCALE as int)) <= n.2 <= 2 * (SCALE as int),
        2414870528 <= lsq3(n) <= 6711934976,
{
    let s = SCALE as int;
    lemma_lsq3_nonneg(q);
    assert(-2 * radius <= q.0 <= 2 * radius && -2 * radius <= q.1 <= 2 * radius && -2 * radius
        <= q.2 <= 2 * radius) by (nonlinear_arith)
        requires
            1 <= radius,
            16 * lsq3(q) <= 25 * (radius * radius),
            q.0 * q.0 <= lsq3(q) && q.1 * q.1 <= lsq3(q) && q.2 * q.2 <= lsq3(q);
    lemma_offset_component_bound(q, radius);
    lemma_div_t_remainder(q.0 * s, radius);
    lemma_div_t_remainder(q.1 * s, radius);
    lemma_div_t_remainder(q.2 * s, radius);
    let rem0 = q.0 * s - radius * n.0;
    let rem1 = q.1 * s - radius * n.1;
    let rem2 = q.2 * s - radius * n.2;
    assert(-radius <= rem0 <= radius && -radius <= rem1 <= radius && -radius <= rem2 <= radius);
    // expand each squared component of `radius * n`
    assert((radius * n.0) * (radius * n.0) == (radius * radius) * (n.0 * n.0) && (q.0 * s - rem0)
        * (q.0 * s - rem0) == (q.0 * q.0) * (s * s) - 2 * (q.0 * rem0) * s + rem0 * rem0)
        by (nonlinear_arith);
    assert((radius * n.1) * (radius * n.1) == (radius * radius) * (n.1 * n.1) && (q.1 * s - rem1)
        * (q.1 * s - rem1) == (q.1 * q.1) * (s * s) - 2 * (q.1 * rem1) * s + rem1 * rem1)
        by (nonlinear_arith);
    assert((radius * n.2) * (radius * n.2) == (radius * radius) * (n.2 * n.2) && (q.2 * s - rem2)
        * (q.2 * s - rem2) == (q.2 * q.2) * (s * s) - 2 * (q.2 * rem2) * s + rem2 * rem2)
        by (nonlinear_arith);
    assert(radius * n.0 == q.0 * s - rem0 && radius * n.1 == q.1 * s - rem1 && radius * n.2 == q.2
        * s - rem2);
    let rr = radius * radius;
    assert(rr * (n.0 * n.0) == (radius * n.0) * (radius * n.0)) by (nonlinear_arith)
        requires rr == radius * radius;
    assert(rr * (n.1 * n.1) == (radius * n.1) * (radius * n.1)) by (nonlinear_arith)
        requires rr == radius * radius;
    assert(rr * (n.2 * n.2) == (radius * n.2) * (radius * n.2)) by (nonlinear_arith)
        requires rr == radius * radius;
    assert(rr * lsq3(n) == rr * (n.0 * n.0) + rr * (n.1 * n.1) + rr * (n.2 * n.2))
        by (nonlinear_arith)
        requires lsq3(n) == n.0 * n.0 + n.1 * n.1 + n.2 * n.2;
    assert(lsq3(q) * (s * s) == (q.0 * q.0) * (s * s) + (q.1 * q.1) * (s * s) + (q.2 * q.2) * (s
        * s)) by (nonlinear_arith)
        requires
            lsq3(q) == q.0 * q.0 + q.1 * q.1 + q.2 * q.2;
    let cross = q.0 * rem0 + q.1 * rem1 + q.2 * rem2;
    assert(2 * cross * s == 2 * (q.0 * rem0) * s + 2 * (q.1 * rem1) * s + 2 * (q.2 * rem2) * s)
        by (nonlinear_arith)
        requires
            cross == q.0 * rem0 + q.1 * rem1 + q.2 * rem2;
    assert(rr * lsq3(n) == lsq3(q) * (s * s) - 2 * cross * s + (rem0 * rem0 + rem1 * rem1 + rem2
        * rem2));
    lemma_mul_le(q.0, 2 * radius, rem0, radius);
    lemma_mul_le(q.1, 2 * radius, rem1, radius);
    lemma_mul_le(q.2, 2 * radius, rem2, radius);
    lemma_mul_le(rem0, radius, rem0, radius);
    lemma_mul_le(rem1, radius, rem1, radius);
    lemma_mul_le(rem2, radius, rem2, radius);
    assert(0 <= rem0 * rem0 && 0 <= rem1 * rem1 && 0 <= rem2 * rem2) by (nonlinear_arith);
    // cross terms: each |q_i rem_i| <= 2 r^2, so the middle term is within 12 s r^2
    assert(-6 * ((2 * radius) * radius) * s <= 2 * cross * s <= 6 * ((2 * radius) * radius) * s)
        by (nonlinear_arith)
        requires
            s == 65536,
            cross == q.0 * rem0 + q.1 * rem1 + q.2 * rem2,
            -((2 * radius) * radius) <= q.0 * rem0 <= (2 * radius) * radius,
            -((2 * radius) * radius) <= q.1 * rem1 <= (2 * radius) * radius,
            -((2 * radius) * radius) <= q.2 * rem2 <= (2 * radius) * radius;
    // with 16 lsq3(q) between 9 r^2 and 25 r^2, conclude the band
    assert(2414870528 <= lsq3(n) && lsq3(n) <= 6711934976) by (nonlinear_arith)
        requires
            s == 65536,
            1 <= radius,
            rr == radius * radius,
            9 * rr <= 16 * lsq3(q) <= 25 * rr,
            rr * lsq3(n) == lsq3(q) * (s * s) - 2 * cross * s + (rem0 * rem0 + rem1 * rem1 + rem2
                * rem2),
            -6 * ((2 * radius) * radius) * s <= 2 * cross * s <= 6 * ((2 * radius) * radius) * s,
            0 <= rem0 * rem0 <= radius * radius,
            0 <= rem1 * rem1 <= radius * radius,
            0 <= rem2 * rem2 <= radius * radius;
}

} // verus!
