//! The camera: an orthonormal-ish basis derived once from user parameters,
//! turning normalized plate coordinates into world-space rays with defocus
//! blur and a shutter window for motion blur.

use vstd::prelude::*;

use crate::fixed::div_t;
use crate::fixed::div_i128;
use crate::fixed::fdiv_s;
use crate::fixed::fmul_s;
use crate::fixed::fx_mul;
use crate::fixed::lemma_div_t_size;
use crate::fixed::lemma_mul_le;
use crate::fixed::SCALE;
use crate::ray::Ray;
use crate::rng::random_fixed;
use crate::vec3::cross3;
use crate::vec3::lsq3;
use crate::vec3::unit3;
use crate::vec3::unit_vector;
use crate::vec3::Vec3;

verus! {

/// The difference of two vector views.
pub open spec fn sub3(a: (int, int, int), b: (int, int, int)) -> (int, int, int) {
    (a.0 - b.0, a.1 - b.1, a.2 - b.2)
}

pub struct Camera {
    pub look_from: Vec3,
    pub u: Vec3,
    pub v: Vec3,
    pub w: Vec3,
    pub horizontal: Vec3,
    pub vertical: Vec3,
    pub lower_left_corner: Vec3,
    pub lens_radius: i64,
    pub viewport_height: i64,
    pub viewport_width: i64,
    pub aspect_ratio: i64,
    pub image_width: u32,
    pub image_height: u32,
    pub time0: i64,
    pub time1: i64,
}

impl Camera {
    /// A well-formed camera basis: every stored vector is bounded tightly
    /// enough that each generated ray is well-formed.
    pub open spec fn wf(self) -> bool {
        &&& self.look_from.bounded(0x1000_0000)
        &&& self.u.bounded(65536)
        &&& self.v.bounded(131072)
        &&& self.w.bounded(65536)
        &&& self.horizontal.bounded(0x40_0000)
        &&& self.vertical.bounded(0x80_0000)
        &&& self.lower_left_corner.bounded(0x2000_0000)
        &&& -0x100_0000 <= self.lower_left_corner.x - self.look_from.x <= 0x100_0000
        &&& -0x100_0000 <= self.lower_left_corner.y - self.look_from.y <= 0x100_0000
        &&& -0x100_0000 <= self.lower_left_corner.z - self.look_from.z <= 0x100_0000
        &&& 0 <= self.lens_radius <= 0x8_0000
        &&& 0 <= self.time0 <= self.time1 <= 0x400_0000
        &&& 2 <= self.image_width <= 16384
        &&& 2 <= self.image_height <= 16384
    }

    /// Derive the camera basis. `half_height` is the tangent of half the
    /// vertical field of view; the viewport spans `2 * half_height` by
    /// `aspect_ratio` times that, both scaled by the focus distance.
    pub fn new(
        look_from: Vec3,
        look_at: Vec3,
        vup: Vec3,
        half_height: i64,
        aspect_ratio: i64,
        image_width: u32,
        aperture: i64,
        focus_dist: i64,
        time0: i64,
        time1: i64,
    ) -> (r: Camera)
        requires
            look_from.bounded(0x1000_0000),
            look_at.bounded(0x1000_0000),
            vup.bounded(0x1000_0000),
            1 <= lsq3(sub3(look_from.v3(), look_at.v3())),
            1 <= lsq3(cross3(vup.v3(), unit3(sub3(look_from.v3(), look_at.v3())))),
            1 <= half_height <= 262144,
            16384 <= aspect_ratio <= 262144,
            0 <= fmul_s(fmul_s(aspect_ratio as int, 2 * half_height), focus_dist as int)
                <= 0x40_0000,
            0 <= fmul_s(2 * half_height, focus_dist as int) <= 0x40_0000,
            1 <= focus_dist <= 0x40_0000,
            0 <= aperture <= 0x10_0000,
            2 <= image_width <= 16384,
            2 <= div_t((image_width as int) * 65536, aspect_ratio as int) <= 16384,
            0 <= time0 <= time1 <= 0x400_0000,
        ensures
            r.wf(),
            r.look_from == look_from,
            r.time0 == time0,
            r.time1 == time1,
            r.image_width == image_width,
            r.image_height as int == div_t((image_width as int) * 65536, aspect_ratio as int),
            r.aspect_ratio == aspect_ratio,
            r.viewport_height == 2 * half_height,
            r.viewport_width as int == fmul_s(aspect_ratio as int, 2 * half_height),
            r.lens_radius as int == div_t(aperture as int, 2),
            r.w.v3() == unit3(sub3(look_from.v3(), look_at.v3())),
            r.u.v3() == unit3(cross3(vup.v3(), r.w.v3())),
            r.v.v3() == cross3(r.w.v3(), r.u.v3()),
            r.horizontal.v3() == (
                fmul_s(r.u.x as int, fmul_s(r.viewport_width as int, focus_dist as int)),
                fmul_s(r.u.y as int, fmul_s(r.viewport_width as int, focus_dist as int)),
                fmul_s(r.u.z as int, fmul_s(r.viewport_width as int, focus_dist as int)),
            ),
            r.vertical.v3() == (
                fmul_s(r.v.x as int, fmul_s(r.viewport_height as int, focus_dist as int)),
                fmul_s(r.v.y as int, fmul_s(r.viewport_height as int, focus_dist as int)),
                fmul_s(r.v.z as int, fmul_s(r.viewport_height as int, focus_dist as int)),
            ),
            r.lower_left_corner.v3() == (
                look_from.x - fdiv_s(r.horizontal.x as int, 131072) - fdiv_s(
                    r.vertical.x as int,
                    131072,
                ) - fmul_s(r.w.x as int, focus_dist as int),
                look_from.y - fdiv_s(r.horizontal.y as int, 131072) - fdiv_s(
                    r.vertical.y as int,
                    131072,
                ) - fmul_s(r.w.y as int, focus_dist as int),
                look_from.z - fdiv_s(r.horizontal.z as int, 131072) - fdiv_s(
                    r.vertical.z as int,
                    131072,
                ) - fmul_s(r.w.z as int, focus_dist as int),
            ),
    {
        let viewport_height: i64 = 2 * half_height;
        proof {
            lemma_mul_le(aspect_ratio as int, 262144, 2 * half_height, 524288);
        }
        let viewport_width: i64 = fx_mul(aspect_ratio, viewport_height);

        let back = look_from.sub(look_at);
        let w = unit_vector(back);
        let uw = vup.cross(w);
        proof {
            lemma_mul_le(vup.x as int, 0x1000_0000, w.y as int, 65536);
            lemma_mul_le(vup.x as int, 0x1000_0000, w.z as int, 65536);
            lemma_mul_le(vup.y as int, 0x1000_0000, w.x as int, 65536);
            lemma_mul_le(vup.y as int, 0x1000_0000, w.z as int, 65536);
            lemma_mul_le(vup.z as int, 0x1000_0000, w.x as int, 65536);
            lemma_mul_le(vup.z as int, 0x1000_0000, w.y as int, 65536);
            lemma_div_t_size((vup.y as int) * (w.z as int) - (vup.z as int) * (w.y as int), 65536,
                0x2000_0000);
            lemma_div_t_size((vup.z as int) * (w.x as int) - (vup.x as int) * (w.z as int), 65536,
                0x2000_0000);
            lemma_div_t_size((vup.x as int) * (w.y as int) - (vup.y as int) * (w.x as int), 65536,
                0x2000_0000);
        }
        let u = unit_vector(uw);
        let v = w.cross(u);
        proof {
            lemma_mul_le(w.x as int, 65536, u.y as int, 65536);
            lemma_mul_le(w.x as int, 65536, u.z as int, 65536);
            lemma_mul_le(w.y as int, 65536, u.x as int, 65536);
            lemma_mul_le(w.y as int, 65536, u.z as int, 65536);
            lemma_mul_le(w.z as int, 65536, u.x as int, 65536);
            lemma_mul_le(w.z as int, 65536, u.y as int, 65536);
            lemma_div_t_size((w.y as int) * (u.z as int) - (w.z as int) * (u.y as int), 65536,
                131072);
            lemma_div_t_size((w.z as int) * (u.x as int) - (w.x as int) * (u.z as int), 65536,
                131072);
            lemma_div_t_size((w.x as int) * (u.y as int) - (w.y as int) * (u.x as int), 65536,
                131072);
        }

        let mh: i64 = fx_mul(viewport_width, focus_dist);
        let mv: i64 = fx_mul(viewport_height, focus_dist);
        let horizontal = u.scale(mh);
        let vertical = v.scale(mv);
        proof {
            lemma_mul_le(u.x as int, 65536, mh as int, 0x40_0000);
            lemma_mul_le(u.y as int, 65536, mh as int, 0x40_0000);
            lemma_mul_le(u.z as int, 65536, mh as int, 0x40_0000);
            lemma_div_t_size((u.x as int) * (mh as int), 65536, 0x40_0000);
            lemma_div_t_size((u.y as int) * (mh as int), 65536, 0x40_0000);
            lemma_div_t_size((u.z as int) * (mh as int), 65536, 0x40_0000);
            lemma_mul_le(v.x as int, 131072, mv as int, 0x40_0000);
            lemma_mul_le(v.y as int, 131072, mv as int, 0x40_0000);
            lemma_mul_le(v.z as int, 131072, mv as int, 0x40_0000);
            lemma_div_t_size((v.x as int) * (mv as int), 65536, 0x80_0000);
            lemma_div_t_size((v.y as int) * (mv as int), 65536, 0x80_0000);
            lemma_div_t_size((v.z as int) * (mv as int), 65536, 0x80_0000);
            lemma_mul_le(w.x as int, 65536, focus_dist as int, 0x40_0000);
            lemma_mul_le(w.y as int, 65536, focus_dist as int, 0x40_0000);
            lemma_mul_le(w.z as int, 65536, focus_dist as int, 0x40_0000);
            lemma_div_t_size((w.x as int) * (focus_dist as int), 65536, 0x40_0000);
            lemma_div_t_size((w.y as int) * (focus_dist as int), 65536, 0x40_0000);
            lemma_div_t_size((w.z as int) * (focus_dist as int), 65536, 0x40_0000);
            lemma_mul_le(horizontal.x as int, 0x40_0000, 65536, 65536);
            lemma_mul_le(horizontal.y as int, 0x40_0000, 65536, 65536);
            lemma_mul_le(horizontal.z as int, 0x40_0000, 65536, 65536);
            lemma_mul_le(vertical.x as int, 0x80_0000, 65536, 65536);
            lemma_mul_le(vertical.y as int, 0x80_0000, 65536, 65536);
            lemma_mul_le(vertical.z as int, 0x80_0000, 65536, 65536);
            lemma_div_t_size((horizontal.x as int) * 65536, 131072, 0x20_0000);
            lemma_div_t_size((horizontal.y as int) * 65536, 131072, 0x20_0000);
            lemma_div_t_size((horizontal.z as int) * 65536, 131072, 0x20_0000);
            lemma_div_t_size((vertical.x as int) * 65536, 131072, 0x40_0000);
            lemma_div_t_size((vertical.y as int) * 65536, 131072, 0x40_0000);
            lemma_div_t_size((vertical.z as int) * 65536, 131072, 0x40_0000);
        }
        let wfd = w.scale(focus_dist);
        let lower_left_corner = look_from.sub(horizontal.div(2 * SCALE)).sub(
            vertical.div(2 * SCALE),
        ).sub(wfd);

        let ih: u32 = div_i128((image_width as i128) * 65536, aspect_ratio as i128) as u32;

        Camera {
            look_from,
            u,
            v,
            w,
            horizontal,
            vertical,
            lower_left_corner,
            lens_radius: div_i128(aperture as i128, 2) as i64,
            viewport_height,
            viewport_width,
            aspect_ratio,
            image_width,
            image_height: ih,
            time0,
            time1,
        }
    }

    /// The ray through plate coordinates `(s, t)`: its origin is jittered
    /// inside the lens disk for defocus blur, its time drawn from the
    /// shutter window.
    pub fn get_ray(&self, s: i64, t: i64, rng: &mut rand::rngs::StdRng) -> (r: Ray)
        requires
            self.wf(),
            -65536 <= s <= 131072,
            -65536 <= t <= 131072,
        ensures
            r.wf(),
            self.time0 <= r.time <= self.time1,
            exists|d: (int, int)|
                #![auto]
                -65536 <= d.0 <= 65536 && -65536 <= d.1 <= 65536 && r.origin.v3() == (
                    self.look_from.x + fmul_s(self.u.x as int, fmul_s(d.0, self.lens_radius as int))
                        + fmul_s(self.v.x as int, fmul_s(d.1, self.lens_radius as int)),
                    self.look_from.y + fmul_s(self.u.y as int, fmul_s(d.0, self.lens_radius as int))
                        + fmul_s(self.v.y as int, fmul_s(d.1, self.lens_radius as int)),
                    self.look_from.z + fmul_s(self.u.z as int, fmul_s(d.0, self.lens_radius as int))
                        + fmul_s(self.v.z as int, fmul_s(d.1, self.lens_radius as int)),
                ) && r.direction.v3() == (
                    self.lower_left_corner.x + fmul_s(self.horizontal.x as int, s as int) + fmul_s(
                        self.vertical.x as int,
                        t as int,
                    ) - r.origin.x,
                    self.lower_left_corner.y + fmul_s(self.horizontal.y as int, s as int) + fmul_s(
                        self.vertical.y as int,
                        t as int,
                    ) - r.origin.y,
                    self.lower_left_corner.z + fmul_s(self.horizontal.z as int, s as int) + fmul_s(
                        self.vertical.z as int,
                        t as int,
                    ) - r.origin.z,
                ),
    {
        let rd = crate::vec3::random_in_unit_disk(rng);
        proof {
            lemma_mul_le(rd.x as int, 65536, self.lens_radius as int, 0x8_0000);
            lemma_mul_le(rd.y as int, 65536, self.lens_radius as int, 0x8_0000);
            lemma_mul_le(rd.z as int, 65536, self.lens_radius as int, 0x8_0000);
            lemma_div_t_size((rd.x as int) * (self.lens_radius as int), 65536, 0x8_0000);
            lemma_div_t_size((rd.y as int) * (self.lens_radius as int), 65536, 0x8_0000);
        }
        let rdl = rd.scale(self.lens_radius);
        proof {
            lemma_mul_le(self.u.x as int, 65536, rdl.x as int, 0x8_0000);
            lemma_mul_le(self.u.y as int, 65536, rdl.x as int, 0x8_0000);
            lemma_mul_le(self.u.z as int, 65536, rdl.x as int, 0x8_0000);
            lemma_mul_le(self.v.x as int, 131072, rdl.y as int, 0x8_0000);
            lemma_mul_le(self.v.y as int, 131072, rdl.y as int, 0x8_0000);
            lemma_mul_le(self.v.z as int, 131072, rdl.y as int, 0x8_0000);
            lemma_div_t_size((self.u.x as int) * (rdl.x as int), 65536, 0x8_0000);
            lemma_div_t_size((self.u.y as int) * (rdl.x as int), 65536, 0x8_0000);
            lemma_div_t_size((self.u.z as int) * (rdl.x as int), 65536, 0x8_0000);
            lemma_div_t_size((self.v.x as int) * (rdl.y as int), 65536, 0x10_0000);
            lemma_div_t_size((self.v.y as int) * (rdl.y as int), 65536, 0x10_0000);
            lemma_div_t_size((self.v.z as int) * (rdl.y as int), 65536, 0x10_0000);
        }
        let offset = self.u.scale(rdl.x).add(self.v.scale(rdl.y));
        let origin = self.look_from.add(offset);
        proof {
            lemma_mul_le(self.horizontal.x as int, 0x40_0000, s as int, 131072);
            lemma_mul_le(self.horizontal.y as int, 0x40_0000, s as int, 131072);
            lemma_mul_le(self.horizontal.z as int, 0x40_0000, s as int, 131072);
            lemma_mul_le(self.vertical.x as int, 0x80_0000, t as int, 131072);
            lemma_mul_le(self.vertical.y as int, 0x80_0000, t as int, 131072);
            lemma_mul_le(self.vertical.z as int, 0x80_0000, t as int, 131072);
            lemma_div_t_size((self.horizontal.x as int) * (s as int), 65536, 0x80_0000);
            lemma_div_t_size((self.horizontal.y as int) * (s as int), 65536, 0x80_0000);
            lemma_div_t_size((self.horizontal.z as int) * (s as int), 65536, 0x80_0000);
            lemma_div_t_size((self.vertical.x as int) * (t as int), 65536, 0x100_0000);
            lemma_div_t_size((self.vertical.y as int) * (t as int), 65536, 0x100_0000);
            lemma_div_t_size((self.vertical.z as int) * (t as int), 65536, 0x100_0000);
        }
        let direction = self
            .lower_left_corner
            .add(self.horizontal.scale(s))
            .add(self.vertical.scale(t))
            .sub(origin);
        let time: i64 = random_fixed(rng, self.time0, self.time1);
        let r = Ray { origin, direction, time };
        proof {
            let d: (int, int) = (rd.x as int, rd.y as int);
            assert(-65536 <= d.0 <= 65536 && -65536 <= d.1 <= 65536);
        }
        r
    }
}

} // verus!
