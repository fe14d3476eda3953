//! Rays: an origin, a direction and a time stamp for motion blur.

use vstd::prelude::*;

use crate::fixed::fmul_s;
use crate::fixed::fx_mul;
use crate::fixed::lemma_mul_le;
use crate::fixed::lemma_div_t_size;
use crate::vec3::Vec3;

verus! {

/// The point reached from origin `o` along direction `d` after parameter
/// `t`: `o + d * t`.
pub open spec fn at3(o: (int, int, int), d: (int, int, int), t: int) -> (int, int, int) {
    (o.0 + fmul_s(d.0, t), o.1 + fmul_s(d.1, t), o.2 + fmul_s(d.2, t))
}

pub struct Ray {
    pub origin: Vec3,
    pub direction: Vec3,
    pub time: i64,
}

impl Ray {
    /// A well-formed ray: the origin sits inside the world cube, the
    /// direction is modest, and the time stamp is a bounded shutter instant.
    pub open spec fn wf(self) -> bool {
        &&& self.origin.bounded(0x4000_0000)
        &&& self.direction.bounded(0x400_0000)
        &&& 0 <= self.time <= 0x400_0000
    }

    pub fn new(origin: Vec3, direction: Vec3, time: i64) -> (r: Ray)
        ensures
            r.origin == origin,
            r.direction == direction,
            r.time == time,
    {
        Ray { origin, direction, time }
    }

    pub fn direction(&self) -> (r: Vec3)
        ensures
            r == self.direction,
    {
        self.direction
    }

    pub fn origin(&self) -> (r: Vec3)
        ensures
            r == self.origin,
    {
        self.origin
    }

    pub fn time(&self) -> (r: i64)
        ensures
            r == self.time,
    {
        self.time
    }

    /// The point at parameter `t` along the ray.
    pub fn at(&self, t: i64) -> (r: Vec3)
        requires
            self.wf(),
            -0x10_0000_0000 <= t <= 0x10_0000_0000,
        ensures
            r.v3() == at3(self.origin.v3(), self.direction.v3(), t as int),
    {
        proof {
            lemma_mul_le(self.direction.x as int, 0x400_0000, t as int, 0x10_0000_0000);
            lemma_mul_le(self.direction.y as int, 0x400_0000, t as int, 0x10_0000_0000);
            lemma_mul_le(self.direction.z as int, 0x400_0000, t as int, 0x10_0000_0000);
            lemma_div_t_size((self.direction.x as int) * (t as int), 65536, 0x4_0000_0000_0000);
            lemma_div_t_size((self.direction.y as int) * (t as int), 65536, 0x4_0000_0000_0000);
            lemma_div_t_size((self.direction.z as int) * (t as int), 65536, 0x4_0000_0000_0000);
        }
        Vec3 {
            x: self.origin.x + fx_mul(self.direction.x, t),
            y: self.origin.y + fx_mul(self.direction.y, t),
            z: self.origin.z + fx_mul(self.direction.z, t),
        }
    }
}

} // verus!
