//! The record of one ray/surface intersection.

use vstd::prelude::*;

use crate::material::Material;
use crate::ray::Ray;
use crate::vec3::dot3;
use crate::vec3::dot_wide;
use crate::vec3::Vec3;

verus! {

/// The parametric distance that the no-hit sentinel record carries: larger
/// than the distance of any real hit, so it can start a closest-hit scan.
pub const T_INF: i64 = 0x7fff_ffff_ffff_ffff;

/// The result of one intersection test: where the surface was met, the
/// outward-corrected normal, the parametric distance, and what the surface
/// scatters with.
#[derive(Debug)]
pub struct HitRecord {
    pub point: Vec3,
    pub normal: Vec3,
    pub front_face: bool,
    pub t: i64,
    pub material: Material,
    pub attenuation: Vec3,
    pub metal_fuzz: i64,
}

impl HitRecord {
    pub fn new(
        point: Vec3,
        normal: Vec3,
        front_face: bool,
        t: i64,
        material: Material,
        attenuation: Vec3,
        metal_fuzz: i64,
    ) -> (r: HitRecord)
        ensures
            r.point == point,
            r.normal == normal,
            r.front_face == front_face,
            r.t == t,
            r.material == material,
            r.attenuation == attenuation,
            r.metal_fuzz == metal_fuzz,
    {
        HitRecord { point, normal, front_face, t, material, attenuation, metal_fuzz }
    }

    /// The sentinel record meaning "nothing was hit": its distance is
    /// `T_INF`, so any real hit compares closer.
    pub fn not_hit() -> (r: HitRecord)
        ensures
            r.t == T_INF,
            r.material == Material::Unset,
            r.point.v3() == (0int, 0int, 0int),
            r.normal.v3() == (0int, 0int, 0int),
            r.attenuation.v3() == (0int, 0int, 0int),
            !r.front_face,
            r.metal_fuzz == 0,
    {
        HitRecord {
            point: Vec3 { x: 0, y: 0, z: 0 },
            normal: Vec3 { x: 0, y: 0, z: 0 },
            front_face: false,
            t: T_INF,
            material: Material::Unset,
            attenuation: Vec3 { x: 0, y: 0, z: 0 },
            metal_fuzz: 0,
        }
    }

    pub fn point(&self) -> (r: Vec3)
        ensures
            r == self.point,
    {
        self.point
    }

    pub fn normal(&self) -> (r: Vec3)
        ensures
            r == self.normal,
    {
        self.normal
    }

    pub fn material(&self) -> (r: Material)
        ensures
            r == self.material,
    {
        self.material
    }

    pub fn t(&self) -> (r: i64)
        ensures
            r == self.t,
    {
        self.t
    }

    pub fn attenuation(&self) -> (r: Vec3)
        ensures
            r == self.attenuation,
    {
        self.attenuation
    }

    pub fn metal_fuzz(&self) -> (r: i64)
        ensures
            r == self.metal_fuzz,
    {
        self.metal_fuzz
    }

    pub fn front_face(&self) -> (r: bool)
        ensures
            r == self.front_face,
    {
        self.front_face
    }

    /// Store the outward-corrected normal: the given outward normal when the
    /// ray meets the surface from outside (their exact dot product is
    /// negative), its negation otherwise, so the stored normal always points
    /// against the ray.
    pub fn set_face_normal(&mut self, ray: &Ray, outward_normal: Vec3)
        requires
            ray.direction.bounded(0x4000_0000),
            outward_normal.bounded(0x4000_0000),
        ensures
            final(self).front_face == (dot3(ray.direction.v3(), outward_normal.v3()) < 0),
            final(self).front_face ==> final(self).normal == outward_normal,
            !final(self).front_face ==> final(self).normal.v3() == (
                -outward_normal.x as int,
                -outward_normal.y as int,
                -outward_normal.z as int,
            ),
            final(self).point == old(self).point,
            final(self).t == old(self).t,
            final(self).material == old(self).material,
            final(self).attenuation == old(self).attenuation,
            final(self).metal_fuzz == old(self).metal_fuzz,
    {
        let d: i128 = dot_wide(ray.direction, outward_normal);
        self.front_face = d < 0;
        if self.front_face {
            self.normal = outward_normal;
        } else {
            self.normal = Vec3 {
                x: -outward_normal.x,
                y: -outward_normal.y,
                z: -outward_normal.z,
            };
        }
    }
}

} // verus!
