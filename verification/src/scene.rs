//! Scene construction: the randomized demo field of small spheres around
//! three large feature spheres on a ground sphere.

use vstd::prelude::*;

use crate::fixed::fmul_s;
use crate::fixed::sqrt_t;
use crate::fixed::SCALE;
use crate::fixed::lemma_fmul_frac;
use crate::fixed::lemma_mul_le;
use crate::item::Sphere;
use crate::material::Material;
use crate::rng::random_fixed;
use crate::vec3::color;
use crate::vec3::lemma_component_le_sqrt;
use crate::vec3::lsq3;
use crate::vec3::random_color;
use crate::vec3::random_color_range;
use crate::vec3::Vec3;

verus! {

/// Every sphere of the scene is well-formed.
pub open spec fn scene_wf(world: Seq<Sphere>) -> bool {
    forall|i: int| 0 <= i < world.len() ==> (#[trigger] world[i]).wf()
}

/// Every sphere of the scene can be evaluated at time `t`.
pub open spec fn scene_time_ok(world: Seq<Sphere>, t: int) -> bool {
    forall|i: int| 0 <= i < world.len() ==> (#[trigger] world[i]).time_ok(t)
}

/// Every sphere of the scene covers the whole shutter window `[0, 1]`.
pub open spec fn scene_covers_shutter(world: Seq<Sphere>) -> bool {
    forall|i: int|
        0 <= i < world.len() ==> (#[trigger] world[i]).time0 == 0 && world[i].time1
            >= SCALE as int
}

/// The gray ground sphere that anchors the randomized scene.
pub open spec fn ground_sphere() -> Sphere {
    Sphere {
        center0: Vec3 { x: 0, y: -65536000i64, z: 0 },
        center1: Vec3 { x: 0, y: -65536000i64, z: 0 },
        radius: 65536000,
        material: Material::Lambertian,
        attenuation: Vec3 { x: 32768, y: 32768, z: 32768 },
        metal_fuzz: 0,
        time0: 0,
        time1: 65536,
    }
}

/// The large glass sphere at the scene's center.
pub open spec fn feature_glass() -> Sphere {
    Sphere {
        center0: Vec3 { x: 0, y: 65536, z: 0 },
        center1: Vec3 { x: 0, y: 65536, z: 0 },
        radius: 65536,
        material: Material::Dielectric,
        attenuation: Vec3 { x: 65536, y: 65536, z: 65536 },
        metal_fuzz: 0,
        time0: 0,
        time1: 65536,
    }
}

/// The large brown diffuse sphere on the scene's left.
pub open spec fn feature_diffuse() -> Sphere {
    Sphere {
        center0: Vec3 { x: -262144i64, y: 65536, z: 0 },
        center1: Vec3 { x: -262144i64, y: 65536, z: 0 },
        radius: 65536,
        material: Material::Lambertian,
        attenuation: Vec3 { x: 26214, y: 13107, z: 6553 },
        metal_fuzz: 0,
        time0: 0,
        time1: 65536,
    }
}

/// The large polished metal sphere on the scene's right.
pub open spec fn feature_metal() -> Sphere {
    Sphere {
        center0: Vec3 { x: 262144, y: 65536, z: 0 },
        center1: Vec3 { x: 262144, y: 65536, z: 0 },
        radius: 65536,
        material: Material::Metal,
        attenuation: Vec3 { x: 45875, y: 39321, z: 32768 },
        metal_fuzz: 0,
        time0: 0,
        time1: 65536,
    }
}

/// A grid coordinate: cell index `a` scaled to units, plus up to nine
/// tenths of a unit of jitter `j`.
pub open spec fn grid_coord(a: int, j: int) -> int {
    a * 65536 + fmul_s(58982, j)
}

/// What holds of every small sphere the randomized grid pushes: a fifth of
/// a unit's radius resting on the ground plane, a jittered grid position
/// kept clear of the metal feature sphere, one of the three real materials
/// with its drawn parameters in range, and motion (if any) straight up over
/// the long shutter window.
pub open spec fn small_sphere_ok(s: Sphere) -> bool {
    &&& s.radius == 13107
    &&& s.center0.y == 13107
    &&& s.time0 == 0
    &&& (s.time1 == 65536 || s.time1 == 655360)
    &&& (s.time1 == 65536 ==> s.center1 == s.center0)
    &&& s.center1.x == s.center0.x
    &&& s.center1.z == s.center0.z
    &&& s.center0.y <= s.center1.y < s.center0.y + 32768
    &&& (exists|a: int, j: int|
        -11 <= a <= 10 && 0 <= j < 65536 && s.center0.x == #[trigger] grid_coord(a, j))
    &&& (exists|b: int, j: int|
        -11 <= b <= 10 && 0 <= j < 65536 && s.center0.z == #[trigger] grid_coord(b, j))
    &&& sqrt_t(lsq3((s.center0.x - 262144, 0, s.center0.z as int))) > 58982
    &&& (s.material == Material::Lambertian || s.material == Material::Metal || s.material
        == Material::Dielectric)
    &&& (s.material == Material::Lambertian ==> s.metal_fuzz == 0 && 0 <= s.attenuation.x < 65536
        && 0 <= s.attenuation.y < 65536 && 0 <= s.attenuation.z < 65536)
    &&& (s.material == Material::Metal ==> 0 <= s.metal_fuzz < 32768 && 32768 <= s.attenuation.x
        < 65536 && 32768 <= s.attenuation.y < 65536 && 32768 <= s.attenuation.z < 65536
        && s.time1 == 65536)
    &&& (s.material == Material::Dielectric ==> s.metal_fuzz == 0 && s.attenuation.v3() == (
        65536int,
        65536int,
        65536int,
    ) && s.time1 == 65536)
}

/// Whether grid cell `(a, b)` lies so far from the metal feature sphere at
/// `(4, 0.2, 0)` that every jitter draw keeps it.
pub open spec fn cell_kept(a: int, b: int) -> bool {
    a <= 1 || a >= 6 || b <= -2 || b >= 2
}

/// How many cells of row `a` before column `b` every draw keeps.
pub open spec fn cells_kept(a: int, b: int) -> int {
    if a <= 1 || a >= 6 {
        b + 11
    } else if b <= -1 {
        b + 11
    } else if b <= 2 {
        10
    } else {
        b + 8
    }
}

/// How many cells of the rows before row `a` every draw keeps.
pub open spec fn rows_kept(a: int) -> int {
    if a <= 2 {
        22 * (a + 11)
    } else if a <= 6 {
        286 + 19 * (a - 2)
    } else {
        362 + 22 * (a - 6)
    }
}

pub struct Scene {}

impl Scene {
    /// The randomized demo scene: a large gray ground sphere, a grid of
    /// small spheres with randomly drawn materials and positions (skipping
    /// positions too close to the right feature sphere), and three large
    /// feature spheres: glass, diffuse brown, and polished metal.
    pub fn random_scene(rng: &mut rand::rngs::StdRng) -> (world: Vec<Sphere>)
        ensures
            scene_wf(world@),
            scene_covers_shutter(world@),
            forall|t: int| 0 <= t <= SCALE as int ==> scene_time_ok(world@, t),
            4 <= world@.len(),
            476 <= world@.len() <= 488,
            world@[0] == ground_sphere(),
            world@[world@.len() - 3] == feature_glass(),
            world@[world@.len() - 2] == feature_diffuse(),
            world@[world@.len() - 1] == feature_metal(),
            forall|i: int|
                1 <= i < world@.len() - 3 ==> small_sphere_ok(#[trigger] world@[i]),
    {
        let mut world: Vec<Sphere> = Vec::new();

        world.push(
            Sphere::new(
                Vec3::new(0, -1000 * SCALE, 0),
                Vec3::new(0, -1000 * SCALE, 0),
                1000 * SCALE,
                Material::Lambertian,
                color(32768, 32768, 32768),
                0,
                0,
                SCALE,
            ),
        );

        let mut a: i64 = -11;
        while a < 11
            invariant
                -11 <= a <= 11,
                scene_wf(world@),
                scene_covers_shutter(world@),
                1 + rows_kept(a as int) <= world@.len() <= 1 + 22 * (a + 11),
                world@[0] == ground_sphere(),
                forall|i: int| 1 <= i < world@.len() ==> small_sphere_ok(#[trigger] world@[i]),
            decreases 11 - a,
        {
            let mut b: i64 = -11;
            while b < 11
                invariant
                    -11 <= a < 11,
                    -11 <= b <= 11,
                    scene_wf(world@),
                    scene_covers_shutter(world@),
                    1 + rows_kept(a as int) + cells_kept(a as int, b as int) <= world@.len()
                        <= 1 + 22 * (a + 11) + (b + 11),
                    world@[0] == ground_sphere(),
                    forall|i: int| 1 <= i < world@.len() ==> small_sphere_ok(#[trigger] world@[i]),
                decreases 11 - b,
            {
                let choose_mat: i64 = random_fixed(rng, 0, SCALE);
                let jx: i64 = random_fixed(rng, 0, SCALE);
                let jz: i64 = random_fixed(rng, 0, SCALE);
                proof {
                    lemma_fmul_frac(58982, jx as int);
                    lemma_fmul_frac(58982, jz as int);
                    lemma_mul_le(58982, 65536, jx as int, 65536);
                    lemma_mul_le(58982, 65536, jz as int, 65536);
                }
                let center = Vec3::new(
                    a * SCALE + crate::fixed::fx_mul(58982, jx),
                    13107,
                    b * SCALE + crate::fixed::fx_mul(58982, jz),
                );
                let anchor = Vec3::new(4 * SCALE, 13107, 0);
                let away = center.sub(anchor);
                let away_len = away.length();
                proof {
                    assert(center.x == grid_coord(a as int, jx as int));
                    assert(center.z == grid_coord(b as int, jz as int));
                }
                if away_len > 58982 {
                    let ghost before = world@;
                    if choose_mat < 39321 {
                        // diffuse, stationary
                        let c1 = random_color(rng);
                        let c2 = random_color(rng);
                        proof {
                            lemma_fmul_frac(c1.x as int, c2.x as int);
                            lemma_fmul_frac(c1.y as int, c2.y as int);
                            lemma_fmul_frac(c1.z as int, c2.z as int);
                        }
                        let albedo = c1.mul(c2);
                        let s = Sphere::new(
                            center,
                            center,
                            13107,
                            Material::Lambertian,
                            albedo,
                            0,
                            0,
                            SCALE,
                        );
                        proof {
                            assert(small_sphere_ok(s));
                        }
                        world.push(s);
                    } else if choose_mat < 52428 {
                        // diffuse, drifting upward over a long window
                        let c1 = random_color(rng);
                        let c2 = random_color(rng);
                        proof {
                            lemma_fmul_frac(c1.x as int, c2.x as int);
                            lemma_fmul_frac(c1.y as int, c2.y as int);
                            lemma_fmul_frac(c1.z as int, c2.z as int);
                        }
                        let albedo = c1.mul(c2);
                        let rise: i64 = random_fixed(rng, 0, 32768);
                        let center1 = Vec3::new(center.x, center.y + rise, center.z);
                        let s = Sphere::new(
                            center,
                            center1,
                            13107,
                            Material::Lambertian,
                            albedo,
                            0,
                            0,
                            10 * SCALE,
                        );
                        proof {
                            assert(small_sphere_ok(s));
                        }
                        world.push(s);
                    } else if choose_mat < 62259 {
                        // metal
                        let albedo = random_color_range(rng, 32768, SCALE);
                        let fuzz: i64 = random_fixed(rng, 0, 32768);
                        let s = Sphere::new(
                            center,
                            center,
                            13107,
                            Material::Metal,
                            albedo,
                            fuzz,
                            0,
                            SCALE,
                        );
                        proof {
                            assert(small_sphere_ok(s));
                        }
                        world.push(s);
                    } else {
                        // glass
                        let s = Sphere::new(
                            center,
                            center,
                            13107,
                            Material::Dielectric,
                            color(SCALE, SCALE, SCALE),
                            0,
                            0,
                            SCALE,
                        );
                        proof {
                            assert(small_sphere_ok(s));
                        }
                        world.push(s);
                    }
                } else {
                    proof {
                        // a kept cell sits at least two units from the anchor
                        // along one axis, so its draws never land this close
                        if cell_kept(a as int, b as int) {
                            lemma_component_le_sqrt(away.v3());
                            assert(false);
                        }
                    }
                }
                b = b + 1;
            }
            a = a + 1;
        }

        world.push(
            Sphere::new(
                Vec3::new(0, SCALE, 0),
                Vec3::new(0, SCALE, 0),
                SCALE,
                Material::Dielectric,
                color(SCALE, SCALE, SCALE),
                0,
                0,
                SCALE,
            ),
        );
        world.push(
            Sphere::new(
                Vec3::new(-4 * SCALE, SCALE, 0),
                Vec3::new(-4 * SCALE, SCALE, 0),
                SCALE,
                Material::Lambertian,
                color(26214, 13107, 6553),
                0,
                0,
                SCALE,
            ),
        );
        world.push(
            Sphere::new(
                Vec3::new(4 * SCALE, SCALE, 0),
                Vec3::new(4 * SCALE, SCALE, 0),
                SCALE,
                Material::Metal,
                color(45875, 39321, 32768),
                0,
                0,
                SCALE,
            ),
        );

        world
    }
}

} // verus!
