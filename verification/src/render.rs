//! The render driver: the closest-hit scan over the scene, recursive
//! material scattering, and the per-pixel sample loop.

use vstd::prelude::*;

use crate::camera::Camera;
use crate::color::write_color;
use crate::fixed::div_t;
use crate::fixed::div_i128;
use crate::fixed::fx_div;
use crate::fixed::lemma_div_t_size;
use crate::fixed::lemma_fmul_frac;
use crate::fixed::lemma_mul_le;
use crate::fixed::SCALE;
use crate::hitrecord::HitRecord;
use crate::hitrecord::T_INF;
use crate::item::Sphere;
use crate::material::Material;
use crate::ray::Ray;
use crate::rng::random_fixed;
use crate::scene::scene_time_ok;
use crate::scene::scene_wf;
use crate::vec3::color;
use crate::vec3::dot3;
use crate::vec3::lsq3;
use crate::vec3::origin;
use crate::vec3::random_unit_vector;
use crate::vec3::reflect;
use crate::vec3::refract;
use crate::vec3::unit3;
use crate::vec3::unit_vector;
use crate::vec3::Vec3;

verus! {

/// The parametric distance below which a hit is ignored, so a scattered ray
/// does not immediately re-hit the surface it just left (shadow acne).
pub const TMIN_HIT: i64 = 66;

/// The refractive index of every dielectric surface.
pub const REF_IDX: i64 = 111411;

/// The background gradient: a vertical blend from white toward sky blue,
/// remapped from the unit direction's height through a diagonal basis.
pub open spec fn sky3(d: (int, int, int)) -> (int, int, int) {
    let u = unit3(d);
    let t = div_t((u.1 + 46341) * 65536, 92681);
    (
        crate::fixed::fmul_s(65536, 65536 - t) + crate::fixed::fmul_s(32768, t),
        crate::fixed::fmul_s(65536, 65536 - t) + crate::fixed::fmul_s(45875, t),
        crate::fixed::fmul_s(65536, 65536 - t) + crate::fixed::fmul_s(65536, t),
    )
}

/// The sky's blue channel is exactly one unit for every direction: its
/// blend weights are both full-scale products, which divide exactly.
pub proof fn lemma_sky_blue_full(d: (int, int, int))
    ensures
        sky3(d).2 == 65536,
{
    let u = unit3(d);
    let t = div_t((u.1 + 46341) * 65536, 92681);
    crate::fixed::lemma_div_t_exact(65536 - t, 65536);
    crate::fixed::lemma_div_t_exact(t, 65536);
    assert((65536 - t) * 65536 == 65536 * (65536 - t) && t * 65536 == 65536 * t)
        by (nonlinear_arith);
}

/// One sky-gradient channel stays within `[0, 2]` units.
proof fn lemma_sky_channel(b: int, t: int)
    requires
        32768 <= b <= 65536,
        -79113 <= t <= 79113,
    ensures
        0 <= crate::fixed::fmul_s(65536, 65536 - t) + crate::fixed::fmul_s(b, t) <= 131072,
{
    crate::fixed::lemma_div_t_exact(65536 - t, 65536);
    assert((65536 - t) * 65536 == 65536 * (65536 - t)) by (nonlinear_arith);
    assert(crate::fixed::fmul_s(65536, 65536 - t) == 65536 - t);
    crate::fixed::lemma_div_t_remainder(b * t, 65536);
    let q = div_t(b * t, 65536);
    let rem = b * t - 65536 * q;
    assert(0 <= (65536 - t) + q && (65536 - t) + q <= 131072) by (nonlinear_arith)
        requires
            32768 <= b <= 65536,
            -79113 <= t <= 79113,
            rem == b * t - 65536 * q,
            -65536 < rem < 65536;
}

/// The sky gradient for a non-degenerate direction, matching `sky3` exactly.
pub fn sky_color(direction: Vec3) -> (r: Vec3)
    requires
        direction.bounded(0x400_0000),
        1 <= lsq3(direction.v3()),
    ensures
        r.v3() == sky3(direction.v3()),
        0 <= r.x <= 131072,
        0 <= r.y <= 131072,
        0 <= r.z <= 131072,
{
    let u = unit_vector(direction);
    let t: i64 = fx_div(u.y + 46341, 92681);
    proof {
        lemma_div_t_size((u.y + 46341) as int * 65536, 92681, 79113);
        lemma_sky_channel(32768, t as int);
        lemma_sky_channel(45875, t as int);
        lemma_sky_channel(65536, t as int);
    }
    let white = color(SCALE, SCALE, SCALE);
    let blue = color(32768, 45875, 65536);
    white.scale(SCALE - t).add(blue.scale(t))
}

/// Scan every surface and keep the nearest hit, shrinking the window's far
/// end as closer hits are found. The sentinel record (distance `T_INF`)
/// comes back exactly when no surface is hit inside the window.
pub fn closest_hit(world: &Vec<Sphere>, ray: &Ray, tmin: i64, tmax: i64) -> (r: HitRecord)
    requires
        scene_wf(world@),
        scene_time_ok(world@, ray.time as int),
        ray.wf(),
    ensures
        (r.t == T_INF) == !(exists|i: int|
            0 <= i < world@.len() && (#[trigger] world@[i]).hit_accept(
                *ray,
                tmin as int,
                tmax as int,
            )),
        r.t != T_INF ==> exists|i: int|
            0 <= i < world@.len() && (#[trigger] world@[i]).hit_accept(*ray, tmin as int, tmax as int)
                && world@[i].is_hit_record_for(*ray, r),
        forall|i: int|
            0 <= i < world@.len() && (#[trigger] world@[i]).hit_accept(*ray, tmin as int, tmax as int)
                ==> r.t <= world@[i].hit_root(*ray),
        r.t != T_INF ==> tmin < r.t < tmax,
    {
        let mut closest = HitRecord::not_hit();
        let mut cur_tmax: i64 = tmax;
        let mut i: usize = 0;
        while i < world.len()
            invariant
                0 <= i <= world@.len(),
                scene_wf(world@),
                scene_time_ok(world@, ray.time as int),
                ray.wf(),
                closest.t == T_INF ==> cur_tmax == tmax,
                closest.t == T_INF ==> forall|j: int|
                    0 <= j < i ==> !(#[trigger] world@[j]).hit_accept(
                        *ray,
                        tmin as int,
                        tmax as int,
                    ),
                closest.t != T_INF ==> cur_tmax == closest.t && tmin < closest.t < tmax,
                closest.t != T_INF ==> exists|j: int|
                    0 <= j < i && (#[trigger] world@[j]).hit_accept(*ray, tmin as int, tmax as int)
                        && world@[j].is_hit_record_for(*ray, closest),
                forall|j: int|
                    0 <= j < i && (#[trigger] world@[j]).hit_accept(*ray, tmin as int, tmax as int)
                        ==> closest.t <= world@[j].hit_root(*ray),
            decreases world@.len() - i,
        {
            let s = &world[i];
            match s.hit(ray, tmin, cur_tmax) {
                Some(h) => {
                    if closest.t > h.t {
                        closest = h;
                        cur_tmax = closest.t;
                    }
                },
                None => {},
            }
            i = i + 1;
        }
        closest
    }

/// Whether sphere `i` of the scene reports a hit for `ray` inside the
/// trace window `(TMIN_HIT, T_INF)`.
pub open spec fn traced_hit(world: Seq<Sphere>, ray: Ray, i: int) -> bool {
    0 <= i < world.len() && world[i].hit_accept(ray, TMIN_HIT as int, T_INF as int)
}

/// What a scatter result looks like for the material of the nearest hit
/// sphere `i`: pure red for `Unset`, the sphere's attenuation times some
/// bounded traced color for the attenuating materials, and an unconstrained
/// (but bounded) recursive trace for glass.
pub open spec fn scatter_shape(world: Seq<Sphere>, i: int, r: Vec3) -> bool {
    if world[i].material == Material::Unset {
        r.v3() == (65536int, 0int, 0int)
    } else if world[i].material == Material::Dielectric {
        true
    } else {
        exists|c: (int, int, int)|
            #![auto]
            0 <= c.0 <= 131072 && 0 <= c.1 <= 131072 && 0 <= c.2 <= 131072 && r.v3() == (
                crate::fixed::fmul_s(c.0, world[i].attenuation.x as int),
                crate::fixed::fmul_s(c.1, world[i].attenuation.y as int),
                crate::fixed::fmul_s(c.2, world[i].attenuation.z as int),
            )
    }
}

/// Trace a ray through the scene for at most `depth` scatter events and
/// return the color it carries: black once the depth is exhausted or for a
/// degenerate direction, the sky gradient when nothing is hit, and otherwise
/// the scattered color attenuated by the surface.
pub fn ray_color(
    ray: &Ray,
    world: &Vec<Sphere>,
    depth: u32,
    rng: &mut rand::rngs::StdRng,
) -> (r: Vec3)
    requires
        ray.wf(),
        scene_wf(world@),
        scene_time_ok(world@, ray.time as int),
    ensures
        0 <= r.x <= 131072,
        0 <= r.y <= 131072,
        0 <= r.z <= 131072,
        depth == 0 ==> r.v3() == (0int, 0int, 0int),
        (depth >= 1 && !(exists|i: int| #[trigger] traced_hit(world@, *ray, i)) && lsq3(
            ray.direction.v3(),
        ) >= 1) ==> r.v3() == sky3(ray.direction.v3()),
        (world@.len() == 0 && depth >= 1 && lsq3(ray.direction.v3()) >= 1) ==> r.v3() == sky3(
            ray.direction.v3(),
        ),
        world@.len() == 0 ==> r.z == 0 || r.z == 65536,
        (depth >= 1 && (exists|i: int| #[trigger] traced_hit(world@, *ray, i))) ==> exists|i: int|
            {
                &&& #[trigger] traced_hit(world@, *ray, i)
                &&& forall|j: int|
                    #[trigger] traced_hit(world@, *ray, j) ==> world@[i].hit_root(*ray)
                        <= world@[j].hit_root(*ray)
                &&& scatter_shape(world@, i, r)
            },
    decreases depth,
{
    if depth == 0 {
        return origin();
    }

    let rec = closest_hit(world, ray, TMIN_HIT, T_INF);

    if rec.t == T_INF {
        proof {
            if exists|i: int| traced_hit(world@, *ray, i) {
                let k = choose|i: int| traced_hit(world@, *ray, i);
                assert(world@[k].hit_accept(*ray, TMIN_HIT as int, T_INF as int));
                assert(false);
            }
        }
        proof {
            lemma_mul_le(ray.direction.x as int, 0x400_0000, ray.direction.x as int, 0x400_0000);
            lemma_mul_le(ray.direction.y as int, 0x400_0000, ray.direction.y as int, 0x400_0000);
            lemma_mul_le(ray.direction.z as int, 0x400_0000, ray.direction.z as int, 0x400_0000);
        }
        let dlsq: i64 = ray.direction.x * ray.direction.x + ray.direction.y * ray.direction.y
            + ray.direction.z * ray.direction.z;
        proof {
            assert(dlsq == lsq3(ray.direction.v3()));
            crate::vec3::lemma_lsq3_nonneg(ray.direction.v3());
        }
        if dlsq == 0 {
            // a ray that goes nowhere carries no light
            return origin();
        }
        proof {
            lemma_sky_blue_full(ray.direction.v3());
        }
        return sky_color(ray.direction);
    }

    let ghost wi: int = choose|i: int|
        0 <= i < world@.len() && (#[trigger] world@[i]).hit_accept(*ray, TMIN_HIT as int, T_INF as int)
            && world@[i].is_hit_record_for(*ray, rec);
    proof {
        assert(world@[wi].wf());
        assert(world@[wi].quad_a(*ray) >= 1);
        assert(lsq3(ray.direction.v3()) >= 1);
        assert(traced_hit(world@, *ray, wi));
        assert forall|j: int| #[trigger] traced_hit(world@, *ray, j) implies world@[
            wi
        ].hit_root(*ray) <= world@[j].hit_root(*ray) by {
            assert(world@[j].hit_accept(*ray, TMIN_HIT as int, T_INF as int));
        }
    }

    match rec.material {
        Material::Lambertian => {
            let bounce = random_unit_vector(rng);
            let target = rec.point.add(rec.normal).add(bounce);
            let new_dir = target.sub(rec.point);
            let new_ray = Ray { origin: rec.point, direction: new_dir, time: ray.time };
            let traced = ray_color(&new_ray, world, depth - 1, rng);
            proof {
                lemma_fmul_frac(traced.x as int, rec.attenuation.x as int);
                lemma_fmul_frac(traced.y as int, rec.attenuation.y as int);
                lemma_fmul_frac(traced.z as int, rec.attenuation.z as int);
            }
            let out = traced.mul(rec.attenuation);
            proof {
                assert(scatter_shape(world@, wi, out)) by {
                    let c = (traced.x as int, traced.y as int, traced.z as int);
                    assert(out.v3() == (
                        crate::fixed::fmul_s(c.0, world@[wi].attenuation.x as int),
                        crate::fixed::fmul_s(c.1, world@[wi].attenuation.y as int),
                        crate::fixed::fmul_s(c.2, world@[wi].attenuation.z as int),
                    ));
                }
            }
            out
        },
        Material::Metal => {
            let unit_dir = unit_vector(ray.direction);
            let reflected = reflect(unit_dir, rec.normal);
            let bounce = random_unit_vector(rng);
            proof {
                lemma_fmul_frac(bounce.x as int, rec.metal_fuzz as int);
                lemma_fmul_frac(bounce.y as int, rec.metal_fuzz as int);
                lemma_fmul_frac(bounce.z as int, rec.metal_fuzz as int);
            }
            let fuzz = bounce.scale(rec.metal_fuzz);
            let new_dir = reflected.add(fuzz);
            let new_ray = Ray { origin: rec.point, direction: new_dir, time: ray.time };
            let traced = ray_color(&new_ray, world, depth - 1, rng);
            proof {
                lemma_fmul_frac(traced.x as int, rec.attenuation.x as int);
                lemma_fmul_frac(traced.y as int, rec.attenuation.y as int);
                lemma_fmul_frac(traced.z as int, rec.attenuation.z as int);
            }
            let out = traced.mul(rec.attenuation);
            proof {
                assert(scatter_shape(world@, wi, out)) by {
                    let c = (traced.x as int, traced.y as int, traced.z as int);
                    assert(out.v3() == (
                        crate::fixed::fmul_s(c.0, world@[wi].attenuation.x as int),
                        crate::fixed::fmul_s(c.1, world@[wi].attenuation.y as int),
                        crate::fixed::fmul_s(c.2, world@[wi].attenuation.z as int),
                    ));
                }
            }
            out
        },
        Material::Dielectric => {
            let etai_over_etat: i64 = if rec.front_face {
                fx_div(SCALE, REF_IDX)
            } else {
                REF_IDX
            };
            proof {
                lemma_div_t_size(0x1_0000_0000, 111411, 65536);
            }
            let unit_dir = unit_vector(ray.direction);
            proof {
                crate::vec3::lemma_dot3_bound(unit_dir.v3(), rec.normal.v3(), 131072);
                lemma_div_t_size(dot3(unit_dir.v3(), rec.normal.v3()), 65536, 786432);
            }
            let raw_cos: i64 = -unit_dir.dot(rec.normal);
            let cos_theta: i64 = if raw_cos < SCALE {
                raw_cos
            } else {
                SCALE
            };
            let reflect_prob: i64 = Material::shlick(cos_theta, etai_over_etat);
            let coin: i64 = random_fixed(rng, 0, SCALE);
            let new_dir: Vec3 = if coin < reflect_prob {
                reflect(unit_dir, rec.normal)
            } else {
                refract(unit_dir, rec.normal, etai_over_etat)
            };
            let new_ray = Ray { origin: rec.point, direction: new_dir, time: ray.time };
            ray_color(&new_ray, world, depth - 1, rng)
        },
        Material::Unset => {
            // flagged color for a surface built without a material
            color(SCALE, 0, 0)
        },
    }
}

/// The three bytes at pixel `p` of `bytes` encode, channel by channel, a
/// clamp-encoded average of `n` sample colors, each sample within two units.
pub open spec fn pixel_encodes(bytes: Seq<u8>, p: int, n: int) -> bool {
    exists|sum: (int, int, int)|
        #![auto]
        0 <= sum.0 <= n * 131072 && 0 <= sum.1 <= n * 131072 && 0 <= sum.2 <= n * 131072 && bytes[
            3 * p
        ] as int == crate::color::channel_s(sum.0, n) && bytes[3 * p + 1] as int
            == crate::color::channel_s(sum.1, n) && bytes[3 * p + 2] as int
            == crate::color::channel_s(sum.2, n)
}

/// The blue byte at pixel `p` of `bytes` encodes a sum of full-blue sky
/// samples: each of the `n` samples contributed exactly one unit of blue,
/// except any degenerate zero-direction draws, which contributed none.
pub open spec fn pixel_blue_sky(bytes: Seq<u8>, p: int, n: int) -> bool {
    exists|m: int|
        0 <= m <= n && bytes[3 * p + 2] as int == #[trigger] crate::color::channel_s(65536 * m, n)
}

/// Extending a byte string beyond an encoded pixel leaves it encoded.
proof fn lemma_pixel_facts_extend(a: Seq<u8>, b: Seq<u8>, p: int, n: int)
    requires
        0 <= p,
        3 * p + 2 < a.len(),
        a.len() <= b.len(),
        forall|i: int| 0 <= i < a.len() ==> a[i] == #[trigger] b[i],
    ensures
        pixel_encodes(a, p, n) ==> pixel_encodes(b, p, n),
        pixel_blue_sky(a, p, n) ==> pixel_blue_sky(b, p, n),
{
    if pixel_encodes(a, p, n) {
        let sum = choose|sum: (int, int, int)|
            #![auto]
            0 <= sum.0 <= n * 131072 && 0 <= sum.1 <= n * 131072 && 0 <= sum.2 <= n * 131072
                && a[3 * p] as int == crate::color::channel_s(sum.0, n) && a[3 * p + 1] as int
                == crate::color::channel_s(sum.1, n) && a[3 * p + 2] as int
                == crate::color::channel_s(sum.2, n);
        assert(b[3 * p] == a[3 * p] && b[3 * p + 1] == a[3 * p + 1] && b[3 * p + 2] == a[3 * p
            + 2]);
        assert(pixel_encodes(b, p, n));
    }
    if pixel_blue_sky(a, p, n) {
        let m = choose|m: int|
            0 <= m <= n && a[3 * p + 2] as int == #[trigger] crate::color::channel_s(65536 * m, n);
        assert(b[3 * p + 2] == a[3 * p + 2]);
        assert(pixel_blue_sky(b, p, n));
    }
}

/// A pixel encoded inside a row stays encoded after the row lands at byte
/// offset `3 * base` of a larger string.
proof fn lemma_pixel_facts_shift(row: Seq<u8>, img: Seq<u8>, base: int, p: int, n: int)
    requires
        0 <= p,
        0 <= base,
        3 * p + 2 < row.len(),
        3 * (base + p) + 2 < img.len(),
        forall|i: int| 0 <= i < row.len() ==> row[i] == #[trigger] img[3 * base + i],
    ensures
        pixel_encodes(row, p, n) ==> pixel_encodes(img, base + p, n),
        pixel_blue_sky(row, p, n) ==> pixel_blue_sky(img, base + p, n),
{
    assert(3 * (base + p) == 3 * base + 3 * p);
    assert(img[3 * base + 3 * p] == row[3 * p]);
    assert(img[3 * base + (3 * p + 1)] == row[3 * p + 1]);
    assert(img[3 * base + (3 * p + 2)] == row[3 * p + 2]);
    if pixel_encodes(row, p, n) {
        let sum = choose|sum: (int, int, int)|
            #![auto]
            0 <= sum.0 <= n * 131072 && 0 <= sum.1 <= n * 131072 && 0 <= sum.2 <= n * 131072
                && row[3 * p] as int == crate::color::channel_s(sum.0, n) && row[3 * p + 1] as int
                == crate::color::channel_s(sum.1, n) && row[3 * p + 2] as int
                == crate::color::channel_s(sum.2, n);
        assert(pixel_encodes(img, base + p, n));
    }
    if pixel_blue_sky(row, p, n) {
        let m = choose|m: int|
            0 <= m <= n && row[3 * p + 2] as int == #[trigger] crate::color::channel_s(65536 * m, n);
        assert(pixel_blue_sky(img, base + p, n));
    }
}

/// Render one scanline of the image as packed RGB bytes: for each pixel,
/// average `samples` jittered traces through the camera.
pub fn render_row(
    world: &Vec<Sphere>,
    cam: &Camera,
    y: u32,
    samples: u32,
    depth: u32,
    rng: &mut rand::rngs::StdRng,
) -> (row: Vec<u8>)
    requires
        cam.wf(),
        scene_wf(world@),
        forall|t: int| cam.time0 <= t <= cam.time1 ==> scene_time_ok(world@, t),
        y < cam.image_height,
        1 <= samples <= 65536,
    ensures
        row@.len() == 3 * cam.image_width,
        forall|p: int| 0 <= p < cam.image_width ==> #[trigger] pixel_encodes(row@, p, samples as int),
        world@.len() == 0 ==> forall|p: int|
            0 <= p < cam.image_width ==> #[trigger] pixel_blue_sky(row@, p, samples as int),
{
    let width: u32 = cam.image_width;
    let height: u32 = cam.image_height;
    let mut row: Vec<u8> = Vec::new();
    let mut x: u32 = 0;
    while x < width
        invariant
            cam.wf(),
            scene_wf(world@),
            forall|t: int| cam.time0 <= t <= cam.time1 ==> scene_time_ok(world@, t),
            y < cam.image_height,
            1 <= samples <= 65536,
            width == cam.image_width,
            height == cam.image_height,
            0 <= x <= width,
            row@.len() == 3 * x,
            forall|p: int| 0 <= p < x ==> #[trigger] pixel_encodes(row@, p, samples as int),
            world@.len() == 0 ==> forall|p: int|
                0 <= p < x ==> #[trigger] pixel_blue_sky(row@, p, samples as int),
        decreases width - x,
    {
        let mut sum = origin();
        let mut s: u32 = 0;
        proof {
            assert(sum.z == 65536 * 0);
        }
        while s < samples
            invariant
                cam.wf(),
                scene_wf(world@),
                forall|t: int| cam.time0 <= t <= cam.time1 ==> scene_time_ok(world@, t),
                y < cam.image_height,
                1 <= samples <= 65536,
                width == cam.image_width,
                height == cam.image_height,
                x < width,
                0 <= s <= samples,
                0 <= sum.x <= (s as int) * 131072,
                0 <= sum.y <= (s as int) * 131072,
                0 <= sum.z <= (s as int) * 131072,
                world@.len() == 0 ==> exists|m: int|
                    0 <= m <= s && sum.z == #[trigger] (65536 * m),
            decreases samples - s,
        {
            let j1: i64 = random_fixed(rng, 0, SCALE);
            let j2: i64 = random_fixed(rng, 0, SCALE);
            // plate coordinates in [0, 1] plus up to one pixel of jitter,
            // with the row order flipped: image row 0 is the top of the plate
            let un: i64 = (x as i64) * SCALE + j1;
            let vn: i64 = ((height - 1 - y) as i64) * SCALE - j2;
            proof {
                lemma_div_t_size(un as int, (width - 1) as int, 131072);
                lemma_div_t_size(vn as int, (height - 1) as int, 131072);
            }
            let u: i64 = div_i128(un as i128, (width - 1) as i128) as i64;
            let v: i64 = div_i128(vn as i128, (height - 1) as i128) as i64;
            let ray = cam.get_ray(u, v, rng);
            let c = ray_color(&ray, world, depth, rng);
            let grown = sum.add(c);
            proof {
                if world@.len() == 0 {
                    let m = choose|m: int| 0 <= m <= s && sum.z == #[trigger] (65536 * m);
                    if c.z == 0 {
                        assert(grown.z == 65536 * m);
                    } else {
                        assert(grown.z == 65536 * m + 65536 == 65536 * (m + 1));
                    }
                    assert(exists|m2: int| 0 <= m2 <= s + 1 && grown.z == #[trigger] (65536 * m2));
                }
            }
            sum = grown;
            s = s + 1;
        }
        let ghost row0 = row@;
        let (ir, ig, ib) = write_color(sum, samples);
        row.push(ir);
        row.push(ig);
        row.push(ib);
        proof {
            assert(row@ == row0.push(ir).push(ig).push(ib));
            assert(row@[3 * x as int] == ir && row@[3 * x as int + 1] == ig && row@[3 * x as int
                + 2] == ib);
            let sv = (sum.x as int, sum.y as int, sum.z as int);
            assert(0 <= sv.0 <= (samples as int) * 131072 && 0 <= sv.1 <= (samples as int)
                * 131072 && 0 <= sv.2 <= (samples as int) * 131072);
            assert(row@[3 * x as int] as int == crate::color::channel_s(sv.0, samples as int));
            assert(row@[3 * x as int + 1] as int == crate::color::channel_s(sv.1, samples as int));
            assert(row@[3 * x as int + 2] as int == crate::color::channel_s(sv.2, samples as int));
            assert(pixel_encodes(row@, x as int, samples as int));
            if world@.len() == 0 {
                let m = choose|m: int| 0 <= m <= samples && sum.z == #[trigger] (65536 * m);
                assert(row@[3 * x as int + 2] as int == crate::color::channel_s(65536 * m,
                    samples as int));
                assert(pixel_blue_sky(row@, x as int, samples as int));
            }
            assert forall|p: int| 0 <= p < x + 1 implies #[trigger] pixel_encodes(
                row@,
                p,
                samples as int,
            ) by {
                if p < x {
                    lemma_pixel_facts_extend(row0, row@, p, samples as int);
                }
            }
            if world@.len() == 0 {
                assert forall|p: int| 0 <= p < x + 1 implies #[trigger] pixel_blue_sky(
                    row@,
                    p,
                    samples as int,
                ) by {
                    if p < x {
                        lemma_pixel_facts_extend(row0, row@, p, samples as int);
                    }
                }
            }
        }
        x = x + 1;
    }
    row
}

/// Render the whole image as packed RGB bytes, row-major with the origin at
/// the top left.
pub fn render(
    world: &Vec<Sphere>,
    cam: &Camera,
    samples: u32,
    depth: u32,
    rng: &mut rand::rngs::StdRng,
) -> (img: Vec<u8>)
    requires
        cam.wf(),
        scene_wf(world@),
        forall|t: int| cam.time0 <= t <= cam.time1 ==> scene_time_ok(world@, t),
        1 <= samples <= 65536,
    ensures
        img@.len() == 3 * cam.image_width * cam.image_height,
        forall|q: int|
            0 <= q < cam.image_width * cam.image_height ==> #[trigger] pixel_encodes(
                img@,
                q,
                samples as int,
            ),
        world@.len() == 0 ==> forall|q: int|
            0 <= q < cam.image_width * cam.image_height ==> #[trigger] pixel_blue_sky(
                img@,
                q,
                samples as int,
            ),
{
    let mut img: Vec<u8> = Vec::new();
    let mut y: u32 = 0;
    while y < cam.image_height
        invariant
            cam.wf(),
            scene_wf(world@),
            forall|t: int| cam.time0 <= t <= cam.time1 ==> scene_time_ok(world@, t),
            1 <= samples <= 65536,
            0 <= y <= cam.image_height,
            img@.len() == 3 * cam.image_width * y,
            forall|q: int|
                0 <= q < cam.image_width * y ==> #[trigger] pixel_encodes(img@, q, samples as int),
            world@.len() == 0 ==> forall|q: int|
                0 <= q < cam.image_width * y ==> #[trigger] pixel_blue_sky(
                    img@,
                    q,
                    samples as int,
                ),
        decreases cam.image_height - y,
    {
        let mut row = render_row(world, cam, y, samples, depth, rng);
        let ghost img0 = img@;
        let ghost rowq = row@;
        img.append(&mut row);
        proof {
            let w = cam.image_width as int;
            let yy = y as int;
            assert(3 * w * (yy + 1) == 3 * w * yy + 3 * w) by (nonlinear_arith);
            assert(w * (yy + 1) == w * yy + w) by (nonlinear_arith);
            assert(3 * (w * yy) == 3 * w * yy) by (nonlinear_arith);
            assert(img@ == img0 + rowq);
            assert forall|i: int| 0 <= i < img0.len() implies img0[i] == #[trigger] img@[i] by {}
            assert forall|i: int| 0 <= i < rowq.len() implies rowq[i] == #[trigger] img@[3 * (w
                * yy) + i] by {
                assert(3 * (w * yy) == img0.len());
            }
            assert forall|q: int| 0 <= q < w * (yy + 1) implies #[trigger] pixel_encodes(
                img@,
                q,
                samples as int,
            ) by {
                if q < w * yy {
                    lemma_pixel_facts_extend(img0, img@, q, samples as int);
                } else {
                    lemma_pixel_facts_shift(rowq, img@, w * yy, q - w * yy, samples as int);
                }
            }
            if world@.len() == 0 {
                assert forall|q: int| 0 <= q < w * (yy + 1) implies #[trigger] pixel_blue_sky(
                    img@,
                    q,
                    samples as int,
                ) by {
                    if q < w * yy {
                        lemma_pixel_facts_extend(img0, img@, q, samples as int);
                    } else {
                        lemma_pixel_facts_shift(rowq, img@, w * yy, q - w * yy, samples as int);
                    }
                }
            }
        }
        y = y + 1;
    }
    img
}

} // verus!
