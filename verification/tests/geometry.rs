//! Vector, reflection, refraction, Schlick and sphere-intersection checks on
//! concrete values. One fixed-point unit is 65536.

use raytracer::fixed::div_i128;
use raytracer::fixed::fx_div;
use raytracer::fixed::fx_mul;
use raytracer::fixed::isqrt_u128;
use raytracer::fixed::SCALE;
use raytracer::hitrecord::HitRecord;
use raytracer::hitrecord::T_INF;
use raytracer::item::Sphere;
use raytracer::material::Material;
use raytracer::ray::Ray;
use raytracer::rng::rng_from_seed;
use raytracer::rng::random_fixed;
use raytracer::vec3::color;
use raytracer::vec3::origin;
use raytracer::vec3::random_color;
use raytracer::vec3::random_color_range;
use raytracer::vec3::random_in_unit_disk;
use raytracer::vec3::random_unit_vector;
use raytracer::vec3::reflect;
use raytracer::vec3::refract;
use raytracer::vec3::unit_vector;
use raytracer::vec3::Vec3;

#[test]
fn vec3_componentwise_ops() {
    let a = Vec3::new(SCALE, -2 * SCALE, 3 * SCALE);
    let b = Vec3::new(2 * SCALE, SCALE, -SCALE);
    let s = a.add(b);
    assert_eq!((s.x(), s.y(), s.z()), (3 * SCALE, -SCALE, 2 * SCALE));
    let d = a.sub(b);
    assert_eq!((d.x(), d.y(), d.z()), (-SCALE, -3 * SCALE, 4 * SCALE));
    let n = a.neg();
    assert_eq!((n.x(), n.y(), n.z()), (-SCALE, 2 * SCALE, -3 * SCALE));
    let m = a.mul(b);
    assert_eq!((m.x(), m.y(), m.z()), (2 * SCALE, -2 * SCALE, -3 * SCALE));
    let sc = a.scale(SCALE / 2);
    assert_eq!((sc.x(), sc.y(), sc.z()), (SCALE / 2, -SCALE, 3 * SCALE / 2));
    let dv = a.div(2 * SCALE);
    assert_eq!((dv.x(), dv.y(), dv.z()), (SCALE / 2, -SCALE, 3 * SCALE / 2));
    assert_eq!(a.r(), a.x());
    assert_eq!(a.g(), a.y());
    assert_eq!(a.b(), a.z());
}

#[test]
fn dot_cross_length() {
    let a = Vec3::new(3 * SCALE, 4 * SCALE, 0);
    assert_eq!(a.length(), 5 * SCALE);
    assert_eq!(a.length_squared(), 25 * SCALE);
    let x = Vec3::new(SCALE, 0, 0);
    let y = Vec3::new(0, SCALE, 0);
    assert_eq!(x.dot(y), 0);
    assert_eq!(x.dot(x), SCALE);
    let z = x.cross(y);
    assert_eq!((z.x(), z.y(), z.z()), (0, 0, SCALE));
    let u = unit_vector(a);
    assert_eq!((u.x(), u.y(), u.z()), (39321, 52428, 0));
}

#[test]
fn isqrt_and_div_basics() {
    assert_eq!(isqrt_u128(0), 0);
    assert_eq!(isqrt_u128(15), 3);
    assert_eq!(isqrt_u128(16), 4);
    assert_eq!(isqrt_u128(u64::MAX as u128 * u64::MAX as u128), u64::MAX);
    assert_eq!(div_i128(7, 2), 3);
    assert_eq!(div_i128(-7, 2), -3);
    assert_eq!(div_i128(0, 5), 0);
}

#[test]
fn reflect_axis_aligned() {
    let v = Vec3::new(SCALE, -2 * SCALE, 3 * SCALE);
    let n = Vec3::new(0, SCALE, 0);
    let r = reflect(v, n);
    assert_eq!((r.x(), r.y(), r.z()), (SCALE, 2 * SCALE, 3 * SCALE));
}

#[test]
fn reflect_twice_restores_vector() {
    // the mirror involution on an axis-aligned unit normal, on values
    let v = Vec3::new(12345, -54321, 777);
    for n in [
        Vec3::new(SCALE, 0, 0),
        Vec3::new(-SCALE, 0, 0),
        Vec3::new(0, SCALE, 0),
        Vec3::new(0, 0, -SCALE),
    ] {
        let twice = reflect(reflect(v, n), n);
        assert_eq!((twice.x(), twice.y(), twice.z()), (v.x(), v.y(), v.z()));
    }
}

#[test]
fn refract_head_on_identity_ratio() {
    let uv = Vec3::new(0, 0, -SCALE);
    let n = Vec3::new(0, 0, SCALE);
    let r = refract(uv, n, SCALE);
    assert_eq!((r.x(), r.y(), r.z()), (0, 0, -SCALE));
}

#[test]
fn refract_round_trip_recovers_direction() {
    // entering glass with ratio 1/1.7 and leaving with ratio 1.7 restores
    // the incident direction up to fixed-point rounding
    let uv = unit_vector(Vec3::new(SCALE, 0, -2 * SCALE));
    let n = Vec3::new(0, 0, SCALE);
    let into = refract(uv, n, 38550);
    let back = refract(into, n, 111411);
    assert!((back.x() - uv.x()).abs() <= 16);
    assert!((back.y() - uv.y()).abs() <= 16);
    assert!((back.z() - uv.z()).abs() <= 16);
}

#[test]
fn shlick_head_on_equals_base_reflectance() {
    // at cos = 1 the (1 - cos)^5 term vanishes, leaving r0^2 exactly
    assert_eq!(Material::shlick(SCALE, 98304), 2621);
    assert_eq!(Material::shlick(SCALE, 111411), 4404);
}

#[test]
fn shlick_grows_toward_grazing() {
    let ri = 111411;
    let mut prev = Material::shlick(SCALE, ri);
    let mut c = SCALE;
    while c > 0 {
        c -= 8192;
        let cur = Material::shlick(c, ri);
        assert!(cur >= prev);
        prev = cur;
    }
    assert_eq!(Material::shlick(0, 98304), SCALE);
}

#[test]
fn sphere_hit_head_on() {
    let s = Sphere::new(
        Vec3::new(0, 0, -2 * SCALE),
        Vec3::new(0, 0, -2 * SCALE),
        SCALE,
        Material::Lambertian,
        color(SCALE, SCALE, SCALE),
        0,
        0,
        SCALE,
    );
    let ray = Ray::new(origin(), Vec3::new(0, 0, -SCALE), 0);
    let h = s.hit(&ray, 66, T_INF).expect("the ray points straight at the sphere");
    assert_eq!(h.t(), SCALE);
    let p = h.point();
    assert_eq!((p.x(), p.y(), p.z()), (0, 0, -SCALE));
    let n = h.normal();
    assert_eq!((n.x(), n.y(), n.z()), (0, 0, SCALE));
    assert!(h.front_face());
    assert!(matches!(h.material(), Material::Lambertian));
}

#[test]
fn sphere_hit_from_inside_returns_none() {
    // only the smaller quadratic root is taken, and from inside the sphere
    // that root lies behind the origin
    let s = Sphere::new(
        Vec3::new(0, 0, 0),
        Vec3::new(0, 0, 0),
        2 * SCALE,
        Material::Dielectric,
        color(SCALE, SCALE, SCALE),
        0,
        0,
        SCALE,
    );
    let ray = Ray::new(origin(), Vec3::new(0, 0, -SCALE), 0);
    assert!(s.hit(&ray, 66, T_INF).is_none());
}

#[test]
fn sphere_tangent_hit_flips_normal() {
    // a grazing ray: the outward normal is perpendicular to the direction,
    // so the record is marked back-facing and the normal is negated
    let s = Sphere::new(
        Vec3::new(SCALE, 0, -2 * SCALE),
        Vec3::new(SCALE, 0, -2 * SCALE),
        SCALE,
        Material::Dielectric,
        color(SCALE, SCALE, SCALE),
        0,
        0,
        SCALE,
    );
    let ray = Ray::new(origin(), Vec3::new(0, 0, -SCALE), 0);
    let h = s.hit(&ray, 66, T_INF).expect("the grazing ray touches the sphere");
    assert_eq!(h.t(), 2 * SCALE);
    assert!(!h.front_face());
    let n = h.normal();
    // the outward normal points along -x; stored flipped to +x
    assert_eq!((n.x(), n.y(), n.z()), (SCALE, 0, 0));
}

#[test]
fn sphere_miss_and_window() {
    let s = Sphere::new(
        Vec3::new(0, 0, -2 * SCALE),
        Vec3::new(0, 0, -2 * SCALE),
        SCALE,
        Material::Metal,
        color(SCALE, SCALE, SCALE),
        0,
        0,
        SCALE,
    );
    // pointing away: the nearer root is behind the origin
    let away = Ray::new(origin(), Vec3::new(0, 0, SCALE), 0);
    assert!(s.hit(&away, 66, T_INF).is_none());
    // offset sideways by three units: negative discriminant
    let wide = Ray::new(Vec3::new(3 * SCALE, 0, 0), Vec3::new(0, 0, -SCALE), 0);
    assert!(s.hit(&wide, 66, T_INF).is_none());
    // the hit at t = 1 is outside a window ending before it
    let ahead = Ray::new(origin(), Vec3::new(0, 0, -SCALE), 0);
    assert!(s.hit(&ahead, 66, SCALE / 2).is_none());
    // and outside a window starting after it
    assert!(s.hit(&ahead, 2 * SCALE, T_INF).is_none());
    // boundary: tmin equal to the root is rejected (strict window)
    assert!(s.hit(&ahead, SCALE, T_INF).is_none());
}

#[test]
fn moving_sphere_center_endpoints() {
    let s = Sphere::new(
        Vec3::new(0, 0, 0),
        Vec3::new(SCALE, 2 * SCALE, -SCALE),
        SCALE,
        Material::Lambertian,
        color(SCALE, SCALE, SCALE),
        0,
        0,
        SCALE,
    );
    let c0 = s.center(0);
    assert_eq!((c0.x(), c0.y(), c0.z()), (0, 0, 0));
    let c1 = s.center(SCALE);
    assert_eq!((c1.x(), c1.y(), c1.z()), (SCALE, 2 * SCALE, -SCALE));
    let mid = s.center(SCALE / 2);
    assert_eq!((mid.x(), mid.y(), mid.z()), (SCALE / 2, SCALE, -SCALE / 2));
}

#[test]
fn stationary_sphere_ignores_time() {
    let s = Sphere::new(
        Vec3::new(SCALE, 0, 0),
        Vec3::new(5 * SCALE, 0, 0),
        SCALE,
        Material::Lambertian,
        color(SCALE, SCALE, SCALE),
        0,
        0,
        0,
    );
    let c = s.center(0);
    assert_eq!((c.x(), c.y(), c.z()), (SCALE, 0, 0));
}

#[test]
fn hit_record_sentinel_and_face_normal() {
    let nh = HitRecord::not_hit();
    assert_eq!(nh.t(), T_INF);
    assert!(matches!(nh.material(), Material::Unset));
    assert!(!nh.front_face());
    assert_eq!(nh.metal_fuzz(), 0);

    let ray = Ray::new(origin(), Vec3::new(0, 0, -SCALE), 0);
    let mut rec = HitRecord::new(
        origin(),
        origin(),
        true,
        SCALE,
        Material::Metal,
        color(SCALE, 0, 0),
        0,
    );
    rec.set_face_normal(&ray, Vec3::new(0, 0, SCALE));
    assert!(rec.front_face());
    assert_eq!(rec.normal().z(), SCALE);
    rec.set_face_normal(&ray, Vec3::new(0, 0, -SCALE));
    assert!(!rec.front_face());
    assert_eq!(rec.normal().z(), SCALE);
    assert_eq!(rec.attenuation().x(), SCALE);
    assert_eq!(rec.t(), SCALE);
    assert_eq!(rec.point().x(), 0);
}

#[test]
fn empty_span_draw_returns_the_common_bound() {
    let mut rng = rng_from_seed(17);
    assert_eq!(random_fixed(&mut rng, 5 * SCALE, 5 * SCALE), 5 * SCALE);
    assert_eq!(random_fixed(&mut rng, 0, 0), 0);
}

#[test]
fn random_draws_stay_in_their_ranges() {
    let mut rng = rng_from_seed(7);
    for _ in 0..64 {
        let v = random_fixed(&mut rng, -5 * SCALE, 5 * SCALE);
        assert!(-5 * SCALE <= v && v < 5 * SCALE);
        let c = random_color(&mut rng);
        assert!(0 <= c.x() && c.x() < SCALE);
        assert!(0 <= c.y() && c.y() < SCALE);
        assert!(0 <= c.z() && c.z() < SCALE);
        let cr = random_color_range(&mut rng, SCALE / 2, SCALE);
        assert!(SCALE / 2 <= cr.x() && cr.x() < SCALE);
        assert!(SCALE / 2 <= cr.y() && cr.y() < SCALE);
        assert!(SCALE / 2 <= cr.z() && cr.z() < SCALE);
    }
}

#[test]
fn random_unit_vector_is_nearly_unit() {
    let mut rng = rng_from_seed(11);
    for _ in 0..64 {
        let v = random_unit_vector(&mut rng);
        assert!(v.x().abs() <= SCALE && v.y().abs() <= SCALE && v.z().abs() <= SCALE);
        let lsq = v.x() * v.x() + v.y() * v.y() + v.z() * v.z();
        assert!((lsq - SCALE * SCALE).abs() <= 2097152);
    }
}

#[test]
fn random_in_unit_disk_is_planar_and_nearly_unit() {
    let mut rng = rng_from_seed(13);
    for _ in 0..64 {
        let v = random_in_unit_disk(&mut rng);
        assert_eq!(v.z(), 0);
        let lsq = v.x() * v.x() + v.y() * v.y();
        assert!((lsq - SCALE * SCALE).abs() <= 2097152);
    }
}

#[test]
fn ray_evaluation() {
    let r = Ray::new(Vec3::new(SCALE, 0, 0), Vec3::new(0, 2 * SCALE, 0), 5);
    assert_eq!(r.time(), 5);
    assert_eq!(r.origin().x(), SCALE);
    assert_eq!(r.direction().y(), 2 * SCALE);
    let p = r.at(SCALE / 2);
    assert_eq!((p.x(), p.y(), p.z()), (SCALE, SCALE, 0));
}

#[test]
fn fixed_point_products_and_quotients_truncate() {
    // 1.5 * 2.5 = 3.75
    assert_eq!(fx_mul(98304, 163840), 245760);
    // truncation goes toward zero on both signs
    assert_eq!(fx_mul(3, 3), 0);
    assert_eq!(fx_mul(-3, 3), 0);
    // 3.0 / 2.0 = 1.5
    assert_eq!(fx_div(3 * SCALE, 2 * SCALE), 98304);
    assert_eq!(fx_div(-3 * SCALE, 2 * SCALE), -98304);
    assert_eq!(fx_div(SCALE, 3 * SCALE), 21845);
}
