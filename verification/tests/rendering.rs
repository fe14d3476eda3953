//! Scene-level checks: closest-hit selection, the sky law for empty scenes,
//! whole-image renders, pixel encoding, and sample-count convergence.

use raytracer::camera::Camera;
use raytracer::color::write_color;
use raytracer::fixed::SCALE;
use raytracer::hitrecord::T_INF;
use raytracer::item::Sphere;
use raytracer::material::Material;
use raytracer::ray::Ray;
use raytracer::render::closest_hit;
use raytracer::render::ray_color;
use raytracer::render::render;
use raytracer::render::render_row;
use raytracer::render::sky_color;
use raytracer::rng::rng_from_seed;
use raytracer::scene::Scene;
use raytracer::vec3::color;
use raytracer::vec3::origin;
use raytracer::vec3::Vec3;

fn test_camera(width: u32) -> Camera {
    Camera::new(
        origin(),
        Vec3::new(0, 0, -SCALE),
        Vec3::new(0, SCALE, 0),
        SCALE,
        SCALE,
        width,
        0,
        SCALE,
        0,
        0,
    )
}

fn small_sphere() -> Sphere {
    Sphere::new(
        Vec3::new(0, 0, -2 * SCALE),
        Vec3::new(0, 0, -2 * SCALE),
        SCALE / 2,
        Material::Lambertian,
        color(19660, 19660, 45875),
        0,
        0,
        SCALE,
    )
}

#[test]
fn closest_hit_is_order_independent() {
    let near = Sphere::new(
        Vec3::new(0, 0, -2 * SCALE),
        Vec3::new(0, 0, -2 * SCALE),
        SCALE,
        Material::Lambertian,
        color(SCALE, 0, 0),
        0,
        0,
        SCALE,
    );
    let far = Sphere::new(
        Vec3::new(0, 0, -4 * SCALE),
        Vec3::new(0, 0, -4 * SCALE),
        SCALE,
        Material::Metal,
        color(0, SCALE, 0),
        0,
        0,
        SCALE,
    );
    let ray = Ray::new(origin(), Vec3::new(0, 0, -SCALE), 0);
    let a = closest_hit(&vec![near, far], &ray, 66, T_INF);
    let b = closest_hit(&vec![far, near], &ray, 66, T_INF);
    assert_eq!(a.t(), SCALE);
    assert_eq!(b.t(), SCALE);
    assert!(matches!(a.material(), Material::Lambertian));
    assert!(matches!(b.material(), Material::Lambertian));
}

#[test]
fn closest_hit_empty_world_returns_sentinel() {
    let ray = Ray::new(origin(), Vec3::new(0, 0, -SCALE), 0);
    let world: Vec<Sphere> = Vec::new();
    assert_eq!(closest_hit(&world, &ray, 66, T_INF).t(), T_INF);
}

#[test]
fn empty_scene_traces_to_the_analytic_sky() {
    let world: Vec<Sphere> = Vec::new();
    let mut rng = rng_from_seed(1);

    let down_z = Ray::new(origin(), Vec3::new(0, 0, -SCALE), 0);
    let c = ray_color(&down_z, &world, 50, &mut rng);
    assert_eq!((c.x(), c.y(), c.z()), (49152, 55705, 65536));
    let s = sky_color(Vec3::new(0, 0, -SCALE));
    assert_eq!((s.x(), s.y(), s.z()), (49152, 55705, 65536));

    let up = Ray::new(origin(), Vec3::new(0, SCALE, 0), 0);
    let c2 = ray_color(&up, &world, 50, &mut rng);
    assert_eq!((c2.x(), c2.y(), c2.z()), (25981, 41803, 65536));

    // an unnormalized direction meets the same formula through its unit
    let slanted = Ray::new(origin(), Vec3::new(3 * SCALE, 4 * SCALE, 0), 0);
    let c3 = ray_color(&slanted, &world, 50, &mut rng);
    let s3 = sky_color(Vec3::new(3 * SCALE, 4 * SCALE, 0));
    assert_eq!((c3.x(), c3.y(), c3.z()), (s3.x(), s3.y(), s3.z()));
}

#[test]
fn zero_depth_is_black() {
    let world = vec![small_sphere()];
    let mut rng = rng_from_seed(2);
    let ray = Ray::new(origin(), Vec3::new(0, 0, -SCALE), 0);
    let c = ray_color(&ray, &world, 0, &mut rng);
    assert_eq!((c.x(), c.y(), c.z()), (0, 0, 0));
}

#[test]
fn unset_material_renders_flagged_red() {
    let bad = Sphere::new(
        Vec3::new(0, 0, -2 * SCALE),
        Vec3::new(0, 0, -2 * SCALE),
        SCALE,
        Material::Unset,
        color(SCALE, SCALE, SCALE),
        0,
        0,
        SCALE,
    );
    let mut rng = rng_from_seed(3);
    let ray = Ray::new(origin(), Vec3::new(0, 0, -SCALE), 0);
    let c = ray_color(&ray, &vec![bad], 50, &mut rng);
    assert_eq!((c.x(), c.y(), c.z()), (SCALE, 0, 0));
}

#[test]
fn empty_scene_renders_pure_background() {
    // the sky's blue channel is exactly one unit everywhere, so every pixel
    // of an empty render saturates it, whatever the jitter drew
    let cam = test_camera(8);
    let world: Vec<Sphere> = Vec::new();
    let mut rng = rng_from_seed(4);
    let img = render(&world, &cam, 4, 10, &mut rng);
    assert_eq!(img.len(), 8 * 8 * 3);
    for p in 0..64 {
        assert_eq!(img[3 * p + 2], 255);
        // and the gradient keeps red at or below green
        assert!(img[3 * p] <= img[3 * p + 1]);
    }
    // rows near the top are bluer (smaller red) than rows near the bottom
    let top_red = img[3 * (8 * 0 + 4)];
    let bottom_red = img[3 * (8 * 7 + 4)];
    assert!(top_red < bottom_red);
}

#[test]
fn centered_sphere_darkens_center_but_not_corners() {
    let cam = test_camera(16);
    let world = vec![small_sphere()];
    let mut rng = rng_from_seed(5);
    let img = render(&world, &cam, 4, 10, &mut rng);
    assert_eq!(img.len(), 16 * 16 * 3);
    let red = |x: usize, y: usize| img[3 * (16 * y + x)] as i32;
    let center = red(8, 8);
    // corners see only background
    for (x, y) in [(0, 0), (15, 0), (0, 15), (15, 15)] {
        assert!(red(x, y) >= 120, "corner ({x},{y}) too dark: {}", red(x, y));
        assert!(center + 40 <= red(x, y), "center {} vs corner {}", center, red(x, y));
    }
}

#[test]
fn render_row_has_one_scanline() {
    let cam = test_camera(8);
    let world = vec![small_sphere()];
    let mut rng = rng_from_seed(6);
    let row = render_row(&world, &cam, 3, 2, 6, &mut rng);
    assert_eq!(row.len(), 8 * 3);
}

#[test]
fn more_samples_agree_with_few_on_average() {
    // a flat diffuse sphere under the background: a 1-sample render and a
    // 256-sample render agree on mean color within a bounded tolerance
    let cam = test_camera(4);
    let world = vec![Sphere::new(
        Vec3::new(0, 0, -2 * SCALE),
        Vec3::new(0, 0, -2 * SCALE),
        SCALE,
        Material::Lambertian,
        color(32768, 32768, 32768),
        0,
        0,
        SCALE,
    )];
    let mut rng1 = rng_from_seed(21);
    let one = render(&world, &cam, 1, 12, &mut rng1);
    let mut rng2 = rng_from_seed(22);
    let many = render(&world, &cam, 256, 12, &mut rng2);
    let mean = |img: &Vec<u8>| -> i64 {
        let mut s: i64 = 0;
        for b in img.iter() {
            s += *b as i64;
        }
        s / (img.len() as i64)
    };
    let d = (mean(&one) - mean(&many)).abs();
    assert!(d <= 48, "means differ by {d}");
}

#[test]
fn write_color_averages_clamps_and_truncates() {
    let n = 4;
    let sum = Vec3::new(4 * 80000, 0, 4 * 32768);
    let (r, g, b) = write_color(sum, n);
    // 80000 clamps to 65470 and encodes as 255; zero stays zero; half a
    // unit becomes 128
    assert_eq!((r, g, b), (255, 0, 128));
    let (r2, g2, b2) = write_color(Vec3::new(-400, 65536 * 4, 65535 * 4), 4);
    assert_eq!((r2, g2, b2), (0, 255, 255));
}

#[test]
fn random_scene_has_ground_and_feature_spheres() {
    let mut rng = rng_from_seed(42);
    let world = Scene::random_scene(&mut rng);
    assert!(world.len() >= 4);
    // the ground sphere comes first
    let ground = &world[0];
    assert_eq!(ground.center0.y, -1000 * SCALE);
    assert_eq!(ground.radius, 1000 * SCALE);
    assert!(matches!(ground.material, Material::Lambertian));
    // the three feature spheres come last: glass, diffuse, metal
    let k = world.len();
    assert!(matches!(world[k - 3].material, Material::Dielectric));
    assert!(matches!(world[k - 2].material, Material::Lambertian));
    assert!(matches!(world[k - 1].material, Material::Metal));
    assert_eq!(world[k - 1].center0.x, 4 * SCALE);
    // every sphere covers the unit shutter window
    for s in world.iter() {
        assert_eq!(s.time0, 0);
        assert!(s.time1 >= SCALE);
        assert!(s.radius >= 1);
    }
    // the grid keeps at least the cells far from the metal feature sphere
    // and never exceeds the full grid
    assert!((476..=488).contains(&world.len()));
    // and every small sphere obeys the drawn-parameter ranges
    for s in world[1..k - 3].iter() {
        assert_eq!(s.radius, 13107);
        assert_eq!(s.center0.y, 13107);
        assert_eq!(s.center1.x, s.center0.x);
        assert_eq!(s.center1.z, s.center0.z);
        assert!(s.center0.y <= s.center1.y && s.center1.y < s.center0.y + 32768);
        assert!(s.time1 == SCALE || s.time1 == 10 * SCALE);
        // clear of the metal feature sphere at (4, 0.2, 0)
        let dx = (s.center0.x - 4 * SCALE) as i128;
        let dz = s.center0.z as i128;
        assert!(dx * dx + dz * dz > 58982i128 * 58982);
        match s.material {
            Material::Lambertian => assert_eq!(s.metal_fuzz, 0),
            Material::Metal => {
                assert!((0..32768).contains(&s.metal_fuzz));
                assert!((32768..SCALE).contains(&s.attenuation.x));
            },
            Material::Dielectric => {
                assert_eq!(s.metal_fuzz, 0);
                assert_eq!((s.attenuation.x, s.attenuation.y, s.attenuation.z), (SCALE, SCALE, SCALE));
            },
            Material::Unset => panic!("a grid sphere was built without a material"),
        }
    }
}

#[test]
fn moving_sphere_is_hit_where_its_time_says() {
    // a sphere sliding from x = -4 to x = +4 over the window: a ray down
    // the -z axis at the window's middle time meets it, at the start time
    // it does not
    let s = Sphere::new(
        Vec3::new(-4 * SCALE, 0, -4 * SCALE),
        Vec3::new(4 * SCALE, 0, -4 * SCALE),
        SCALE,
        Material::Lambertian,
        color(SCALE, SCALE, SCALE),
        0,
        0,
        SCALE,
    );
    let world = vec![s];
    let mid = Ray::new(origin(), Vec3::new(0, 0, -SCALE), SCALE / 2);
    let rec = closest_hit(&world, &mid, 66, T_INF);
    assert_ne!(rec.t(), T_INF);
    assert_eq!(rec.t(), 3 * SCALE);
    let start = Ray::new(origin(), Vec3::new(0, 0, -SCALE), 0);
    assert_eq!(closest_hit(&world, &start, 66, T_INF).t(), T_INF);
}

#[test]
fn camera_rays_aim_through_the_plate() {
    let cam = test_camera(8);
    let mut rng = rng_from_seed(9);
    // zero aperture: the origin is exact
    let center = cam.get_ray(SCALE / 2, SCALE / 2, &mut rng);
    assert_eq!((center.origin().x(), center.origin().y(), center.origin().z()), (0, 0, 0));
    // the plate center looks straight down -z (field of view is symmetric)
    assert!(center.direction().x().abs() <= 4);
    assert!(center.direction().y().abs() <= 4);
    assert!(center.direction().z() < 0);
    // the plate's right edge bends the ray toward +x
    let right = cam.get_ray(SCALE, SCALE / 2, &mut rng);
    assert!(right.direction().x() > 0);
    // the plate's top edge bends it toward +y
    let top = cam.get_ray(SCALE / 2, SCALE, &mut rng);
    assert!(top.direction().y() > 0);
}

#[test]
fn camera_basis_looking_down_z() {
    let cam = test_camera(8);
    assert_eq!((cam.w.x, cam.w.y, cam.w.z), (0, 0, SCALE));
    assert_eq!((cam.u.x, cam.u.y, cam.u.z), (SCALE, 0, 0));
    assert_eq!((cam.v.x, cam.v.y, cam.v.z), (0, SCALE, 0));
    assert_eq!(
        (cam.horizontal.x, cam.horizontal.y, cam.horizontal.z),
        (2 * SCALE, 0, 0),
    );
    assert_eq!((cam.vertical.x, cam.vertical.y, cam.vertical.z), (0, 2 * SCALE, 0));
    assert_eq!(
        (cam.lower_left_corner.x, cam.lower_left_corner.y, cam.lower_left_corner.z),
        (-SCALE, -SCALE, -SCALE),
    );
    assert_eq!(cam.lens_radius, 0);
    assert_eq!(cam.image_height, 8);
}

#[test]
fn distant_hit_has_large_finite_t() {
    // a legitimate hit whose parameter is very large but still finite beats
    // the sentinel
    let s = Sphere::new(
        Vec3::new(0, 0, -4000 * SCALE),
        Vec3::new(0, 0, -4000 * SCALE),
        SCALE,
        Material::Lambertian,
        color(SCALE, SCALE, SCALE),
        0,
        0,
        SCALE,
    );
    let ray = Ray::new(origin(), Vec3::new(0, 0, -SCALE), 0);
    let rec = closest_hit(&vec![s], &ray, 66, T_INF);
    assert_eq!(rec.t(), 3999 * SCALE);
    assert!(rec.t() < T_INF);
}
