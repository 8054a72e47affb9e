use ray_tracing::camera::Camera;
use ray_tracing::color::{Color, Rgb};
use ray_tracing::consts::{degrees_to_radians, infinity, pi};
use ray_tracing::error::ErrorKind;
use ray_tracing::fixed::Fixed;
use ray_tracing::hittable::{HitRecord, HittableList};
use ray_tracing::material::{
    lambertian_scatter_with, metal_scatter_with, Lambertian, Material, Metal,
};
use ray_tracing::ray::Ray;
use ray_tracing::render::{ray_color, render};
use ray_tracing::rng::Rng;
use ray_tracing::sphere::{hit_sphere, Sphere};
use ray_tracing::vector::Vec3d;

fn fx(n: i64) -> Fixed {
    Fixed::from_int(n)
}

fn v3(x: i64, y: i64, z: i64) -> Vec3d {
    Vec3d::new(fx(x), fx(y), fx(z))
}

fn gray() -> Rgb {
    let half = Fixed { raw: 32768 };
    Color::new(half, half, half)
}

fn world_one_sphere(center: Vec3d, radius: Fixed) -> HittableList {
    let mut world = HittableList::new();
    world.add(Sphere::new(center, radius, Material::Lambertian(Lambertian::new(gray()))));
    world
}

// A ray aimed straight at a sphere's center from outside: the near
// intersection is at distance-to-center minus radius, and the normal is
// the unit vector from the center toward the hit point.
#[test]
fn hit_toward_center_near_intersection() {
    let sphere = Sphere::new(v3(0, 0, -2), fx(1), Material::Lambertian(Lambertian::new(gray())));
    let ray = Ray::new(v3(0, 0, 0), v3(0, 0, -2));
    let rec = sphere.hit(&ray, Fixed::zero(), infinity()).unwrap();
    // t = 0.5 along a direction of length 2: travelled distance 1 = 2 - 1
    assert_eq!(rec.t.raw, 32768);
    assert_eq!(rec.p, v3(0, 0, -1));
    assert!(rec.front_face);
    assert_eq!(rec.normal, v3(0, 0, 1));
}

// A ray that misses the sphere entirely reports no hit.
#[test]
fn miss_reports_none() {
    let sphere = Sphere::new(
        v3(0, 0, -1),
        Fixed { raw: 32768 },
        Material::Lambertian(Lambertian::new(gray())),
    );
    let ray = Ray::new(v3(0, 0, 0), v3(0, 1, 0));
    assert!(sphere.hit(&ray, Fixed::zero(), infinity()).is_none());
}

// front_face is set exactly when the ray direction and the raw outward
// normal have negative dot product, and the stored normal opposes the ray.
#[test]
fn face_normal_orientation() {
    let m = Material::Lambertian(Lambertian::new(gray()));
    let ray = Ray::new(v3(0, 0, 0), v3(0, 0, -1));

    let mut rec = HitRecord::new(v3(0, 0, -1), fx(1), m);
    rec.set_face_normal(&ray, v3(0, 0, 1));
    assert!(rec.front_face);
    assert_eq!(rec.normal, v3(0, 0, 1));

    let mut rec2 = HitRecord::new(v3(0, 0, -1), fx(1), m);
    rec2.set_face_normal(&ray, v3(0, 0, -1));
    assert!(!rec2.front_face);
    assert_eq!(rec2.normal, v3(0, 0, 1));
}

// The aggregate returns the hit with the smallest t among all surfaces.
#[test]
fn scene_hit_takes_closest() {
    let m = Material::Lambertian(Lambertian::new(gray()));
    let mut world = HittableList::new();
    world.add(Sphere::new(v3(0, 0, -6), fx(1), m));
    world.add(Sphere::new(v3(0, 0, -2), fx(1), m));
    let ray = Ray::new(v3(0, 0, 0), v3(0, 0, -1));
    let rec = world.hit(&ray, Fixed::zero(), infinity()).unwrap();
    // the nearer sphere's surface at z = -1, so t = 1
    assert_eq!(rec.t, fx(1));
    assert_eq!(rec.p, v3(0, 0, -1));

    world.clear();
    world.add(Sphere::new(v3(0, 0, -2), fx(1), m));
    world.add(Sphere::new(v3(0, 0, -6), fx(1), m));
    let rec2 = world.hit(&ray, Fixed::zero(), infinity()).unwrap();
    assert_eq!(rec2.t, fx(1));
}

// Lambertian scattering never reports absorption.
#[test]
fn lambertian_always_scatters() {
    let m = Material::Lambertian(Lambertian::new(gray()));
    let mut rec = HitRecord::new(v3(0, 0, -1), fx(1), m);
    let ray = Ray::new(v3(0, 0, 0), v3(0, 0, -1));
    rec.set_face_normal(&ray, v3(0, 0, 1));
    let half = Fixed { raw: 32768 };
    let sample = Vec3d::new(half, Fixed::zero(), Fixed::zero());
    let (att, scattered) = lambertian_scatter_with(gray(), &rec, sample).unwrap();
    assert_eq!(att, gray());
    assert_eq!(scattered.origin, rec.p);
    assert_eq!(scattered.direction, Vec3d::new(half, Fixed::zero(), fx(1)));

    // a degenerate sum falls back to the bare normal
    let opposite = v3(0, 0, -1);
    let (_, fallback) = lambertian_scatter_with(gray(), &rec, opposite).unwrap();
    assert_eq!(fallback.direction, rec.normal);
}

// Metal scattering reports absorption exactly when the perturbed
// reflection no longer points away from the surface.
#[test]
fn metal_absorbs_reentrant_rays() {
    let m = Material::Metal(Metal::new(gray(), Fixed::zero()));
    let mut rec = HitRecord::new(v3(0, 0, -1), fx(1), m);
    let ray = Ray::new(v3(0, 0, 0), v3(0, 0, -1));
    rec.set_face_normal(&ray, v3(0, 0, 1));

    // a mirror reflection of a head-on ray points straight back out
    let some = metal_scatter_with(gray(), Fixed::zero(), &ray, &rec, v3(0, 0, 0));
    let (att, scattered) = some.unwrap();
    assert_eq!(att, gray());
    assert_eq!(scattered.direction, v3(0, 0, 1));

    // a full-strength perturbation straight down cancels it: absorbed
    let none = metal_scatter_with(gray(), fx(1), &ray, &rec, v3(0, 0, -1));
    assert!(none.is_none());
}

// The integrator at depth zero returns black whatever the scene holds.
#[test]
fn depth_zero_is_black() {
    let world = world_one_sphere(v3(0, 0, -2), fx(1));
    let ray = Ray::new(v3(0, 0, 0), v3(0, 0, -1));
    let mut rng = Rng::seeded(7);
    let c = ray_color(&ray, &world, 0, &mut rng);
    assert_eq!(c, Color::black());
}

// End-to-end: a ray that escapes upward over a single large sphere below
// reproduces the background gradient exactly.
#[test]
fn escaping_ray_reproduces_background() {
    let mut world = HittableList::new();
    world.add(Sphere::new(
        Vec3d::new(fx(0), Fixed { raw: -6586368 }, fx(-1)),
        fx(100),
        Material::Lambertian(Lambertian::new(gray())),
    ));
    let camera = Camera::default();
    let mut rng = Rng::constant(Fixed::zero());
    // the top-center of the viewport: u = 1/2, v = 1
    let u = Fixed { raw: 32768 };
    let v = fx(1);
    let ray = camera.get_ray(u, v);
    assert!(ray.direction.y.raw > 0);
    let got = ray_color(&ray, &world, 50, &mut rng);

    // the background formula, from the normalized direction's y component
    let unit = ray.direction.normal();
    let one = Fixed::one();
    let half = Fixed { raw: 32768 };
    let t = half.mul(unit.y.add(one));
    let white = Color::new(one, one, one);
    let sky = Color::new(half, Fixed { raw: 45875 }, one);
    let expected = white.scale(one.sub(t)).add(sky.scale(t));
    assert_eq!(got, expected);
}

// A very short direction normalizes poorly, but the clamped background
// keeps every radiance channel within the unit interval: this ray's blend
// parameter clamps to zero and the background is exactly white.
#[test]
fn short_direction_background_stays_in_unit_interval() {
    let world = HittableList::new();
    let ray = Ray::new(
        v3(0, 0, 0),
        Vec3d::new(Fixed { raw: 0 }, Fixed { raw: -300 }, Fixed { raw: 0 }),
    );
    let mut rng = Rng::seeded(1);
    let c = ray_color(&ray, &world, 1, &mut rng);
    assert!(0 <= c.r.raw && c.r.raw <= 65536);
    assert!(0 <= c.g.raw && c.g.raw <= 65536);
    assert!(0 <= c.b.raw && c.b.raw <= 65536);
    assert_eq!(c, Color::new(fx(1), fx(1), fx(1)));
}

// End-to-end through the sampler: with a constant generator, a pixel
// whose camera ray escapes the scene holds exactly the encoded background.
#[test]
fn render_pins_escaping_pixels_to_background() {
    let mut world = HittableList::new();
    world.add(Sphere::new(
        Vec3d::new(fx(0), Fixed { raw: -6586368 }, fx(-1)),
        fx(100),
        Material::Lambertian(Lambertian::new(gray())),
    ));
    let camera = Camera::default();
    let mut rng = Rng::constant(Fixed::zero());
    let pixels = render(&world, &camera, 2, 2, 1, 50, &mut rng);

    // the top-left pixel's ray: u = 0, v = 1, pointing up and left
    let ray = camera.get_ray(Fixed::zero(), fx(1));
    assert!(ray.direction.y.raw > 0);
    let mut rng2 = Rng::constant(Fixed::zero());
    let bg = ray_color(&ray, &world, 50, &mut rng2);
    assert_eq!(pixels[0], bg.encode(1));
}

// Encoding a pure-white one-sample color gives the maximum channel value.
#[test]
fn white_encodes_to_full_channels() {
    let white = Color::new(fx(1), fx(1), fx(1));
    assert_eq!(white.encode(1), (255, 255, 255));
}

// Black encodes to zero whatever the sample count.
#[test]
fn black_encodes_to_zero() {
    let black = Color::black();
    assert_eq!(black.encode(100), (0, 0, 0));
}

// Averaging: four samples of full white still saturate; a quarter-white
// average gamma-corrects to one half.
#[test]
fn encode_averages_and_gamma_corrects() {
    let four_white = Color::new(fx(4), fx(4), fx(4));
    assert_eq!(four_white.encode(4), (255, 255, 255));
    let one_of_four = Color::new(fx(1), fx(1), fx(1));
    // average 1/4, square root 1/2, scaled to 128
    assert_eq!(one_of_four.encode(4), (128, 128, 128));
}

// The free-standing quadratic check: the near root toward the center, and
// the minus-one signal on a miss.
#[test]
fn hit_sphere_near_root_and_miss() {
    let ray = Ray::new(v3(0, 0, 0), v3(0, 0, -2));
    let t = hit_sphere(v3(0, 0, -2), fx(1), &ray);
    assert_eq!(t.raw, 32768);

    let miss = hit_sphere(v3(0, 0, -1), Fixed { raw: 32768 }, &Ray::new(v3(0, 0, 0), v3(0, 1, 0)));
    assert_eq!(miss, fx(-1));
}

// The camera's derived viewport geometry.
#[test]
fn camera_geometry() {
    let camera = Camera::default();
    assert_eq!(camera.origin, v3(0, 0, 0));
    assert_eq!(camera.horizontal, Vec3d::new(Fixed { raw: 233016 }, fx(0), fx(0)));
    assert_eq!(camera.vertical, v3(0, 2, 0));
    assert_eq!(
        camera.lower_left_corner,
        Vec3d::new(Fixed { raw: -116508 }, fx(-1), fx(-1))
    );
    // the center ray points straight down the axis
    let ray = camera.get_ray(Fixed { raw: 32768 }, Fixed { raw: 32768 });
    assert_eq!(ray.direction.z, fx(-1));
    assert_eq!(ray.direction.y.raw, 0);
}

// A seeded generator only answers unit-interval draws; a constant one
// answers its value.
#[test]
fn rng_draws_stay_in_unit_interval() {
    let mut rng = Rng::seeded(42);
    let mut all_equal = true;
    let mut prev = rng.next_unit();
    assert!(0 <= prev.raw && prev.raw < 65536);
    for _ in 0..200 {
        let d = rng.next_unit();
        assert!(0 <= d.raw && d.raw < 65536);
        if d != prev {
            all_equal = false;
        }
        prev = d;
    }
    assert!(!all_equal);

    let mut c = Rng::constant(Fixed { raw: 123 });
    assert_eq!(c.next_unit().raw, 123);
    assert_eq!(c.next_unit().raw, 123);
}

// Random vectors land where their contracts say: inside the unit sphere,
// in the chosen hemisphere, and unit vectors are never degenerate.
#[test]
fn random_vectors_obey_their_bounds() {
    let mut rng = Rng::seeded(3);
    for _ in 0..50 {
        let v = Vec3d::random(&mut rng);
        assert!(0 <= v.x.raw && v.x.raw < 65536);

        let w = Vec3d::random_within(&mut rng, fx(-1), fx(1));
        assert!(-65536 <= w.y.raw && w.y.raw <= 65536);

        let p = Vec3d::random_in_unit_sphere(&mut rng);
        assert!(p.len_squared().raw < 65536);

        let normal = v3(0, 1, 0);
        let h = Vec3d::random_in_unit_hemisphere(&mut rng, normal);
        assert!(h.dot(normal).raw >= 0);

        let u = Vec3d::random_unit_vector(&mut rng);
        assert!(u.len_squared().raw > 0);
        // near unit length: within one part in a hundred of one
        let ls = u.len_squared().raw;
        assert!(64880 < ls && ls < 66193, "squared length {}", ls);
    }
}

// The render loop produces one byte triple per pixel, top row first.
#[test]
fn render_produces_all_pixels() {
    let world = world_one_sphere(v3(0, 0, -2), fx(1));
    let camera = Camera::default();
    let mut rng = Rng::constant(Fixed::zero());
    let pixels = render(&world, &camera, 8, 4, 1, 4, &mut rng);
    assert_eq!(pixels.len(), 32);
}

// The one error of the core: a failed pixel write names the destination.
#[test]
fn write_failure_reports_write_color() {
    #[derive(Debug)]
    struct FailingSink;
    impl std::io::Write for FailingSink {
        fn write(&mut self, _buf: &[u8]) -> std::io::Result<usize> {
            Err(std::io::Error::new(std::io::ErrorKind::Other, "closed"))
        }
        fn flush(&mut self) -> std::io::Result<()> {
            Ok(())
        }
    }
    let mut sink = FailingSink;
    let white = Color::new(fx(1), fx(1), fx(1));
    let res = white.write(&mut sink, 1);
    assert!(matches!(res, Err(ErrorKind::WriteColor(_))));

    let mut buf: Vec<u8> = Vec::new();
    let ok = white.write(&mut buf, 1);
    assert!(ok.is_ok());
    assert_eq!(String::from_utf8(buf).unwrap(), "255 255 255\n");

    let io_err = ErrorKind::Io(std::io::Error::new(std::io::ErrorKind::Other, "closed"));
    assert!(matches!(io_err, ErrorKind::Io(_)));
}

// The angle conversion at the flat angle gives pi exactly.
#[test]
fn degrees_to_radians_flat_angle() {
    assert_eq!(degrees_to_radians(fx(180)), pi());
    assert_eq!(degrees_to_radians(fx(0)).raw, 0);
}
