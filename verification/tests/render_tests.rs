use raytrace::camera::{color_bytes, degrees_to_radians, Camera};
use raytrace::fixed::{tan_fix, SCALE};
use raytrace::hittable::{HitRecord, Hittable, HittableList, HittableObject};
use raytrace::interval::Interval;
use raytrace::material::{Dielectric, Lambertian, Material, MaterialType, Metal};
use raytrace::ray::Ray;
use raytrace::sphere::Sphere;
use raytrace::vector3::{Color, Point, Vector3};

const S: i64 = SCALE;

fn gray() -> MaterialType {
    MaterialType::Lambertian(Lambertian::new(Color::new(S / 2, S / 2, S / 2)))
}

fn down_z_ray() -> Ray {
    Ray::new(Point::new(0, 0, 0), Vector3::new(0, 0, -S))
}

#[test]
fn test_interval_basics() {
    let i = Interval::new(2, 5);
    assert!(i.contains(2) && i.contains(5) && i.contains(3));
    assert!(!i.surrounds(2) && !i.surrounds(5) && i.surrounds(3));
    assert_eq!(i.clamp(7), 5);
    assert_eq!(i.clamp(1), 2);
    assert_eq!(i.clamp(4), 4);
    let e = Interval::empty();
    assert!(!e.contains(0));
    let u = Interval::universe();
    assert!(u.contains(i64::MIN) && u.contains(i64::MAX));
    assert_eq!(Interval::new(2, 5).size(), 3);
}

#[test]
fn test_sphere_tangent_boundary() {
    // a ray exactly tangent to a unit sphere: the discriminant is
    // exactly zero here, and zero counts as a (grazing) hit at the
    // tangent point, two units down the ray
    let s = Sphere::new(Point::new(0, S, -2 * S), S, gray());
    let r = down_z_ray();
    let hit = s.hit(&r, Interval::new(65, i64::MAX));
    let rec = hit.expect("tangent ray grazes");
    assert_eq!(rec.t, 2 * S);
}

#[test]
fn test_sphere_miss() {
    // one tick farther away the discriminant turns negative: no hit
    let s = Sphere::new(Point::new(0, S + 1, -2 * S), S, gray());
    let r = down_z_ray();
    assert!(s.hit(&r, Interval::new(65, i64::MAX)).is_none());
}

#[test]
fn test_sphere_open_interval() {
    // roots exactly on the window's ends do not count: with the nearer
    // root on the lower end, the farther root is returned
    let s = Sphere::new(Point::new(0, 0, -2 * S), S / 2, gray());
    let r = down_z_ray();
    let rec = s.hit(&r, Interval::new(65, i64::MAX)).expect("head-on hit");
    assert_eq!(rec.t, 98304);
    let rec2 = s.hit(&r, Interval::new(98304, 3 * S)).expect("far root");
    assert_eq!(rec2.t, 163840);
    assert!(s.hit(&r, Interval::new(98304, 163840)).is_none());
}

#[test]
fn test_closest_hit() {
    // two spheres along one ray: the nearer intersection wins in either
    // insertion order
    let near = HittableObject::Sphere(Sphere::new(Point::new(0, 0, -2 * S), S / 2, gray()));
    let far = HittableObject::Sphere(Sphere::new(Point::new(0, 0, -4 * S), S, gray()));
    let r = down_z_ray();

    let mut world = HittableList::new();
    world.push(far);
    let near2 = HittableObject::Sphere(Sphere::new(Point::new(0, 0, -2 * S), S / 2, gray()));
    world.push(near2);
    let rec = world.hit(&r, Interval::new(65, i64::MAX)).expect("hit");
    assert_eq!(rec.t, 98304);

    let mut world2 = HittableList::new();
    world2.push(near);
    let far2 = HittableObject::Sphere(Sphere::new(Point::new(0, 0, -4 * S), S, gray()));
    world2.push(far2);
    let rec2 = world2.hit(&r, Interval::new(65, i64::MAX)).expect("hit");
    assert_eq!(rec2.t, 98304);
}

#[test]
fn test_face_orientation() {
    // the returned normal always opposes the incoming ray
    let s = Sphere::new(Point::new(0, 0, -2 * S), S / 2, gray());
    let outside = down_z_ray();
    let rec = s.hit(&outside, Interval::new(65, i64::MAX)).expect("hit");
    assert!(Vector3::dot(outside.direction, rec.normal) <= 0);
    assert!(rec.front_face);
    // from inside the sphere the normal flips and still opposes the ray
    let inside = Ray::new(Point::new(0, 0, -2 * S), Vector3::new(0, 0, -S));
    let rec2 = s.hit(&inside, Interval::new(65, i64::MAX)).expect("hit");
    assert!(Vector3::dot(inside.direction, rec2.normal) <= 0);
    assert!(!rec2.front_face);
}

fn sample_record(mat: MaterialType) -> HitRecord {
    HitRecord {
        p: Point::new(0, 0, -(3 * S) / 2),
        normal: Vector3::new(0, 0, S),
        t: 98304,
        front_face: true,
        material: mat,
    }
}

#[test]
fn test_lambertian_scatter_energy() {
    let albedo = Color::new(S / 10, S / 5, S / 2);
    let mat = Lambertian::new(albedo);
    let rec = sample_record(MaterialType::Lambertian(mat));
    let r = down_z_ray();
    let (att, scattered) = mat.scatter(&r, &rec).expect("lambertian always scatters");
    assert_eq!(att, albedo);
    assert_eq!(scattered.origin, rec.p);
}

#[test]
fn test_metal_scatter_energy() {
    let albedo = Color::new((8 * S) / 10, (6 * S) / 10, S / 5);
    let mat = Metal::new(albedo, 0);
    let rec = sample_record(MaterialType::Metal(mat));
    let r = down_z_ray();
    let (att, scattered) = mat.scatter(&r, &rec).expect("mirror reflection scatters");
    assert_eq!(att, albedo);
    // with zero fuzz the reflection of the head-on ray is exact
    assert_eq!(scattered.direction, Vector3::new(0, 0, S));
    assert!(Vector3::dot(scattered.direction, rec.normal) > 0);
}

#[test]
fn test_albedo_clamped() {
    // each stored albedo channel is forced into the unit energy band
    let l = Lambertian::new(Color::new(2 * S, -5, S / 2));
    assert_eq!(l.albedo, Color::new(S, 0, S / 2));
    let m = Metal::new(Color::new(-1, 3 * S, 1234), 0);
    assert_eq!(m.albedo, Color::new(0, S, 1234));
}

#[test]
fn test_metal_fuzz_clamped() {
    let m = Metal::new(Color::new(S, S, S), 3 * S);
    assert_eq!(m.fuzz, S);
    let m2 = Metal::new(Color::new(S, S, S), -5);
    assert_eq!(m2.fuzz, 0);
}

#[test]
fn test_dielectric_scatter_energy() {
    let mat = Dielectric::new((3 * S) / 2);
    let rec = sample_record(MaterialType::Dielectric(mat));
    let r = down_z_ray();
    let (att, _scattered) = mat.scatter(&r, &rec).expect("glass never absorbs");
    assert_eq!(att, Color::new(S, S, S));
}

#[test]
fn test_reflectance_normal_incidence() {
    // with the ray exactly along the normal the grazing term vanishes
    // and only the base reflectance remains
    let ri = (3 * S) / 2;
    assert_eq!(Dielectric::reflectance(S, ri), 2621);
}

#[test]
fn test_reflectance_grazing() {
    // at grazing incidence the reflectance rises to one
    let ri = (3 * S) / 2;
    assert_eq!(Dielectric::reflectance(0, ri), S);
}

fn test_camera() -> Camera {
    Camera::new(
        64,
        64,
        1,
        1,
        90 * S,
        Point::new(0, 0, 0),
        Point::new(0, 0, -S),
        Vector3::new(0, S, 0),
        0,
        S,
    )
}

fn center_sphere_world() -> HittableList {
    let mut world = HittableList::new();
    world.push(HittableObject::Sphere(Sphere::new(Point::new(0, 0, -S), S / 2, gray())));
    world
}

#[test]
fn test_ray_color_depth_zero() {
    // the recursion terminates in black at depth zero, whatever the ray
    let cam = test_camera();
    let world = center_sphere_world();
    let r = down_z_ray();
    assert_eq!(cam.ray_color(&r, 0, &world), Color::new(0, 0, 0));
    let r2 = Ray::new(Point::new(123, -77, 5), Vector3::new(-S, 2 * S, 9999));
    assert_eq!(cam.ray_color(&r2, 0, &world), Color::new(0, 0, 0));
}

#[test]
fn test_render_center_hits_corner_misses() {
    // camera at the origin looking down -z at a small sphere: with one
    // sample and depth one, the center pixel's path ends absorbed
    // (black) while a corner ray misses and shows the sky gradient
    let cam = test_camera();
    let world = center_sphere_world();
    let pixels = cam.render(&world);
    assert_eq!(pixels.len(), 3 * 64 * 64);
    let center = 3 * (32 * 64 + 32);
    assert_eq!(&pixels[center..center + 3], &[0, 0, 0]);
    let corner = &pixels[0..3];
    assert_ne!(corner, &[0, 0, 0]);
    // the sky's blue channel is full in every miss
    assert_eq!(corner[2], 255);
}

#[test]
fn test_gamma_clamp_bytes() {
    // a saturated, a black and a slightly negative channel
    let (r, g, b) = color_bytes(Color::new(S, 0, -6554));
    assert_eq!((r, g, b), (255, 0, 0));
}

#[test]
fn test_linear_to_gamma() {
    assert_eq!(Camera::linear_to_gamma(S / 4), S / 2);
    assert_eq!(Camera::linear_to_gamma(0), 0);
    assert_eq!(Camera::linear_to_gamma(-100), 0);
}

#[test]
fn test_angle_conversions() {
    // a straight angle in fixed-point radians
    assert_eq!(degrees_to_radians(180 * S), 205887);
    // the tangent of an eighth turn is one
    assert_eq!(tan_fix(51471), S);
}
