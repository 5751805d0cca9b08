//! Interval, box, slab-test and sphere intersection behavior on concrete
//! values (one world unit is 65536; directions are scaled by 1024).

use raytracer::aabb::{Aabb, Interval};
use raytracer::arith::{floor_div, isqrt};
use raytracer::ray::Ray;
use raytracer::render::colorize;
use raytracer::sphere::Sphere;
use raytracer::material::{Lambertian, Material};
use raytracer::texture::{CheckerTexture, Texture};
use raytracer::utils::clamp;
use raytracer::vec3::Vec3;

const S: i64 = 65536;
const T: i64 = 1024;

fn unit_cube() -> Aabb {
    Aabb::new(
        Interval::new(-S, S),
        Interval::new(-S, S),
        Interval::new(-S, S),
    )
}

#[test]
fn interval_operations() {
    let i = Interval::new(-3, 7);
    assert_eq!(i.size(), 10);
    assert!(i.contains(-3));
    assert!(i.contains(7));
    assert!(!i.contains(8));
    let e = i.expand(4);
    assert_eq!(e.minimum, -5);
    assert_eq!(e.maximum, 9);
    let j = Interval::enclosing(&Interval::new(0, 2), &Interval::new(-1, 1));
    assert_eq!(j.minimum, -1);
    assert_eq!(j.maximum, 2);
}

#[test]
fn clamp_bounds() {
    assert_eq!(clamp(5, 0, 10), 5);
    assert_eq!(clamp(-5, 0, 10), 0);
    assert_eq!(clamp(15, 0, 10), 10);
}

#[test]
fn integer_sqrt_and_floor_div() {
    assert_eq!(isqrt(0), 0);
    assert_eq!(isqrt(10), 3);
    assert_eq!(isqrt(16), 4);
    assert_eq!(isqrt((1u128 << 100) - 1), (1u64 << 50) - 1);
    assert_eq!(floor_div(7, 2), 3);
    assert_eq!(floor_div(-7, 2), -4);
    assert_eq!(floor_div(-8, 2), -4);
}

#[test]
fn slab_hit_through_cube() {
    // A ray along +x through the middle of the unit cube.
    let b = unit_cube();
    let ray = Ray::new(Vec3::new(-3 * S, 0, 0), Vec3::new(T, 0, 0));
    assert!(b.hit(ray, Interval::new(0, 10 * S)));
    // The same geometry, but the query range ends before the cube.
    assert!(!b.hit(ray, Interval::new(0, S)));
    // An empty query range never hits.
    assert!(!b.hit(ray, Interval::new(5 * S, 0)));
}

#[test]
fn slab_hit_along_each_axis() {
    let b = unit_cube();
    let along_y = Ray::new(Vec3::new(0, 4 * S, 0), Vec3::new(0, -T, 0));
    assert!(b.hit(along_y, Interval::new(0, 10 * S)));
    let along_z = Ray::new(Vec3::new(0, 0, -5 * S), Vec3::new(0, 0, T));
    assert!(b.hit(along_z, Interval::new(0, 10 * S)));
    let diagonal = Ray::new(Vec3::new(-4 * S, -4 * S, -4 * S), Vec3::new(T, T, T));
    assert!(b.hit(diagonal, Interval::new(0, 10 * S)));
    let diagonal_miss = Ray::new(Vec3::new(-4 * S, 4 * S, 0), Vec3::new(T, T, T));
    assert!(!b.hit(diagonal_miss, Interval::new(0, 10 * S)));
}

#[test]
fn slab_miss_beside_cube() {
    let b = unit_cube();
    let ray = Ray::new(Vec3::new(-3 * S, 3 * S, 0), Vec3::new(T, 0, 0));
    assert!(!b.hit(ray, Interval::new(0, 10 * S)));
}

#[test]
fn slab_zero_component_axis() {
    // The direction does not advance along y or z; the origin lies inside
    // both of those slabs (on the boundary for y), so the test must not
    // falsely reject.
    let b = unit_cube();
    let on_boundary = Ray::new(Vec3::new(-3 * S, S, 0), Vec3::new(T, 0, 0));
    assert!(b.hit(on_boundary, Interval::new(0, 10 * S)));
    let outside = Ray::new(Vec3::new(-3 * S, S + 1, 0), Vec3::new(T, 0, 0));
    assert!(!b.hit(outside, Interval::new(0, 10 * S)));
}

#[test]
fn box_union_contains_both() {
    let a = Aabb::new(
        Interval::new(0, S),
        Interval::new(0, S),
        Interval::new(0, S),
    );
    let b = Aabb::new(
        Interval::new(2 * S, 3 * S),
        Interval::new(-S, 0),
        Interval::new(S, 2 * S),
    );
    let u = Aabb::surrounding(&a, &b);
    assert_eq!(u.x.minimum, 0);
    assert_eq!(u.x.maximum, 3 * S);
    assert_eq!(u.y.minimum, -S);
    assert_eq!(u.y.maximum, S);
    assert_eq!(u.z.minimum, 0);
    assert_eq!(u.z.maximum, 2 * S);
    // Corner points of both boxes lie inside the union.
    assert!(u.x.contains(a.x.minimum) && u.y.contains(a.y.minimum) && u.z.contains(a.z.minimum));
    assert!(u.x.contains(b.x.maximum) && u.y.contains(b.y.maximum) && u.z.contains(b.z.maximum));
}

fn gray() -> Material {
    Material::Lambertian(Lambertian::new(Vec3::new(32768, 32768, 32768)))
}

#[test]
fn sphere_round_trip() {
    // A unit-radius sphere three units down the -z axis; a ray through its
    // center enters at distance minus radius: exactly two units, which is
    // 2 * 65536 in ray parameter units.
    let sphere = Sphere::new(Vec3::new(0, 0, -3 * S), S, gray());
    let ray = Ray::new(Vec3::new(0, 0, 0), Vec3::new(0, 0, -T));
    let hit = sphere.hit(ray, Interval::new(0, 100 * S)).expect("must hit");
    assert_eq!(hit.t, 2 * S);
    assert_eq!(hit.p.z, -2 * S);
    assert!(hit.front_face);
    // The outward normal points back along +z at the entry point.
    assert_eq!(hit.normal.x, 0);
    assert_eq!(hit.normal.y, 0);
    assert_eq!(hit.normal.z, T);
}

#[test]
fn sphere_miss_with_offset() {
    // A perpendicular offset of two units misses the unit sphere.
    let sphere = Sphere::new(Vec3::new(0, 0, -3 * S), S, gray());
    let ray = Ray::new(Vec3::new(0, 2 * S, 0), Vec3::new(0, 0, -T));
    assert!(sphere.hit(ray, Interval::new(0, 100 * S)).is_none());
}

#[test]
fn sphere_inside_uses_far_root() {
    // From the center, the near root is negative, so the far root is taken.
    let sphere = Sphere::new(Vec3::new(0, 0, 0), S, gray());
    let ray = Ray::new(Vec3::new(0, 0, 0), Vec3::new(0, 0, -T));
    let hit = sphere.hit(ray, Interval::new(0, 100 * S)).expect("must hit");
    assert_eq!(hit.t, S);
    // Struck from inside: the stored normal is flipped against the ray.
    assert!(!hit.front_face);
}

#[test]
fn moving_sphere_center_interpolates() {
    let m = raytracer::moving_sphere::MovingSphere::new(
        Vec3::new(0, 0, 0),
        Vec3::new(S, 0, 0),
        0,
        S,
        32768,
        gray(),
    );
    assert_eq!(m.center(0).x, 0);
    assert_eq!(m.center(S / 2).x, S / 2);
    assert_eq!(m.center(S).x, S);
    // The cached box covers the whole sweep.
    let b = m.bounding_box();
    assert_eq!(b.x.minimum, -32768);
    assert_eq!(b.x.maximum, S + 32768);
}

#[test]
fn checker_alternates_cells() {
    let even = Vec3::new(S, S, S);
    let odd = Vec3::new(0, 0, 0);
    let checker = Texture::Checker(Box::new(CheckerTexture::from_color(S, even, odd)));
    // Cell (0,0,0) is even; one cell over along x is odd; floor division
    // puts a slightly negative x into cell -1, which is odd again.
    assert_eq!(checker.value(0, 0, Vec3::new(0, 0, 0)).x, S);
    assert_eq!(checker.value(0, 0, Vec3::new(S, 0, 0)).x, 0);
    assert_eq!(checker.value(0, 0, Vec3::new(-1, 0, 0)).x, 0);
    assert_eq!(checker.value(0, 0, Vec3::new(S, S, 0)).x, S);
}

#[test]
fn colorize_gamma_bytes() {
    // A full channel maps to 255, a quarter channel to 128, zero to zero.
    let (r, g, b) = colorize(Vec3::new(S, 16384, 0), 1);
    assert_eq!(r, 255);
    assert_eq!(g, 128);
    assert_eq!(b, 0);
    // Averaging over four samples of a full channel gives a quarter mean.
    let (r2, _, _) = colorize(Vec3::new(S, 0, 0), 4);
    assert_eq!(r2, 128);
}
