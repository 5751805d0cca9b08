//! Aggregates, materials, the estimator, and an end-to-end scene.

use rand::Rng;
use raytracer::aabb::Interval;
use raytracer::bvh::Bvh;
use raytracer::camera::Builder;
use raytracer::hit::{Hit, Hittable, HittableList};
use raytracer::material::{refract, Dielectric, Lambertian, Material, Metal};
use raytracer::ray::Ray;
use raytracer::render::{ray_color, render_pixel, RenderSettings, World};
use raytracer::sphere::Sphere;
use raytracer::vec3::{reflect, unit_vector, Vec3};

const S: i64 = 65536;
const T: i64 = 1024;
const T_LIMIT: i64 = 0x4000_0000;

fn gray() -> Material {
    Material::Lambertian(Lambertian::new(Vec3::new(32768, 32768, 32768)))
}

fn test_spheres() -> Vec<Hittable> {
    let centers = [
        (0, 0, -3 * S),
        (2 * S, S, -5 * S),
        (-3 * S, -S, -4 * S),
        (S / 2, S / 2, -2 * S),
        (4 * S, 0, -8 * S),
        (-2 * S, 2 * S, -6 * S),
        (0, -1000 * S, -3 * S),
    ];
    let radii = [S, S / 2, S, S / 4, 2 * S, S / 2, 999 * S];
    let mut v = Vec::new();
    for k in 0..centers.len() {
        let (x, y, z) = centers[k];
        v.push(Hittable::Sphere(Sphere::new(
            Vec3::new(x, y, z),
            radii[k],
            gray(),
        )));
    }
    v
}

#[test]
fn bvh_construction_rejects_empty() {
    let empty = HittableList::new();
    assert!(Bvh::new(empty).is_none());
    let mut one = HittableList::new();
    one.add(Hittable::Sphere(Sphere::new(Vec3::new(0, 0, -3 * S), S, gray())));
    assert!(Bvh::new(one).is_some());
}

#[test]
fn bvh_matches_flat_list() {
    // For a thousand randomized rays, the tree and the flat list agree on
    // whether anything is hit, at which parameter, and at which point.
    let mut list = HittableList::new();
    for o in test_spheres() {
        list.add(o);
    }
    let bvh = Bvh::from_slice(test_spheres()).expect("nonempty");
    let mut rng = rand::thread_rng();
    for _ in 0..1000 {
        let origin = Vec3::new(
            rng.gen_range(-8 * S..8 * S),
            rng.gen_range(-8 * S..8 * S),
            rng.gen_range(-8 * S..8 * S),
        );
        let mut d = Vec3::new(
            rng.gen_range(-T..T + 1),
            rng.gen_range(-T..T + 1),
            rng.gen_range(-T..T + 1),
        );
        if d.near_zero() {
            d = Vec3::new(T, 0, 0);
        }
        let ray = Ray::new(origin, d);
        let range = Interval::new(64, T_LIMIT);
        let from_list = list.hit(ray, range);
        let from_bvh = bvh.hit(ray, range);
        assert_eq!(from_list.is_some(), from_bvh.is_some());
        if let (Some(a), Some(b)) = (&from_list, &from_bvh) {
            assert_eq!(a.t, b.t);
            assert_eq!((a.p.x, a.p.y, a.p.z), (b.p.x, b.p.y, b.p.z));
        }
    }
}

fn hit_on_up_normal<'a>(ray: Ray, material: &'a Material) -> Hit<'a> {
    Hit::new(Vec3::new(0, 0, 0), Vec3::new(0, T, 0), S, ray, material)
}

#[test]
fn lambertian_never_absorbs() {
    let m = Lambertian::new(Vec3::new(26214, 13107, 6554));
    let mat = gray();
    for _ in 0..50 {
        let ray = Ray::new(Vec3::new(0, S, 0), Vec3::new(T, -T, 0));
        let hit = hit_on_up_normal(ray, &mat);
        let out = m.lambertian_scatter_with(&ray, &hit, Vec3::new(0, T, 0));
        let (scattered, attenuation) = out.expect("diffuse always scatters");
        assert_eq!(attenuation.x, 26214);
        assert_eq!((scattered.origin.x, scattered.origin.y, scattered.origin.z), (0, 0, 0));
    }
}

#[test]
fn lambertian_degenerate_sum_falls_back_to_normal() {
    let m = Lambertian::new(Vec3::new(26214, 13107, 6554));
    let mat = gray();
    let ray = Ray::new(Vec3::new(0, S, 0), Vec3::new(T, -T, 0));
    let hit = hit_on_up_normal(ray, &mat);
    // A unit draw exactly opposite the normal cancels it.
    let out = m.lambertian_scatter_with(&ray, &hit, Vec3::new(0, -T, 0));
    let (scattered, _) = out.expect("diffuse always scatters");
    assert_eq!((scattered.direction.x, scattered.direction.y, scattered.direction.z), (0, T, 0));
}

#[test]
fn metal_grazing_ray_is_absorbed() {
    // Fuzz zero and grazing incidence: the reflected direction lies in the
    // surface, its product with the normal is zero, and the ray is absorbed.
    let m = Metal::new(Vec3::new(45875, 39321, 32768), 0);
    let mat = gray();
    let ray = Ray::new(Vec3::new(-S, 0, 0), Vec3::new(T, 0, 0));
    let hit = hit_on_up_normal(ray, &mat);
    assert!(m.metal_scatter_with(&ray, &hit, Vec3::new(0, 0, 0)).is_none());
}

#[test]
fn metal_reflects_exactly() {
    let m = Metal::new(Vec3::new(45875, 39321, 32768), 0);
    let mat = gray();
    let ray = Ray::new(Vec3::new(-S, S, 0), Vec3::new(T, -T, 0));
    let hit = hit_on_up_normal(ray, &mat);
    let out = m.metal_scatter_with(&ray, &hit, Vec3::new(0, 0, 0));
    let (scattered, attenuation) = out.expect("must reflect");
    // The rescaled incoming direction is (724, -725, 0) — floor division
    // rounds the negative component down — and mirroring about the up
    // normal flips the vertical component exactly.
    assert_eq!(
        (scattered.direction.x, scattered.direction.y, scattered.direction.z),
        (724, 725, 0)
    );
    assert_eq!(attenuation.x, 45875);
}

#[test]
fn dielectric_never_absorbs_and_stays_white() {
    let d = Dielectric::new(98304);
    let mat = gray();
    let ray = Ray::new(Vec3::new(-S, S, 0), Vec3::new(T, -T, 0));
    let hit = hit_on_up_normal(ray, &mat);
    for draw in [0i64, 32768, 65536] {
        let out = d.dielectric_scatter_with(&ray, &hit, draw);
        let (_, attenuation) = out.expect("glass always scatters");
        assert_eq!((attenuation.x, attenuation.y, attenuation.z), (S, S, S));
    }
}

#[test]
fn tree_of_two_prefers_the_nearer_hit() {
    // Both spheres sit on the ray; whichever child is queried first, the
    // traversal must come back with the nearer parameter.
    for _ in 0..20 {
        let objects = vec![
            Hittable::Sphere(Sphere::new(Vec3::new(0, 0, -6 * S), S, gray())),
            Hittable::Sphere(Sphere::new(Vec3::new(0, 0, -3 * S), S, gray())),
        ];
        let bvh = Bvh::from_slice(objects).expect("nonempty");
        let ray = Ray::new(Vec3::new(0, 0, 0), Vec3::new(0, 0, -T));
        let hit = bvh.hit(ray, Interval::new(0, T_LIMIT)).expect("must hit");
        assert_eq!(hit.t, 2 * S);
    }
}

#[test]
fn moving_sphere_blurs_across_time() {
    // A sphere sliding two units along +x over the shutter window: a
    // vertical ray at its start position hits early in the window and
    // misses late in it.
    let m = raytracer::moving_sphere::MovingSphere::new(
        Vec3::new(0, 0, -3 * S),
        Vec3::new(2 * S, 0, -3 * S),
        0,
        S,
        S / 2,
        gray(),
    );
    let early = Ray::timed(Vec3::new(0, 0, 0), Vec3::new(0, 0, -T), 0);
    let late = Ray::timed(Vec3::new(0, 0, 0), Vec3::new(0, 0, -T), S);
    assert!(m.hit(early, Interval::new(0, T_LIMIT)).is_some());
    assert!(m.hit(late, Interval::new(0, T_LIMIT)).is_none());
}

#[test]
fn list_reports_the_closest_hit() {
    let mut list = HittableList::new();
    list.add(Hittable::Sphere(Sphere::new(Vec3::new(0, 0, -6 * S), S, gray())));
    list.add(Hittable::Sphere(Sphere::new(Vec3::new(0, 0, -3 * S), S, gray())));
    let ray = Ray::new(Vec3::new(0, 0, 0), Vec3::new(0, 0, -T));
    let hit = list
        .hit(ray, Interval::new(0, T_LIMIT))
        .expect("both spheres sit on the ray");
    assert_eq!(hit.t, 2 * S);
}

#[test]
fn dielectric_total_internal_reflection_mirrors() {
    // Struck from inside the glass at a shallow angle: the refraction
    // ratio is the full index, the angle condition fails, and the result
    // is exactly the mirror image, whatever the draw.
    let d = Dielectric::new(98304);
    let mat = gray();
    // An outward normal pointing along the ray makes the record a back
    // face; the stored normal is flipped downward.
    let ray = Ray::new(Vec3::new(0, 0, 0), Vec3::new(T, T / 8, 0));
    let hit = Hit::new(Vec3::new(0, 0, 0), Vec3::new(0, T, 0), S, ray, &mat);
    assert!(!hit.front_face);
    let u = unit_vector(ray.direction);
    let mirrored = reflect(u, hit.normal);
    // The largest draw rules out a reflection picked by reflectance alone.
    let out = d.dielectric_scatter_with(&ray, &hit, 65536);
    let (scattered, _) = out.expect("glass always scatters");
    assert_eq!(
        (scattered.direction.x, scattered.direction.y, scattered.direction.z),
        (mirrored.x, mirrored.y, mirrored.z)
    );
    // From straight on the refraction goes through: not the mirror image.
    let head_on = Ray::new(Vec3::new(0, S, 0), Vec3::new(0, -T, 0));
    let hit2 = Hit::new(Vec3::new(0, 0, 0), Vec3::new(0, T, 0), S, head_on, &mat);
    assert!(hit2.front_face);
    let u2 = unit_vector(head_on.direction);
    let (scattered2, _) = d.dielectric_scatter_with(&head_on, &hit2, 65536).unwrap();
    let refracted = refract(u2, hit2.normal, S, 98304);
    assert_eq!(
        (scattered2.direction.x, scattered2.direction.y, scattered2.direction.z),
        (refracted.x, refracted.y, refracted.z)
    );
    assert!(scattered2.direction.y < 0);
}

#[test]
fn estimator_depth_zero_is_black() {
    let mut list = HittableList::new();
    for o in test_spheres() {
        list.add(o);
    }
    let world = World::List(list);
    let ray = Ray::new(Vec3::new(0, 0, 0), Vec3::new(0, 0, -T));
    let c = ray_color(ray, &world, 0);
    assert_eq!((c.x, c.y, c.z), (0, 0, 0));
}

#[test]
fn estimator_miss_gives_gradient() {
    // An empty scene: a horizontal ray lands exactly midway between white
    // and the sky color.
    let world = World::List(HittableList::new());
    let ray = Ray::new(Vec3::new(0, 0, 0), Vec3::new(0, 0, -T));
    let c = ray_color(ray, &world, 8);
    assert_eq!((c.x, c.y, c.z), (49152, 55705, 65536));
    // Looking straight up gives the sky color itself.
    let up = Ray::new(Vec3::new(0, 0, 0), Vec3::new(0, T, 0));
    let cu = ray_color(up, &world, 8);
    assert_eq!((cu.x, cu.y, cu.z), (32768, 45875, 65536));
    assert!(cu.z > cu.x);
}

#[test]
fn random_draws_vary() {
    // Two hundred three-channel draws from a two-value range must show both
    // values, so the randomness source is not a constant.
    let mut seen_zero = false;
    let mut seen_one = false;
    for _ in 0..200 {
        let v = Vec3::delimited(0, 2);
        for c in [v.x, v.y, v.z] {
            assert!(c == 0 || c == 1);
            if c == 0 {
                seen_zero = true;
            }
            if c == 1 {
                seen_one = true;
            }
        }
    }
    assert!(seen_zero && seen_one);
}

#[test]
fn camera_rays_stay_in_window() {
    let cam = Builder::new(
        Vec3::new(0, 0, 0),
        Vec3::new(0, 0, -S),
        1024,
        16,
        9,
        0,
        T,
    )
    .timed(0, S / 2)
    .build();
    for _ in 0..100 {
        let r = cam.get_ray(32768, 32768);
        assert!(0 <= r.tm && r.tm <= S / 2);
        assert!(r.direction.x.abs() <= 0x8000);
    }
}

#[test]
fn scene_constructors_build() {
    let w = raytracer::scene::final_first();
    assert!(w.objects.len() >= 4);
    let w2 = raytracer::scene::random_scene();
    assert!(w2.objects.len() >= 4);
    let w3 = raytracer::scene::two_sphere();
    assert_eq!(w3.objects.len(), 2);
    assert!(Bvh::new(w).is_some());
}

#[test]
fn two_sphere_scene_renders()
{
    // A tiny render of the end-to-end scenario: a small gray sphere ahead
    // of the camera and a huge ground sphere below it. The bottom of the
    // frame (ground) must come out darker than the top (sky), and the sky
    // must lean blue.
    let mut list = HittableList::new();
    list.add(Hittable::Sphere(Sphere::new(Vec3::new(0, 0, -S), 32768, gray())));
    list.add(Hittable::Sphere(Sphere::new(
        Vec3::new(0, -6586368, -S),
        100 * S,
        gray(),
    )));
    let world = World::List(list);
    let cam = Builder::new(Vec3::new(0, 0, 0), Vec3::new(0, 0, -S), 1024, 16, 9, 0, T).build();
    let settings = RenderSettings::new(16, 16, 9);
    let mut row_brightness = vec![0i64; settings.image_height];
    let mut top_blue = 0i64;
    let mut top_red = 0i64;
    for j in 0..settings.image_height {
        for i in 0..settings.image_width {
            let (r, g, b) = render_pixel(&world, &cam, &settings, i, j);
            row_brightness[j] += r as i64 + g as i64 + b as i64;
            if j == settings.image_height - 1 {
                top_red += r as i64;
                top_blue += b as i64;
            }
        }
    }
    // Rows are indexed bottom-up by the viewport coordinate: the bottom row
    // shows the shadowed ground, the top row the sky.
    let bottom = row_brightness[0];
    let top = row_brightness[settings.image_height - 1];
    assert!(top > bottom, "sky {top} should outshine ground {bottom}");
    assert!(top_blue > top_red, "sky leans blue: {top_blue} vs {top_red}");
}
