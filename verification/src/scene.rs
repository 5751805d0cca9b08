//! Scene constructors: the randomized demonstration scenes, on the fixed
//! point scales (one world unit is `S_ONE`).

use crate::hit::{list_wf, obj_wf, Hittable, HittableList};
use crate::material::{Dielectric, Lambertian, Material, Metal};
use crate::rng::rand_range;
use crate::sphere::Sphere;
use crate::texture::{CheckerTexture, Texture};
use crate::vec3::Vec3;
use crate::S_ONE;
use vstd::prelude::*;

verus! {

/// Append a valid object, keeping the whole list valid.
fn add_obj(world: &mut HittableList, object: Hittable)
    requires
        list_wf(*old(world)),
        obj_wf(object),
    ensures
        list_wf(*final(world)),
        final(world).objects@.len() == old(world).objects@.len() + 1,
        final(world).objects@ == old(world).objects@.push(object),
{
    let ghost before = world.objects@;
    world.add(object);
    proof {
        assert forall|i: int| 0 <= i < world.objects@.len() implies obj_wf(
            #[trigger] world.objects@[i],
        ) by {
            if i < before.len() {
                assert(world.objects@[i] == before[i]);
            } else {
                assert(world.objects@[i] == object);
            }
        }
    }
}

/// The product of two random albedo channels, renormalized, is a valid
/// channel.
proof fn lemma_albedo_product(a: int, b: int)
    requires
        0 <= a <= S_ONE,
        0 <= b <= S_ONE,
    ensures
        0 <= (a * b) / (S_ONE as int) <= S_ONE,
{
    vstd::arithmetic::div_mod::lemma_fundamental_div_mod(a * b, S_ONE as int);
    vstd::arithmetic::div_mod::lemma_mod_division_less_than_divisor(a * b, S_ONE as int);
    assert(0 <= (a * b) / (S_ONE as int) <= S_ONE) by (nonlinear_arith)
        requires
            a * b == (S_ONE as int) * ((a * b) / (S_ONE as int)) + (a * b) % (S_ONE as int),
            0 <= (a * b) % (S_ONE as int) < S_ONE,
            0 <= a <= S_ONE,
            0 <= b <= S_ONE,
            S_ONE == 65536,
    ;
}

/// One small sphere of the demonstration grid: a random material on a
/// jittered grid point, or nothing where the point crowds the big spheres.
fn grid_sphere(a: i64, b: i64, moving: bool) -> (r: Option<Hittable>)
    requires
        -11 <= a <= 11,
        -11 <= b <= 11,
    ensures
        r matches Some(o) ==> obj_wf(o),
{
    let choose_mat = rand_range(0, S_ONE);
    let center = Vec3 {
        x: a * S_ONE + rand_range(0, 58982),
        y: 13107,
        z: b * S_ONE + rand_range(0, 58982),
    };
    let anchor = Vec3 { x: 4 * S_ONE, y: 13107, z: 0 };
    let diff = center.sub(anchor);
    // Keep clear of the big spheres: farther than nine tenths of a unit.
    if diff.length_squared() > 3478876324i128 {
        if choose_mat < 52428 {
            // Diffuse, with a squared random albedo.
            let c1 = Vec3::random();
            let c2 = Vec3::random();
            let albedo = c1.mul_color(c2);
            proof {
                lemma_albedo_product(c1.x as int, c2.x as int);
                lemma_albedo_product(c1.y as int, c2.y as int);
                lemma_albedo_product(c1.z as int, c2.z as int);
            }
            let sphere_material = Material::Lambertian(Lambertian::new(albedo));
            if moving {
                let center2 = center.add(Vec3 { x: 0, y: rand_range(0, 32769), z: 0 });
                Some(
                    Hittable::Sphere(Sphere::moving(center, center2, 13107, sphere_material)),
                )
            } else {
                Some(Hittable::Sphere(Sphere::new(center, 13107, sphere_material)))
            }
        } else if choose_mat < 62259 {
            // Fuzzy metal with a bright albedo.
            let albedo = Vec3::delimited(32768, S_ONE);
            let fuzz = rand_range(0, 32769);
            let sphere_material = Material::Metal(Metal::new(albedo, fuzz));
            Some(Hittable::Sphere(Sphere::new(center, 13107, sphere_material)))
        } else {
            let sphere_material = Material::Dielectric(Dielectric::new(98304));
            Some(Hittable::Sphere(Sphere::new(center, 13107, sphere_material)))
        }
    } else {
        None
    }
}

/// The three large spheres shared by the demonstration scenes: glass in the
/// middle, diffuse brown on the left, polished metal on the right.
fn add_big_spheres(world: &mut HittableList)
    requires
        list_wf(*old(world)),
    ensures
        list_wf(*final(world)),
        final(world).objects@.len() == old(world).objects@.len() + 3,
        forall|i: int|
            0 <= i < old(world).objects@.len() ==> final(world).objects@[i] == old(
                world,
            ).objects@[i],
{
    let material = Material::Dielectric(Dielectric::new(98304));
    add_obj(
        world,
        Hittable::Sphere(Sphere::new(Vec3 { x: 0, y: S_ONE, z: 0 }, S_ONE, material)),
    );
    let material = Material::Lambertian(
        Lambertian::new(Vec3 { x: 26214, y: 13107, z: 6554 }),
    );
    add_obj(
        world,
        Hittable::Sphere(Sphere::new(Vec3 { x: -4 * S_ONE, y: S_ONE, z: 0 }, S_ONE, material)),
    );
    let material = Material::Metal(Metal::new(Vec3 { x: 45875, y: 39321, z: 32768 }, 0));
    add_obj(
        world,
        Hittable::Sphere(Sphere::new(Vec3 { x: 4 * S_ONE, y: S_ONE, z: 0 }, S_ONE, material)),
    );
}

/// The jittered grid of small spheres.
fn add_grid(world: &mut HittableList, moving: bool)
    requires
        list_wf(*old(world)),
    ensures
        list_wf(*final(world)),
        final(world).objects@.len() >= old(world).objects@.len(),
        forall|i: int|
            0 <= i < old(world).objects@.len() ==> final(world).objects@[i] == old(
                world,
            ).objects@[i],
{
    let mut a: i64 = -11;
    while a < 11
        invariant
            -11 <= a <= 11,
            list_wf(*world),
            world.objects@.len() >= old(world).objects@.len(),
            forall|i: int|
                0 <= i < old(world).objects@.len() ==> world.objects@[i] == old(world).objects@[i],
        decreases 11 - a,
    {
        let mut b: i64 = -11;
        while b < 11
            invariant
                -11 <= a <= 10,
                -11 <= b <= 11,
                list_wf(*world),
                world.objects@.len() >= old(world).objects@.len(),
                forall|i: int|
                    0 <= i < old(world).objects@.len() ==> world.objects@[i] == old(
                        world,
                    ).objects@[i],
            decreases 11 - b,
        {
            if let Some(o) = grid_sphere(a, b, moving) {
                add_obj(world, o);
            }
            b = b + 1;
        }
        a = a + 1;
    }
}

/// The classic final scene: a gray diffuse ground sphere, the jittered grid
/// of small static spheres, and the three large spheres.
pub fn final_first() -> (r: HittableList)
    ensures
        list_wf(r),
        r.objects@.len() >= 4,
        r.objects@[0] matches Hittable::Sphere(s) && s.center.x == 0 && s.center.y == -1000
            * S_ONE && s.center.z == 0 && s.radius == 1000 * S_ONE,
{
    let mut world = HittableList::new();
    let material_ground = Material::Lambertian(
        Lambertian::new(Vec3 { x: 32768, y: 32768, z: 32768 }),
    );
    add_obj(
        &mut world,
        Hittable::Sphere(
            Sphere::new(Vec3 { x: 0, y: -1000 * S_ONE, z: 0 }, 1000 * S_ONE, material_ground),
        ),
    );
    add_grid(&mut world, false);
    add_big_spheres(&mut world);
    world
}

/// The motion-blur scene: a checkered ground sphere, the jittered grid with
/// vertically drifting diffuse spheres, and the three large spheres.
pub fn random_scene() -> (r: HittableList)
    ensures
        list_wf(r),
        r.objects@.len() >= 4,
{
    let mut world = HittableList::new();
    let checker = Texture::Checker(
        Box::new(
            CheckerTexture::from_color(
                20972,
                Vec3 { x: 13107, y: 19661, z: 6554 },
                Vec3 { x: 58982, y: 58982, z: 58982 },
            ),
        ),
    );
    proof {
        assert(crate::texture::texture_wf(checker)) by {
            assert(checker matches Texture::Checker(c) && crate::texture::texture_wf(c.even)
                && crate::texture::texture_wf(c.odd));
        }
    }
    let material_ground = Material::Lambertian(Lambertian::textured(checker));
    add_obj(
        &mut world,
        Hittable::Sphere(
            Sphere::new(Vec3 { x: 0, y: -1000 * S_ONE, z: 0 }, 1000 * S_ONE, material_ground),
        ),
    );
    add_grid(&mut world, true);
    add_big_spheres(&mut world);
    world
}

/// Two large checkered spheres facing each other.
pub fn two_sphere() -> (r: HittableList)
    ensures
        list_wf(r),
        r.objects@.len() == 2,
{
    let mut world = HittableList::new();
    let checker = Texture::Checker(
        Box::new(
            CheckerTexture::from_color(
                20972,
                Vec3 { x: 13107, y: 19661, z: 6554 },
                Vec3 { x: 58982, y: 58982, z: 58982 },
            ),
        ),
    );
    let checker2 = Texture::Checker(
        Box::new(
            CheckerTexture::from_color(
                20972,
                Vec3 { x: 13107, y: 19661, z: 6554 },
                Vec3 { x: 58982, y: 58982, z: 58982 },
            ),
        ),
    );
    proof {
        assert(crate::texture::texture_wf(checker)) by {
            assert(checker matches Texture::Checker(c) && crate::texture::texture_wf(c.even)
                && crate::texture::texture_wf(c.odd));
        }
        assert(crate::texture::texture_wf(checker2)) by {
            assert(checker2 matches Texture::Checker(c) && crate::texture::texture_wf(c.even)
                && crate::texture::texture_wf(c.odd));
        }
    }
    add_obj(
        &mut world,
        Hittable::Sphere(
            Sphere::new(
                Vec3 { x: 0, y: -10 * S_ONE, z: 0 },
                10 * S_ONE,
                Material::Lambertian(Lambertian::textured(checker)),
            ),
        ),
    );
    add_obj(
        &mut world,
        Hittable::Sphere(
            Sphere::new(
                Vec3 { x: 0, y: 10 * S_ONE, z: 0 },
                10 * S_ONE,
                Material::Lambertian(Lambertian::textured(checker2)),
            ),
        ),
    );
    world
}

} // verus!
