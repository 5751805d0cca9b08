//! Hit records, the closed set of intersectable objects, and the flat list
//! aggregate.

use crate::aabb::{surrounding_spec, Aabb, Interval};
use crate::material::Material;
use crate::moving_sphere::MovingSphere;
use crate::ray::Ray;
use crate::sphere::Sphere;
use crate::vec3::{dot, dot3, len2, Point3, Vec3};
use crate::T_LIMIT;
use vstd::prelude::*;

verus! {

/// The result of a successful ray-object intersection.
pub struct Hit<'a> {
    pub p: Point3,
    pub normal: Vec3,
    pub material: &'a Material,
    pub t: i64,
    pub u: i64,
    pub v: i64,
    pub front_face: bool,
}

impl<'a> Hit<'a> {
    /// Build a record from the outward normal, flipping it against the
    /// incoming ray and noting which side was struck.
    pub fn new(p: Point3, outward_normal: Vec3, t: i64, ray: Ray, material: &'a Material) -> (r:
        Hit<'a>)
        requires
            outward_normal.in_bounds(0x2000_0000_0000_0000),
            ray.direction.in_bounds(0x2000_0000_0000_0000),
        ensures
            r.p == p,
            r.t == t,
            r.material == material,
            r.u == 0,
            r.v == 0,
            r.front_face == (dot3(ray.direction, outward_normal) < 0),
            r.front_face ==> r.normal == outward_normal,
            !r.front_face ==> r.normal.x == -outward_normal.x && r.normal.y == -outward_normal.y
                && r.normal.z == -outward_normal.z,
    {
        let front_face = dot(ray.direction(), outward_normal) < 0;
        Hit {
            p,
            material,
            t,
            u: 0,
            v: 0,
            front_face,
            normal: if front_face {
                outward_normal
            } else {
                outward_normal.neg()
            },
        }
    }
}

/// The closed set of intersectable objects.
pub enum Hittable {
    Sphere(Sphere),
    MovingSphere(MovingSphere),
}

/// Valid object data.
pub open spec fn obj_wf(o: Hittable) -> bool {
    match o {
        Hittable::Sphere(s) => s.wf(),
        Hittable::MovingSphere(m) => m.wf(),
    }
}

/// The object's bounding box.
pub open spec fn obj_bbox(o: Hittable) -> Aabb {
    match o {
        Hittable::Sphere(s) => s.bbox,
        Hittable::MovingSphere(m) => m.bbox,
    }
}

/// Whether the object is hit within `[tmin, tmax]`.
pub open spec fn obj_hits(o: Hittable, ray: Ray, tmin: int, tmax: int) -> bool {
    match o {
        Hittable::Sphere(s) => crate::sphere::s_hits(s, ray, tmin, tmax),
        Hittable::MovingSphere(m) => crate::moving_sphere::m_hits(m, ray, tmin, tmax),
    }
}

/// The object's reported (floored) hit parameter.
pub open spec fn obj_t(o: Hittable, ray: Ray, tmin: int) -> int {
    match o {
        Hittable::Sphere(s) => crate::sphere::s_root(s, ray, tmin),
        Hittable::MovingSphere(m) => crate::moving_sphere::m_root(m, ray, tmin),
    }
}

/// What the object's hit record holds.
pub open spec fn obj_record(o: Hittable, ray: Ray, tmin: int, h: Hit) -> bool {
    match o {
        Hittable::Sphere(s) => crate::sphere::s_record(s, ray, tmin, h) && h.material == &s.material,
        Hittable::MovingSphere(m) => crate::moving_sphere::m_record(m, ray, tmin, h) && h.material
            == &m.material,
    }
}

/// Hitting within a smaller range implies hitting within a larger one, and
/// a hit rejected by a narrower range has its parameter beyond that range.
pub proof fn lemma_obj_hit_ranges(o: Hittable, ray: Ray, tmin: int, c: int, tmax: int)
    requires
        obj_wf(o),
        len2(ray.direction) > 0,
        tmin <= c <= tmax,
    ensures
        obj_hits(o, ray, tmin, c) ==> obj_hits(o, ray, tmin, tmax),
        obj_hits(o, ray, tmin, tmax) && !obj_hits(o, ray, tmin, c) ==> obj_t(o, ray, tmin) >= c,
{
    let a = crate::sphere::quad_a(ray);
    assert(a > 0) by {
        assert(a == len2(ray.direction));
    }
    match o {
        Hittable::Sphere(s) => {
            let cc = crate::sphere::sphere_center_at(s, ray.tm as int);
            let hb = crate::sphere::quad_hb(ray, cc.0, cc.1, cc.2);
            let d = crate::sphere::quad_disc(ray, cc.0, cc.1, cc.2, s.radius as int);
            if crate::sphere::sphere_hits(a, hb, d, tmin, c) {
                crate::sphere::lemma_hits_widen(a, hb, d, tmin, c, tmax);
            }
            if crate::sphere::sphere_hits(a, hb, d, tmin, tmax) && !crate::sphere::sphere_hits(
                a,
                hb,
                d,
                tmin,
                c,
            ) {
                crate::sphere::lemma_hit_beyond(a, hb, d, tmin, c, tmax);
            }
        },
        Hittable::MovingSphere(m) => {
            let cc = crate::moving_sphere::msphere_center_at(m, ray.tm as int);
            let hb = crate::sphere::quad_hb(ray, cc.0, cc.1, cc.2);
            let d = crate::sphere::quad_disc(ray, cc.0, cc.1, cc.2, m.radius as int);
            if crate::sphere::sphere_hits(a, hb, d, tmin, c) {
                crate::sphere::lemma_hits_widen(a, hb, d, tmin, c, tmax);
            }
            if crate::sphere::sphere_hits(a, hb, d, tmin, tmax) && !crate::sphere::sphere_hits(
                a,
                hb,
                d,
                tmin,
                c,
            ) {
                crate::sphere::lemma_hit_beyond(a, hb, d, tmin, c, tmax);
            }
        },
    }
}

/// The material carried by a hit record of a valid object is valid.
pub proof fn lemma_record_material(o: Hittable, ray: Ray, tmin: int, h: Hit)
    requires
        obj_wf(o),
        obj_record(o, ray, tmin, h),
    ensures
        crate::material::mat_wf(*h.material),
{
    match o {
        Hittable::Sphere(s) => {
            assert(*h.material == s.material);
        },
        Hittable::MovingSphere(m) => {
            assert(*h.material == m.material);
        },
    }
}

impl Hittable {
    /// The object's bounding box.
    pub fn bounding_box(&self) -> (r: Aabb)
        ensures
            r == obj_bbox(*self),
    {
        match self {
            Hittable::Sphere(s) => s.bounding_box(),
            Hittable::MovingSphere(m) => m.bounding_box(),
        }
    }

    /// The closest intersection with the ray inside the parameter range.
    pub fn hit<'a>(&'a self, ray: Ray, ray_t: Interval) -> (r: Option<Hit<'a>>)
        requires
            obj_wf(*self),
            ray.wf(),
            len2(ray.direction) > 0,
            -T_LIMIT - 2 <= ray_t.minimum <= ray_t.maximum,
            ray_t.maximum <= T_LIMIT + 2,
        ensures
            r.is_some() == obj_hits(*self, ray, ray_t.minimum as int, ray_t.maximum as int),
            r matches Some(h) ==> {
                &&& obj_record(*self, ray, ray_t.minimum as int, h)
                &&& h.t == obj_t(*self, ray, ray_t.minimum as int)
                &&& ray_t.minimum <= h.t <= ray_t.maximum
            },
    {
        match self {
            Hittable::Sphere(s) => s.hit(ray, ray_t),
            Hittable::MovingSphere(m) => m.hit(ray, ray_t),
        }
    }
}

/// A flat aggregate: an ordered sequence of objects with the running union
/// of their boxes.
pub struct HittableList {
    pub objects: Vec<Hittable>,
    pub bbox: Aabb,
}

/// Every member of the list is valid.
pub open spec fn list_wf(l: HittableList) -> bool {
    forall|i: int| 0 <= i < l.objects@.len() ==> obj_wf(#[trigger] l.objects@[i])
}

impl HittableList {
    /// An empty aggregate; its box is the empty box, which never hits and is
    /// the identity of the box union.
    pub fn new() -> (r: HittableList)
        ensures
            r.objects@.len() == 0,
            r.bbox == (Aabb {
                x: Interval { minimum: i64::MAX, maximum: i64::MIN },
                y: Interval { minimum: i64::MAX, maximum: i64::MIN },
                z: Interval { minimum: i64::MAX, maximum: i64::MIN },
            }),
    {
        HittableList { objects: Vec::new(), bbox: Aabb::empty() }
    }

    /// Append an object, growing the box to cover it.
    pub fn add(&mut self, object: Hittable)
        ensures
            final(self).objects@ == old(self).objects@.push(object),
            final(self).bbox == surrounding_spec(old(self).bbox, obj_bbox(object)),
    {
        self.bbox = Aabb::surrounding(&self.bbox, &object.bounding_box());
        self.objects.push(object);
    }

    /// The closest intersection over all members: the search range shrinks
    /// to the best parameter found so far, so the reported hit is a member
    /// hit of minimal reported parameter.
    pub fn hit<'a>(&'a self, ray: Ray, ray_t: Interval) -> (r: Option<Hit<'a>>)
        requires
            list_wf(*self),
            ray.wf(),
            len2(ray.direction) > 0,
            -T_LIMIT <= ray_t.minimum <= ray_t.maximum,
            ray_t.maximum <= T_LIMIT,
        ensures
            r.is_some() == exists|i: int|
                0 <= i < self.objects@.len() && obj_hits(
                    #[trigger] self.objects@[i],
                    ray,
                    ray_t.minimum as int,
                    ray_t.maximum as int,
                ),
            r matches Some(h) ==> {
                &&& exists|i: int|
                    0 <= i < self.objects@.len() && obj_hits(
                        #[trigger] self.objects@[i],
                        ray,
                        ray_t.minimum as int,
                        ray_t.maximum as int,
                    ) && obj_record(self.objects@[i], ray, ray_t.minimum as int, h) && h.t == obj_t(
                        self.objects@[i],
                        ray,
                        ray_t.minimum as int,
                    )
                &&& forall|i: int|
                    0 <= i < self.objects@.len() && obj_hits(
                        #[trigger] self.objects@[i],
                        ray,
                        ray_t.minimum as int,
                        ray_t.maximum as int,
                    ) ==> h.t <= obj_t(self.objects@[i], ray, ray_t.minimum as int)
                &&& ray_t.minimum <= h.t <= ray_t.maximum
            },
    {
        let tmin = ray_t.minimum;
        let tmax = ray_t.maximum;
        let ghost gmin = tmin as int;
        let ghost gmax = tmax as int;
        let mut closest_so_far: i64 = tmax;
        let mut result: Option<Hit<'a>> = None;
        let n = self.objects.len();
        let mut k: usize = 0;
        while k < n
            invariant
                n == self.objects@.len(),
                0 <= k <= n,
                list_wf(*self),
                ray.wf(),
                len2(ray.direction) > 0,
                -T_LIMIT <= tmin <= tmax <= T_LIMIT,
                gmin == tmin as int,
                gmax == tmax as int,
                tmin <= closest_so_far <= tmax,
                result.is_some() == exists|i: int|
                    0 <= i < k && obj_hits(#[trigger] self.objects@[i], ray, gmin, gmax),
                result is None ==> closest_so_far == tmax,
                result matches Some(h) ==> {
                    &&& closest_so_far == h.t
                    &&& exists|i: int|
                        0 <= i < k && obj_hits(#[trigger] self.objects@[i], ray, gmin, gmax)
                            && obj_record(self.objects@[i], ray, gmin, h) && h.t == obj_t(
                            self.objects@[i],
                            ray,
                            gmin,
                        )
                    &&& forall|i: int|
                        0 <= i < k && obj_hits(#[trigger] self.objects@[i], ray, gmin, gmax)
                            ==> h.t <= obj_t(self.objects@[i], ray, gmin)
                    &&& gmin <= h.t <= gmax
                },
            decreases n - k,
        {
            let ghost old_result = result;
            let ghost old_closest = closest_so_far;
            let obj = &self.objects[k];
            if let Some(hit) = obj.hit(ray, Interval::new(tmin, closest_so_far)) {
                closest_so_far = hit.t;
                result = Some(hit);
                proof {
                    lemma_obj_hit_ranges(
                        self.objects@[k as int],
                        ray,
                        gmin,
                        old_closest as int,
                        gmax,
                    );
                    assert(obj_hits(self.objects@[k as int], ray, gmin, gmax));
                    assert forall|i: int|
                        0 <= i < k + 1 && obj_hits(#[trigger] self.objects@[i], ray, gmin, gmax)
                            implies closest_so_far as int <= obj_t(
                        self.objects@[i],
                        ray,
                        gmin,
                    ) by {
                        if i < k {
                            if old_result is Some {
                                let oh = old_result.unwrap();
                                assert(oh.t <= obj_t(self.objects@[i], ray, gmin));
                            }
                        }
                    }
                }
            } else {
                proof {
                    lemma_obj_hit_ranges(
                        self.objects@[k as int],
                        ray,
                        gmin,
                        closest_so_far as int,
                        gmax,
                    );
                    if obj_hits(self.objects@[k as int], ray, gmin, gmax) {
                        // Rejected only because the range had shrunk: its
                        // parameter is no better than the best found.
                        assert(obj_t(self.objects@[k as int], ray, gmin) >= closest_so_far);
                        assert(result is Some);
                    }
                }
            }
            k = k + 1;
        }
        result
    }

    /// The union of the members' boxes, as maintained by `add`.
    pub fn bounding_box(&self) -> (r: Aabb)
        ensures
            r == self.bbox,
    {
        self.bbox
    }
}

impl Clone for Hittable {
    fn clone(&self) -> (r: Self)
        ensures
            r == *self,
    {
        match self {
            Hittable::Sphere(s) => Hittable::Sphere(s.clone()),
            Hittable::MovingSphere(m) => Hittable::MovingSphere(m.clone()),
        }
    }
}

} // verus!
