//! A sphere whose center moves linearly across an explicit time window.

use crate::aabb::{Aabb, Interval};
use crate::material::Material;
use crate::ray::Ray;
use crate::sphere::{
    quad_a, quad_disc, quad_hb, sphere_hit_core, sphere_hits, sphere_root_floor,
};
use crate::vec3::{len2, Point3, Vec3};
use crate::{CEN_LIMIT, T_LIMIT, T_ONE};
use vstd::prelude::*;

verus! {

/// A sphere moving from `center0` at `time0` to `center1` at `time1`, with
/// a cached box containing it across the whole window.
pub struct MovingSphere {
    pub center0: Point3,
    pub center1: Point3,
    pub time0: i64,
    pub time1: i64,
    pub radius: i64,
    pub material: Material,
    pub bbox: Aabb,
}

/// The interpolated center at ray time `t`:
/// `center0 + ((t - time0) / (time1 - time0)) * (center1 - center0)`.
pub open spec fn msphere_center_at(m: MovingSphere, t: int) -> (int, int, int) {
    (
        m.center0.x + ((m.center1.x - m.center0.x) * (t - m.time0)) / (m.time1 - m.time0),
        m.center0.y + ((m.center1.y - m.center0.y) * (t - m.time0)) / (m.time1 - m.time0),
        m.center0.z + ((m.center1.z - m.center0.z) * (t - m.time0)) / (m.time1 - m.time0),
    )
}

/// Whether the moving sphere is hit by the ray within `[tmin, tmax]`.
pub open spec fn m_hits(m: MovingSphere, ray: Ray, tmin: int, tmax: int) -> bool {
    let c = msphere_center_at(m, ray.tm as int);
    sphere_hits(
        quad_a(ray),
        quad_hb(ray, c.0, c.1, c.2),
        quad_disc(ray, c.0, c.1, c.2, m.radius as int),
        tmin,
        tmax,
    )
}

/// The reported (floored) hit parameter of the moving sphere.
pub open spec fn m_root(m: MovingSphere, ray: Ray, tmin: int) -> int {
    let c = msphere_center_at(m, ray.tm as int);
    sphere_root_floor(
        quad_a(ray),
        quad_hb(ray, c.0, c.1, c.2),
        quad_disc(ray, c.0, c.1, c.2, m.radius as int),
        tmin,
    )
}

/// What a hit record reported by the moving sphere holds.
pub open spec fn m_record(m: MovingSphere, ray: Ray, tmin: int, h: crate::hit::Hit) -> bool {
    let c = msphere_center_at(m, ray.tm as int);
    let t = m_root(m, ray, tmin);
    let nx = ((h.p.x - c.0) * T_ONE) / (m.radius as int);
    let ny = ((h.p.y - c.1) * T_ONE) / (m.radius as int);
    let nz = ((h.p.z - c.2) * T_ONE) / (m.radius as int);
    let ff = ray.direction.x * nx + ray.direction.y * ny + ray.direction.z * nz < 0;
    &&& h.t == t
    &&& (h.p.x as int, h.p.y as int, h.p.z as int) == crate::ray::ray_at(ray, t)
    &&& h.u == 0 && h.v == 0
    &&& h.front_face == ff
    &&& if ff {
        (h.normal.x as int, h.normal.y as int, h.normal.z as int) == (nx, ny, nz)
    } else {
        (h.normal.x as int, h.normal.y as int, h.normal.z as int) == (-nx, -ny, -nz)
    }
}

impl MovingSphere {
    /// Valid data: bounded centers, an increasing bounded time window, a
    /// speed of at most eight units per unit of time, and the cached box.
    pub open spec fn wf(self) -> bool {
        &&& self.center0.in_bounds(CEN_LIMIT as int)
        &&& self.center1.in_bounds(CEN_LIMIT as int)
        &&& -T_LIMIT <= self.time0 < self.time1 <= T_LIMIT
        &&& -8 * (self.time1 - self.time0) <= self.center1.x - self.center0.x <= 8 * (self.time1
            - self.time0)
        &&& -8 * (self.time1 - self.time0) <= self.center1.y - self.center0.y <= 8 * (self.time1
            - self.time0)
        &&& -8 * (self.time1 - self.time0) <= self.center1.z - self.center0.z <= 8 * (self.time1
            - self.time0)
        &&& 1 <= self.radius <= CEN_LIMIT
        &&& crate::material::mat_wf(self.material)
        &&& self.bbox.x.minimum == (if self.center0.x <= self.center1.x {
            self.center0.x
        } else {
            self.center1.x
        }) - self.radius
        &&& self.bbox.x.maximum == (if self.center0.x >= self.center1.x {
            self.center0.x
        } else {
            self.center1.x
        }) + self.radius
        &&& self.bbox.y.minimum == (if self.center0.y <= self.center1.y {
            self.center0.y
        } else {
            self.center1.y
        }) - self.radius
        &&& self.bbox.y.maximum == (if self.center0.y >= self.center1.y {
            self.center0.y
        } else {
            self.center1.y
        }) + self.radius
        &&& self.bbox.z.minimum == (if self.center0.z <= self.center1.z {
            self.center0.z
        } else {
            self.center1.z
        }) - self.radius
        &&& self.bbox.z.maximum == (if self.center0.z >= self.center1.z {
            self.center0.z
        } else {
            self.center1.z
        }) + self.radius
    }

    /// A sphere moving from `center0` at `time0` to `center1` at `time1`.
    pub fn new(
        center0: Point3,
        center1: Point3,
        time0: i64,
        time1: i64,
        radius: i64,
        material: Material,
    ) -> (r: MovingSphere)
        requires
            center0.in_bounds(CEN_LIMIT as int),
            center1.in_bounds(CEN_LIMIT as int),
            -T_LIMIT <= time0 < time1 <= T_LIMIT,
            -8 * (time1 - time0) <= center1.x - center0.x <= 8 * (time1 - time0),
            -8 * (time1 - time0) <= center1.y - center0.y <= 8 * (time1 - time0),
            -8 * (time1 - time0) <= center1.z - center0.z <= 8 * (time1 - time0),
            1 <= radius <= CEN_LIMIT,
            crate::material::mat_wf(material),
        ensures
            r.wf(),
            r.center0 == center0,
            r.center1 == center1,
            r.time0 == time0,
            r.time1 == time1,
            r.radius == radius,
            r.material == material,
    {
        let rvec = Vec3 { x: radius, y: radius, z: radius };
        let box0 = Aabb::from_extremum(center0.sub(rvec), center0.add(rvec));
        let box1 = Aabb::from_extremum(center1.sub(rvec), center1.add(rvec));
        MovingSphere {
            center0,
            center1,
            time0,
            time1,
            radius,
            material,
            bbox: Aabb::surrounding(&box0, &box1),
        }
    }

    /// The interpolated center at a time value.
    pub fn center(&self, time: i64) -> (r: Point3)
        requires
            self.wf(),
            -T_LIMIT <= time <= T_LIMIT,
        ensures
            (r.x as int, r.y as int, r.z as int) == msphere_center_at(*self, time as int),
            r.in_bounds(0x5_0000_0000),
    {
        let diff = self.center1.sub(self.center0);
        let dt = time - self.time0;
        let el = self.time1 - self.time0;
        proof {
            // |diff * dt| <= 8 * el * 2^31 == el * 2^34.
            assert(-(el as int) * 0x4_0000_0000 <= diff.x as int * dt as int <= (el as int)
                * 0x4_0000_0000 && -(el as int) * 0x4_0000_0000 <= diff.y as int * dt as int <= (
            el as int) * 0x4_0000_0000 && -(el as int) * 0x4_0000_0000 <= diff.z as int
                * dt as int <= (el as int) * 0x4_0000_0000) by (nonlinear_arith)
                requires
                    -8 * (el as int) <= diff.x as int <= 8 * (el as int),
                    -8 * (el as int) <= diff.y as int <= 8 * (el as int),
                    -8 * (el as int) <= diff.z as int <= 8 * (el as int),
                    -0x8000_0000 <= dt as int <= 0x8000_0000,
                    1 <= el,
            ;
            assert((el as int) * 0x4_0000_0000 <= (el as int) * 0x4000_0000_0000_0000)
                by (nonlinear_arith)
                requires
                    1 <= el,
            ;
        }
        let step = diff.scale_div(dt, el);
        proof {
            crate::vec3::lemma_div_bound_multiple(
                diff.x as int * dt as int,
                el as int,
                0x4_0000_0000,
            );
            crate::vec3::lemma_div_bound_multiple(
                diff.y as int * dt as int,
                el as int,
                0x4_0000_0000,
            );
            crate::vec3::lemma_div_bound_multiple(
                diff.z as int * dt as int,
                el as int,
                0x4_0000_0000,
            );
        }
        self.center0.add(step)
    }

    /// The cached bounding box: the union of the boxes at the two ends of
    /// the motion window.
    pub fn bounding_box(&self) -> (r: Aabb)
        ensures
            r == self.bbox,
    {
        self.bbox
    }

    /// The closest intersection with the ray inside the parameter range.
    pub fn hit<'a>(&'a self, ray: Ray, ray_t: Interval) -> (r: Option<crate::hit::Hit<'a>>)
        requires
            self.wf(),
            ray.wf(),
            len2(ray.direction) > 0,
            -T_LIMIT - 2 <= ray_t.minimum <= ray_t.maximum,
            ray_t.maximum <= T_LIMIT + 2,
        ensures
            r.is_some() == m_hits(*self, ray, ray_t.minimum as int, ray_t.maximum as int),
            r matches Some(h) ==> {
                &&& m_record(*self, ray, ray_t.minimum as int, h)
                &&& ray_t.minimum <= h.t <= ray_t.maximum
                &&& h.material == &self.material
            },
    {
        let center = self.center(ray.time());
        match sphere_hit_core(center, self.radius, &ray, ray_t.minimum, ray_t.maximum) {
            None => None,
            Some((t, p, n)) => Some(crate::hit::Hit::new(p, n, t, ray, &self.material)),
        }
    }
}

impl Clone for MovingSphere {
    fn clone(&self) -> (r: Self)
        ensures
            r == *self,
    {
        MovingSphere {
            center0: self.center0,
            center1: self.center1,
            time0: self.time0,
            time1: self.time1,
            radius: self.radius,
            material: self.material.clone(),
            bbox: self.bbox,
        }
    }
}

} // verus!
