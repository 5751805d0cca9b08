//! Rays: a parametric line `origin + (t / T_ONE) * direction`, optionally
//! stamped with a time value for motion sampling.

use crate::vec3::{Point3, Vec3};
use crate::{DIR_LIMIT, ORG_LIMIT, T_LIMIT, T_ONE};
use vstd::prelude::*;

verus! {

#[derive(Clone, Copy, PartialEq, Eq, Structural, Debug)]
pub struct Ray {
    pub origin: Point3,
    pub direction: Vec3,
    pub tm: i64,
}

/// The point reached at parameter `t` (on the `S_ONE` scale), exactly as the
/// executable code computes it: componentwise `origin + (t * direction) / T_ONE`
/// with floor division.
pub open spec fn ray_at(r: Ray, t: int) -> (int, int, int) {
    (
        r.origin.x + (r.direction.x * t) / (T_ONE as int),
        r.origin.y + (r.direction.y * t) / (T_ONE as int),
        r.origin.z + (r.direction.z * t) / (T_ONE as int),
    )
}

impl Ray {
    /// The components a ray must keep to so that all geometric arithmetic
    /// stays exact: bounded origin, direction and time stamp.
    pub open spec fn wf(self) -> bool {
        &&& self.origin.in_bounds(ORG_LIMIT as int)
        &&& self.direction.in_bounds(DIR_LIMIT as int)
        &&& -T_LIMIT <= self.tm <= T_LIMIT
    }

    /// A ray at time zero.
    pub fn new(origin: Point3, direction: Vec3) -> (r: Ray)
        ensures
            r == (Ray { origin, direction, tm: 0i64 }),
    {
        Ray { origin, direction, tm: 0 }
    }

    /// A ray stamped with a time value.
    pub fn timed(origin: Point3, direction: Vec3, time: i64) -> (r: Ray)
        ensures
            r == (Ray { origin, direction, tm: time }),
    {
        Ray { origin, direction, tm: time }
    }

    pub fn origin(&self) -> (r: Point3)
        ensures
            r == self.origin,
    {
        self.origin
    }

    pub fn direction(&self) -> (r: Vec3)
        ensures
            r == self.direction,
    {
        self.direction
    }

    pub fn time(&self) -> (r: i64)
        ensures
            r == self.tm,
    {
        self.tm
    }

    /// The point reached at parameter `t`.
    pub fn at(&self, t: i64) -> (r: Point3)
        requires
            self.wf(),
            -T_LIMIT - 2 <= t <= T_LIMIT + 2,
        ensures
            (r.x as int, r.y as int, r.z as int) == ray_at(*self, t as int),
            r.in_bounds(0xB_0000_0000),
    {
        proof {
            crate::vec3::lemma_prod_bound2(self.direction.x as int, t as int, DIR_LIMIT as int, T_LIMIT as int + 2);
            crate::vec3::lemma_prod_bound2(self.direction.y as int, t as int, DIR_LIMIT as int, T_LIMIT as int + 2);
            crate::vec3::lemma_prod_bound2(self.direction.z as int, t as int, DIR_LIMIT as int, T_LIMIT as int + 2);
        }
        let step = self.direction.scale_div(t, T_ONE);
        proof {
            crate::vec3::lemma_div_bound_multiple(self.direction.x as int * t as int, T_ONE as int, 0x8_0001_0000);
            crate::vec3::lemma_div_bound_multiple(self.direction.y as int * t as int, T_ONE as int, 0x8_0001_0000);
            crate::vec3::lemma_div_bound_multiple(self.direction.z as int * t as int, T_ONE as int, 0x8_0001_0000);
        }
        self.origin.add(step)
    }
}

} // verus!
