//! Rays: an origin and a unit direction, fixed at construction.

use vstd::prelude::*;
use crate::fixed::{lemma_fmul_bound, sabs, SCALE};
use crate::geometry::{MAX_COORD, POINT_MAX, T_MAX};
use crate::vector::{bounded3, sv_add, sv_normalize, sv_scale, Vector3, V3};

verus! {

/// A half-line: an origin and a direction that [`Ray::new`] normalizes once,
/// at construction.
#[derive(Clone, Copy)]
pub struct Ray {
    pub origin: Vector3,
    pub direction: Vector3,
}

/// The direction came out of normalization, so each of its components is at
/// most one in fixed point.  Every ray built by [`Ray::new`] satisfies this.
pub open spec fn wf_ray(r: Ray) -> bool {
    bounded3(r.direction@, SCALE as int)
}

impl Ray {
    /// Builds a ray, normalizing the direction whatever its input magnitude.
    pub fn new(origin: Vector3, direction: Vector3) -> (r: Ray)
        requires
            bounded3(direction@, crate::vector::NORM_IN as int),
        ensures
            r.origin == origin,
            r.direction@ == sv_normalize(direction@),
            wf_ray(r),
    {
        Ray { origin, direction: direction.normalize() }
    }

    /// The (normalized) direction.
    pub fn direction(&self) -> (r: Vector3)
        ensures
            r == self.direction,
    {
        self.direction
    }

    /// The point `origin + direction * t` reached after parameter `t`.
    pub fn point_at(&self, t: i64) -> (r: Vector3)
        requires
            wf_ray(*self),
            bounded3(self.origin@, MAX_COORD as int),
            sabs(t as int) <= T_MAX as int,
        ensures
            r@ == sv_add(self.origin@, sv_scale(self.direction@, t as int)),
            bounded3(r@, POINT_MAX as int),
    {
        proof {
            crate::fixed::lemma_mul_abs_bound(
                self.direction@.x,
                t as int,
                SCALE as int,
                T_MAX as int,
            );
            crate::fixed::lemma_mul_abs_bound(
                self.direction@.y,
                t as int,
                SCALE as int,
                T_MAX as int,
            );
            crate::fixed::lemma_mul_abs_bound(
                self.direction@.z,
                t as int,
                SCALE as int,
                T_MAX as int,
            );
            lemma_fmul_bound(self.direction@.x, t as int, SCALE as int, T_MAX as int);
            lemma_fmul_bound(self.direction@.y, t as int, SCALE as int, T_MAX as int);
            lemma_fmul_bound(self.direction@.z, t as int, SCALE as int, T_MAX as int);
            vstd::arithmetic::div_mod::lemma_div_by_multiple(T_MAX as int, SCALE as int);
        }
        let scaled: Vector3 = self.direction.scale(t);
        self.origin.add(&scaled)
    }

    /// The smallest nonnegative parameter at which this ray meets the
    /// primitive's surface, or nothing when it misses.
    pub fn hits_at(&self, geometry: &crate::geometry::Geometry) -> (r: Option<i64>)
        requires
            crate::geometry::wf_geometry(*geometry),
            wf_ray(*self),
            bounded3(self.origin@, MAX_COORD as int),
        ensures
            match r {
                Some(t) => crate::geometry::sp_hit(*geometry, *self) == Some(t as int) && 0 <= t
                    <= T_MAX,
                None => crate::geometry::sp_hit(*geometry, *self) is None,
            },
    {
        geometry.intersection(self)
    }
}

/// The direction of any constructed ray has unit squared length within a
/// few rounding steps, whatever the magnitude of the input direction, as
/// long as that input was at least one unit long: [`Ray::new`] normalizes,
/// and normalization leaves the fixed-point dot product of the direction
/// with itself within `8` raw steps of one.
pub proof fn lemma_ray_unit_direction(r: Ray, v: V3)
    requires
        r.direction@ == sv_normalize(v),
        bounded3(v, crate::vector::NORM_IN as int),
        crate::vector::sv_norm2_raw(v) >= (SCALE as int) * (SCALE as int),
    ensures
        sabs(crate::vector::sv_dot(r.direction@, r.direction@) - SCALE as int) <= 8,
{
    crate::vector::lemma_normalize_unit_length(v);
}

} // verus!
