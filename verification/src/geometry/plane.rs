//! Infinite planes.

use vstd::prelude::*;
use crate::fixed::{fdiv, fp_div, sabs, SCALE};
use crate::geometry::{MAX_COORD, T_MAX};
use crate::ray::Ray;
use crate::vector::{bounded3, lemma_sv_dot_bound, sv_dot, Vector3};

verus! {

/// A plane: a unit normal, stored pre-normalized, and the signed distance of
/// the plane from the world origin along that normal.
#[derive(Clone, Copy, Debug)]
pub struct PlaneGeometry {
    pub normal: Vector3,
    pub offset: i64,
}

/// Well-formed: the normal is unit length (so each component is at most one)
/// and the offset lies within scene bounds.
pub open spec fn wf_plane(p: PlaneGeometry) -> bool {
    bounded3(p.normal@, SCALE as int) && sabs(p.offset as int) <= MAX_COORD as int
}

/// The hit parameter of a ray against a plane.
///
/// A hit is reported only when the ray travels toward the front face, that
/// is, when `normal . direction` is strictly negative; parallel or
/// back-facing rays yield no hit.  The parameter is
/// `(offset - normal . origin) / (normal . direction)`, and counts only when
/// it is nonnegative and within the representable hit distance.
pub open spec fn sp_plane_hit(p: PlaneGeometry, ray: Ray) -> Option<int> {
    if sv_dot(p.normal@, ray.direction@) >= 0 {
        None
    } else {
        if 0 <= fdiv(p.offset - sv_dot(p.normal@, ray.origin@), sv_dot(p.normal@, ray.direction@))
            <= T_MAX as int {
            Some(fdiv(p.offset - sv_dot(p.normal@, ray.origin@), sv_dot(p.normal@, ray.direction@)))
        } else {
            None
        }
    }
}

/// A ray that is parallel to a plane or faces its back side never hits it.
pub proof fn lemma_plane_front_face_only(p: PlaneGeometry, ray: Ray)
    requires
        sv_dot(p.normal@, ray.direction@) >= 0,
    ensures
        sp_plane_hit(p, ray) is None,
{
}

impl PlaneGeometry {
    /// The smallest nonnegative hit parameter, if the ray meets the front
    /// face within the representable distance.
    pub fn intersection(&self, ray: &Ray) -> (r: Option<i64>)
        requires
            wf_plane(*self),
            crate::ray::wf_ray(*ray),
            bounded3(ray.origin@, MAX_COORD as int),
        ensures
            match r {
                Some(t) => sp_plane_hit(*self, *ray) == Some(t as int) && 0 <= t <= T_MAX,
                None => sp_plane_hit(*self, *ray) is None,
            },
    {
        let d: Vector3 = ray.direction();
        proof {
            lemma_sv_dot_bound(self.normal@, d@, SCALE as int, SCALE as int);
            lemma_sv_dot_bound(self.normal@, ray.origin@, SCALE as int, MAX_COORD as int);
        }
        let par: i64 = self.normal.dot(&d);
        if par >= 0 {
            return None;
        }
        let num: i64 = self.offset - self.normal.dot(&ray.origin);
        proof {
            assert(sabs(num as int) * (SCALE as int) <= sabs(par as int) * (i64::MAX as int))
                by (nonlinear_arith)
                requires
                    sabs(num as int) <= 0x2_0000_0000,
                    sabs(par as int) >= 1,
                    SCALE == 65536,
            ;
        }
        let t: i64 = fp_div(num, par);
        if t < 0 {
            return None;
        }
        if t > T_MAX {
            return None;
        }
        Some(t)
    }

    /// The stored unit normal, independent of the queried point.
    pub fn normal_at(&self, _point: &Vector3) -> (r: Vector3)
        ensures
            r == self.normal,
    {
        self.normal
    }

    /// The plane's representative point: the point of the plane nearest the
    /// world origin, the normal scaled by the offset.
    pub fn center(&self) -> (r: Vector3)
        requires
            wf_plane(*self),
        ensures
            r@ == crate::vector::sv_scale(self.normal@, self.offset as int),
    {
        proof {
            crate::fixed::lemma_mul_abs_bound(
                self.normal@.x,
                self.offset as int,
                SCALE as int,
                MAX_COORD as int,
            );
            crate::fixed::lemma_mul_abs_bound(
                self.normal@.y,
                self.offset as int,
                SCALE as int,
                MAX_COORD as int,
            );
            crate::fixed::lemma_mul_abs_bound(
                self.normal@.z,
                self.offset as int,
                SCALE as int,
                MAX_COORD as int,
            );
        }
        self.normal.scale(self.offset)
    }

    /// A plane is unbounded; its declared bounding box is the whole
    /// well-formed scene.
    pub fn aabb(&self) -> (r: crate::geometry::aa_box::AABoxGeometry)
        ensures
            r.min@.x == -(MAX_COORD as int),
            r.min@.y == -(MAX_COORD as int),
            r.min@.z == -(MAX_COORD as int),
            r.max@.x == MAX_COORD as int,
            r.max@.y == MAX_COORD as int,
            r.max@.z == MAX_COORD as int,
    {
        crate::geometry::aa_box::AABoxGeometry {
            min: Vector3::new(-MAX_COORD, -MAX_COORD, -MAX_COORD),
            max: Vector3::new(MAX_COORD, MAX_COORD, MAX_COORD),
        }
    }
}

} // verus!
