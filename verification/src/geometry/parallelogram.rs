//! Parallelograms: bounded planar patches.

use vstd::prelude::*;
use crate::fixed::{
    div_trunc, lemma_sabs_mul, sabs, scaled_div_capped, smax, smin, SCALE,
};
use crate::geometry::aa_box::AABoxGeometry;
use crate::geometry::{MAX_COORD, T_MAX};
use crate::ray::Ray;
use crate::vector::{
    bounded3, det3, lemma_sv_cross_bound, sp_det3, sv_cross, sv_neg, sv_normalize, sv_sub,
    Vector3, V3,
};
use vstd::arithmetic::div_mod::lemma_div_pos_is_pos;

verus! {

/// A parallelogram: a corner and the two edge vectors spanning the patch.
#[derive(Clone, Copy, Debug)]
pub struct ParallelogramGeometry {
    pub origin: Vector3,
    pub a: Vector3,
    pub b: Vector3,
}

/// Well-formed: corner and edges within scene bounds.
pub open spec fn wf_parallelogram(p: ParallelogramGeometry) -> bool {
    bounded3(p.origin@, MAX_COORD as int) && bounded3(p.a@, MAX_COORD as int) && bounded3(
        p.b@,
        MAX_COORD as int,
    )
}

/// The hit parameter of a ray against a parallelogram.
///
/// The same linear-system technique as for the triangle, over the patch's
/// two edges, but only `u` and `v` are constrained to `[0, 1]` (no third
/// barycentric condition).  Boundaries are inclusive.
pub open spec fn sp_parallelogram_hit(p: ParallelogramGeometry, ray: Ray) -> Option<int> {
    let m: V3 = sv_neg(ray.direction@);
    let rhs: V3 = sv_sub(ray.origin@, p.origin@);
    let det: int = sp_det3(p.a@, p.b@, m);
    if det == 0 {
        None
    } else {
        let nu: int = if det < 0 {
            -sp_det3(rhs, p.b@, m)
        } else {
            sp_det3(rhs, p.b@, m)
        };
        let nv: int = if det < 0 {
            -sp_det3(p.a@, rhs, m)
        } else {
            sp_det3(p.a@, rhs, m)
        };
        let nt: int = if det < 0 {
            -sp_det3(p.a@, p.b@, rhs)
        } else {
            sp_det3(p.a@, p.b@, rhs)
        };
        let da: int = sabs(det);
        if 0 <= nu && nu <= da && 0 <= nv && nv <= da && nt >= 0 {
            if div_trunc(sp_det3(p.a@, p.b@, rhs) * (SCALE as int), det) <= T_MAX as int {
                Some(div_trunc(sp_det3(p.a@, p.b@, rhs) * (SCALE as int), det))
            } else {
                None
            }
        } else {
            None
        }
    }
}

/// The centroid of the patch, each axis truncated toward zero.
pub open spec fn sp_parallelogram_center(p: ParallelogramGeometry) -> V3 {
    V3 {
        x: p.origin@.x + div_trunc(p.a@.x + p.b@.x, 2),
        y: p.origin@.y + div_trunc(p.a@.y + p.b@.y, 2),
        z: p.origin@.z + div_trunc(p.a@.z + p.b@.z, 2),
    }
}

impl ParallelogramGeometry {
    /// The centroid: the corner moved by half of each edge.
    pub fn center(&self) -> (r: Vector3)
        requires
            wf_parallelogram(*self),
        ensures
            r@ == sp_parallelogram_center(*self),
    {
        Vector3::new(
            self.origin.x + crate::fixed::fp_div_int(self.a.x + self.b.x, 2),
            self.origin.y + crate::fixed::fp_div_int(self.a.y + self.b.y, 2),
            self.origin.z + crate::fixed::fp_div_int(self.a.z + self.b.z, 2),
        )
    }

    /// The unit normal of the patch's plane: the normalized cross product of
    /// its two edges, the same at every surface point.
    pub fn normal_at(&self, _point: &Vector3) -> (r: Vector3)
        requires
            wf_parallelogram(*self),
        ensures
            r@ == sv_normalize(sv_cross(self.a@, self.b@)),
            bounded3(r@, SCALE as int),
    {
        proof {
            lemma_sv_cross_bound(self.a@, self.b@, MAX_COORD as int, MAX_COORD as int);
        }
        self.a.cross(&self.b).normalize()
    }

    /// The smallest nonnegative hit parameter, if the ray meets the patch
    /// (boundary included).
    pub fn intersection(&self, ray: &Ray) -> (r: Option<i64>)
        requires
            wf_parallelogram(*self),
            crate::ray::wf_ray(*ray),
            bounded3(ray.origin@, MAX_COORD as int),
        ensures
            match r {
                Some(t) => sp_parallelogram_hit(*self, *ray) == Some(t as int) && 0 <= t <= T_MAX,
                None => sp_parallelogram_hit(*self, *ray) is None,
            },
    {
        let m: Vector3 = ray.direction().neg();
        let rhs: Vector3 = ray.origin.sub(&self.origin);
        let det: i128 = det3(&self.a, &self.b, &m);
        if det == 0 {
            return None;
        }
        let du: i128 = det3(&rhs, &self.b, &m);
        let dv: i128 = det3(&self.a, &rhs, &m);
        let dt: i128 = det3(&self.a, &self.b, &rhs);
        let dneg: bool = det < 0;
        let nu: i128 = if dneg {
            -du
        } else {
            du
        };
        let nv: i128 = if dneg {
            -dv
        } else {
            dv
        };
        let nt: i128 = if dneg {
            -dt
        } else {
            dt
        };
        let da: i128 = if dneg {
            -det
        } else {
            det
        };
        if !(0 <= nu && nu <= da && 0 <= nv && nv <= da && nt >= 0) {
            return None;
        }
        proof {
            lemma_sabs_mul(dt as int, SCALE as int);
            assert((dt < 0) == ((dt as int) * (SCALE as int) < 0)) by (nonlinear_arith)
                requires
                    SCALE as int > 0,
            ;
            lemma_div_pos_is_pos(sabs((dt as int) * (SCALE as int)), sabs(det as int));
        }
        scaled_div_capped(dt, det, T_MAX)
    }

    /// The smallest axis-aligned box enclosing the patch: the per-axis
    /// extremes of its four corners.
    pub fn aabb(&self) -> (r: AABoxGeometry)
        requires
            wf_parallelogram(*self),
        ensures
            r.min@.x == smin(smin(self.origin@.x, self.origin@.x + self.a@.x), smin(self.origin@.x + self.b@.x, self.origin@.x + self.a@.x + self.b@.x)),
            r.min@.y == smin(smin(self.origin@.y, self.origin@.y + self.a@.y), smin(self.origin@.y + self.b@.y, self.origin@.y + self.a@.y + self.b@.y)),
            r.min@.z == smin(smin(self.origin@.z, self.origin@.z + self.a@.z), smin(self.origin@.z + self.b@.z, self.origin@.z + self.a@.z + self.b@.z)),
            r.max@.x == smax(smax(self.origin@.x, self.origin@.x + self.a@.x), smax(self.origin@.x + self.b@.x, self.origin@.x + self.a@.x + self.b@.x)),
            r.max@.y == smax(smax(self.origin@.y, self.origin@.y + self.a@.y), smax(self.origin@.y + self.b@.y, self.origin@.y + self.a@.y + self.b@.y)),
            r.max@.z == smax(smax(self.origin@.z, self.origin@.z + self.a@.z), smax(self.origin@.z + self.b@.z, self.origin@.z + self.a@.z + self.b@.z)),
    {
        let c1: Vector3 = self.origin;
        let c2: Vector3 = self.origin.add(&self.a);
        let c3: Vector3 = self.origin.add(&self.b);
        let c4: Vector3 = c2.add(&self.b);
        AABoxGeometry {
            min: Vector3::new(
                min4(c1.x, c2.x, c3.x, c4.x),
                min4(c1.y, c2.y, c3.y, c4.y),
                min4(c1.z, c2.z, c3.z, c4.z),
            ),
            max: Vector3::new(
                max4(c1.x, c2.x, c3.x, c4.x),
                max4(c1.y, c2.y, c3.y, c4.y),
                max4(c1.z, c2.z, c3.z, c4.z),
            ),
        }
    }
}

/// The smallest of four values.
fn min4(a: i64, b: i64, c: i64, d: i64) -> (r: i64)
    ensures
        r == smin(smin(a as int, b as int), smin(c as int, d as int)),
{
    let ab: i64 = if a <= b {
        a
    } else {
        b
    };
    let cd: i64 = if c <= d {
        c
    } else {
        d
    };
    if ab <= cd {
        ab
    } else {
        cd
    }
}

/// The largest of four values.
fn max4(a: i64, b: i64, c: i64, d: i64) -> (r: i64)
    ensures
        r == smax(smax(a as int, b as int), smax(c as int, d as int)),
{
    let ab: i64 = if a >= b {
        a
    } else {
        b
    };
    let cd: i64 = if c >= d {
        c
    } else {
        d
    };
    if ab >= cd {
        ab
    } else {
        cd
    }
}

} // verus!
