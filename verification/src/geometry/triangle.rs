//! Triangles.

use vstd::prelude::*;
use crate::fixed::{
    div_trunc, lemma_sabs_mul, sabs, scaled_div_capped, smax, smin, SCALE,
};
use crate::geometry::aa_box::AABoxGeometry;
use crate::geometry::{MAX_COORD, T_MAX};
use crate::ray::Ray;
use crate::vector::{
    bounded3, det3, lemma_sv_cross_bound, sp_det3, sv_cross, sv_neg, sv_normalize, sv_sub,
    Vector3, V3,
};
use vstd::arithmetic::div_mod::lemma_div_pos_is_pos;

verus! {

/// A triangle given by its three vertices.
#[derive(Clone, Copy, Debug)]
pub struct TriangleGeometry {
    pub a: Vector3,
    pub b: Vector3,
    pub c: Vector3,
}

/// Well-formed: every vertex within scene bounds.
pub open spec fn wf_triangle(t: TriangleGeometry) -> bool {
    bounded3(t.a@, MAX_COORD as int) && bounded3(t.b@, MAX_COORD as int) && bounded3(
        t.c@,
        MAX_COORD as int,
    )
}

/// The hit parameter of a ray against a triangle.
///
/// The linear system `[b - a, c - a, -direction] . [u, v, t] = origin - a`
/// is solved by determinants, so the barycentric tests are exact: with
/// `det` the system determinant and `du`, `dv`, `dt` the determinants with
/// the right-hand side substituted per column, `u = du / det` lies in
/// `[0, 1]` exactly when the sign-normalized `nu` lies in `[0, |det|]`, and
/// likewise for `v` and `w = 1 - u - v`.  Edges and vertices are inclusive.
/// A singular system (ray parallel to the triangle's plane) is a miss, as is
/// a patch behind the origin or past the representable hit distance.
pub open spec fn sp_triangle_hit(tr: TriangleGeometry, ray: Ray) -> Option<int> {
    let e1: V3 = sv_sub(tr.b@, tr.a@);
    let e2: V3 = sv_sub(tr.c@, tr.a@);
    let m: V3 = sv_neg(ray.direction@);
    let rhs: V3 = sv_sub(ray.origin@, tr.a@);
    let det: int = sp_det3(e1, e2, m);
    if det == 0 {
        None
    } else {
        let nu: int = if det < 0 {
            -sp_det3(rhs, e2, m)
        } else {
            sp_det3(rhs, e2, m)
        };
        let nv: int = if det < 0 {
            -sp_det3(e1, rhs, m)
        } else {
            sp_det3(e1, rhs, m)
        };
        let nt: int = if det < 0 {
            -sp_det3(e1, e2, rhs)
        } else {
            sp_det3(e1, e2, rhs)
        };
        let da: int = sabs(det);
        if 0 <= nu && nu <= da && 0 <= nv && nv <= da && 0 <= da - nu - nv && da - nu - nv <= da
            && nt >= 0 {
            if div_trunc(sp_det3(e1, e2, rhs) * (SCALE as int), det) <= T_MAX as int {
                Some(div_trunc(sp_det3(e1, e2, rhs) * (SCALE as int), det))
            } else {
                None
            }
        } else {
            None
        }
    }
}

/// The centroid of three vertices, each axis truncated toward zero.
pub open spec fn sp_triangle_center(t: TriangleGeometry) -> V3 {
    V3 {
        x: div_trunc(t.a@.x + t.b@.x + t.c@.x, 3),
        y: div_trunc(t.a@.y + t.b@.y + t.c@.y, 3),
        z: div_trunc(t.a@.z + t.b@.z + t.c@.z, 3),
    }
}

impl TriangleGeometry {
    /// The centroid: the componentwise average of the three vertices.
    pub fn center(&self) -> (r: Vector3)
        requires
            wf_triangle(*self),
        ensures
            r@ == sp_triangle_center(*self),
    {
        Vector3::new(
            crate::fixed::fp_div_int(self.a.x + self.b.x + self.c.x, 3),
            crate::fixed::fp_div_int(self.a.y + self.b.y + self.c.y, 3),
            crate::fixed::fp_div_int(self.a.z + self.b.z + self.c.z, 3),
        )
    }

    /// The unit normal of the triangle's plane: the normalized cross product
    /// of its two edge vectors, the same at every surface point.
    pub fn normal_at(&self, _point: &Vector3) -> (r: Vector3)
        requires
            wf_triangle(*self),
        ensures
            r@ == sv_normalize(sv_cross(sv_sub(self.b@, self.a@), sv_sub(self.c@, self.a@))),
            bounded3(r@, SCALE as int),
    {
        proof {
            lemma_sv_cross_bound(
                sv_sub(self.b@, self.a@),
                sv_sub(self.c@, self.a@),
                2 * MAX_COORD as int,
                2 * MAX_COORD as int,
            );
        }
        let e1: Vector3 = self.b.sub(&self.a);
        let e2: Vector3 = self.c.sub(&self.a);
        e1.cross(&e2).normalize()
    }

    /// The smallest nonnegative hit parameter, if the ray meets the triangle
    /// (edges and vertices included).
    pub fn intersection(&self, ray: &Ray) -> (r: Option<i64>)
        requires
            wf_triangle(*self),
            crate::ray::wf_ray(*ray),
            bounded3(ray.origin@, MAX_COORD as int),
        ensures
            match r {
                Some(t) => sp_triangle_hit(*self, *ray) == Some(t as int) && 0 <= t <= T_MAX,
                None => sp_triangle_hit(*self, *ray) is None,
            },
    {
        let e1: Vector3 = self.b.sub(&self.a);
        let e2: Vector3 = self.c.sub(&self.a);
        let m: Vector3 = ray.direction().neg();
        let rhs: Vector3 = ray.origin.sub(&self.a);
        let det: i128 = det3(&e1, &e2, &m);
        if det == 0 {
            return None;
        }
        let du: i128 = det3(&rhs, &e2, &m);
        let dv: i128 = det3(&e1, &rhs, &m);
        let dt: i128 = det3(&e1, &e2, &rhs);
        let dneg: bool = det < 0;
        let nu: i128 = if dneg {
            -du
        } else {
            du
        };
        let nv: i128 = if dneg {
            -dv
        } else {
            dv
        };
        let nt: i128 = if dneg {
            -dt
        } else {
            dt
        };
        let da: i128 = if dneg {
            -det
        } else {
            det
        };
        if !(0 <= nu && nu <= da && 0 <= nv && nv <= da && 0 <= da - nu - nv && da - nu - nv <= da
            && nt >= 0) {
            return None;
        }
        proof {
            lemma_sabs_mul(dt as int, SCALE as int);
            assert((dt < 0) == ((dt as int) * (SCALE as int) < 0)) by (nonlinear_arith)
                requires
                    SCALE as int > 0,
            ;
            lemma_div_pos_is_pos(sabs((dt as int) * (SCALE as int)), sabs(det as int));
        }
        scaled_div_capped(dt, det, T_MAX)
    }

    /// The smallest axis-aligned box enclosing the triangle: the per-axis
    /// extremes of its vertices.
    pub fn aabb(&self) -> (r: AABoxGeometry)
        requires
            wf_triangle(*self),
        ensures
            r.min@.x == smin(smin(self.a@.x, self.b@.x), self.c@.x),
            r.min@.y == smin(smin(self.a@.y, self.b@.y), self.c@.y),
            r.min@.z == smin(smin(self.a@.z, self.b@.z), self.c@.z),
            r.max@.x == smax(smax(self.a@.x, self.b@.x), self.c@.x),
            r.max@.y == smax(smax(self.a@.y, self.b@.y), self.c@.y),
            r.max@.z == smax(smax(self.a@.z, self.b@.z), self.c@.z),
    {
        AABoxGeometry {
            min: Vector3::new(
                min3(self.a.x, self.b.x, self.c.x),
                min3(self.a.y, self.b.y, self.c.y),
                min3(self.a.z, self.b.z, self.c.z),
            ),
            max: Vector3::new(
                max3(self.a.x, self.b.x, self.c.x),
                max3(self.a.y, self.b.y, self.c.y),
                max3(self.a.z, self.b.z, self.c.z),
            ),
        }
    }
}

/// The smallest of three values.
fn min3(a: i64, b: i64, c: i64) -> (r: i64)
    ensures
        r == smin(smin(a as int, b as int), c as int),
{
    let ab: i64 = if a <= b {
        a
    } else {
        b
    };
    if ab <= c {
        ab
    } else {
        c
    }
}

/// The largest of three values.
fn max3(a: i64, b: i64, c: i64) -> (r: i64)
    ensures
        r == smax(smax(a as int, b as int), c as int),
{
    let ab: i64 = if a >= b {
        a
    } else {
        b
    };
    if ab >= c {
        ab
    } else {
        c
    }
}

} // verus!
