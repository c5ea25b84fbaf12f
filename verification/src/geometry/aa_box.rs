//! Axis-aligned boxes.

use vstd::prelude::*;
use crate::fixed::{div_trunc, fdiv, fp_div, lemma_fdiv_fits, sabs, smax, smin, SCALE};
use crate::geometry::{MAX_COORD, T_MAX};
use crate::ray::Ray;
use crate::vector::{bounded3, Vector3, V3};

verus! {

/// An axis-aligned box, given by its two extreme corners.
#[derive(Clone, Copy, Debug)]
pub struct AABoxGeometry {
    pub min: Vector3,
    pub max: Vector3,
}

/// Well-formed: both corners within scene bounds, ordered per axis.
pub open spec fn wf_aa_box(b: AABoxGeometry) -> bool {
    bounded3(b.min@, MAX_COORD as int) && bounded3(b.max@, MAX_COORD as int)
        && b.min@.x <= b.max@.x && b.min@.y <= b.max@.y && b.min@.z <= b.max@.z
}

/// An axis lets the ray through when the direction component is nonzero or
/// the origin already lies between the slab's two planes.  A ray running
/// parallel to a slab it starts outside of can never enter the box.
pub open spec fn slab_admits(mn: int, mx: int, o: int, d: int) -> bool {
    d != 0 || (mn <= o && o <= mx)
}

/// The entry parameter of one axis' slab; unbounded (the smallest value)
/// when the axis is unconstrained.
pub open spec fn slab_lo(mn: int, mx: int, o: int, d: int) -> int {
    if d == 0 {
        i64::MIN as int
    } else {
        smin(fdiv(mn - o, d), fdiv(mx - o, d))
    }
}

/// The exit parameter of one axis' slab; unbounded (the largest value) when
/// the axis is unconstrained.
pub open spec fn slab_hi(mn: int, mx: int, o: int, d: int) -> int {
    if d == 0 {
        i64::MAX as int
    } else {
        smax(fdiv(mn - o, d), fdiv(mx - o, d))
    }
}

/// The hit parameter of a ray against an axis-aligned box: the classic slab
/// method.  Per axis the entry and exit parameters are computed (an axis
/// with a zero direction component constrains nothing when the origin lies
/// inside its slab, and misses outright when it does not — the explicit
/// guard that floating-point division by zero would have blurred); the
/// overall entry is the largest entry, the overall exit the smallest exit.
/// No hit when the exit lies behind the origin or before the entry; from
/// inside the box the exit is returned, otherwise the entry.  A degenerate
/// (zero) direction never hits: every axis is then unconstrained and the
/// unbounded exit is past every representable distance.
pub open spec fn sp_aabox_hit(b: AABoxGeometry, ray: Ray) -> Option<int> {
    if !slab_admits(b.min@.x, b.max@.x, ray.origin@.x, ray.direction@.x) || !slab_admits(
        b.min@.y,
        b.max@.y,
        ray.origin@.y,
        ray.direction@.y,
    ) || !slab_admits(b.min@.z, b.max@.z, ray.origin@.z, ray.direction@.z) {
        None
    } else {
        let tmin: int = smax(
            smax(
                slab_lo(b.min@.x, b.max@.x, ray.origin@.x, ray.direction@.x),
                slab_lo(b.min@.y, b.max@.y, ray.origin@.y, ray.direction@.y),
            ),
            slab_lo(b.min@.z, b.max@.z, ray.origin@.z, ray.direction@.z),
        );
        let tmax: int = smin(
            smin(
                slab_hi(b.min@.x, b.max@.x, ray.origin@.x, ray.direction@.x),
                slab_hi(b.min@.y, b.max@.y, ray.origin@.y, ray.direction@.y),
            ),
            slab_hi(b.min@.z, b.max@.z, ray.origin@.z, ray.direction@.z),
        );
        if tmax < 0 {
            None
        } else if tmin > tmax {
            None
        } else {
            if (if tmin < 0 {
                tmax
            } else {
                tmin
            }) <= T_MAX as int {
                Some(
                    if tmin < 0 {
                        tmax
                    } else {
                        tmin
                    },
                )
            } else {
                None
            }
        }
    }
}

/// The face normal of the box at a point: the outward unit axis normal of
/// the face nearest the point, measured per axis; a tie (an edge, a corner,
/// or an equidistant interior point) goes to the first face in back/front,
/// below/above, left/right order.  For every point of the box's boundary
/// this is the outward unit normal of a face containing the point (see
/// [`lemma_aabox_normal_on_boundary`]), and the answer is always one of the
/// six unit axis vectors, so it never degenerates — also not for a query
/// that rounding has pushed a step off the surface.
pub open spec fn sp_aabox_normal(b: AABoxGeometry, p: V3) -> V3 {
    let dzm: int = sabs(p.z - b.min@.z);
    let dzp: int = sabs(p.z - b.max@.z);
    let dym: int = sabs(p.y - b.min@.y);
    let dyp: int = sabs(p.y - b.max@.y);
    let dxm: int = sabs(p.x - b.min@.x);
    let dxp: int = sabs(p.x - b.max@.x);
    let nearest: int = smin(smin(smin(dzm, dzp), smin(dym, dyp)), smin(dxm, dxp));
    if dzm == nearest {
        V3 { x: 0, y: 0, z: -(SCALE as int) }
    } else if dzp == nearest {
        V3 { x: 0, y: 0, z: SCALE as int }
    } else if dym == nearest {
        V3 { x: 0, y: -(SCALE as int), z: 0 }
    } else if dyp == nearest {
        V3 { x: 0, y: SCALE as int, z: 0 }
    } else if dxm == nearest {
        V3 { x: -(SCALE as int), y: 0, z: 0 }
    } else {
        V3 { x: SCALE as int, y: 0, z: 0 }
    }
}

/// The box's normal is a unit vector everywhere, and on the boundary it is
/// the outward unit axis normal of a face containing the point: whichever
/// coordinate of `p` sits on a face, the face the normal names is at
/// distance zero, so `p` lies on it.  Ties at edges and corners go in
/// back/front, below/above, left/right order.
pub proof fn lemma_aabox_normal_on_boundary(b: AABoxGeometry, p: V3)
    requires
        b.min@.x <= p.x <= b.max@.x,
        b.min@.y <= p.y <= b.max@.y,
        b.min@.z <= p.z <= b.max@.z,
        p.x == b.min@.x || p.x == b.max@.x || p.y == b.min@.y || p.y == b.max@.y || p.z
            == b.min@.z || p.z == b.max@.z,
    ensures
        ({
            let n: V3 = sp_aabox_normal(b, p);
            &&& crate::vector::sv_dot(n, n) == SCALE as int
            &&& (n == (V3 { x: 0, y: 0, z: -(SCALE as int) }) ==> p.z == b.min@.z)
            &&& (n == (V3 { x: 0, y: 0, z: SCALE as int }) ==> p.z == b.max@.z)
            &&& (n == (V3 { x: 0, y: -(SCALE as int), z: 0 }) ==> p.y == b.min@.y)
            &&& (n == (V3 { x: 0, y: SCALE as int, z: 0 }) ==> p.y == b.max@.y)
            &&& (n == (V3 { x: -(SCALE as int), y: 0, z: 0 }) ==> p.x == b.min@.x)
            &&& (n == (V3 { x: SCALE as int, y: 0, z: 0 }) ==> p.x == b.max@.x)
        }),
{
    lemma_aabox_normal_unit(b, p);
}

/// The box's normal is one of the six unit axis vectors for every query
/// point: its fixed-point dot product with itself is exactly one.
pub proof fn lemma_aabox_normal_unit(b: AABoxGeometry, p: V3)
    ensures
        crate::vector::sv_dot(sp_aabox_normal(b, p), sp_aabox_normal(b, p)) == SCALE as int,
{
    let n: V3 = sp_aabox_normal(b, p);
    assert((SCALE as int) * (SCALE as int) == 0x1_0000_0000) by (nonlinear_arith)
        requires
            SCALE as int == 0x1_0000,
    ;
    assert(crate::vector::sv_dot(n, n) == crate::fixed::div_trunc(0x1_0000_0000, SCALE as int));
}

/// The distance between two coordinates along one axis.
fn axis_dist(a: i64, b: i64) -> (r: i64)
    requires
        sabs(a as int - b as int) <= 0x40_0000_0000_0000,
    ensures
        r as int == sabs(a as int - b as int),
{
    if a >= b {
        a - b
    } else {
        b - a
    }
}

/// The slab parameters of one axis, or nothing when the axis rules the ray
/// out on its own.
fn slab(mn: i64, mx: i64, o: i64, d: i64) -> (r: Option<(i64, i64)>)
    requires
        sabs(mn as int) <= MAX_COORD as int,
        sabs(mx as int) <= MAX_COORD as int,
        sabs(o as int) <= MAX_COORD as int,
        sabs(d as int) <= SCALE as int,
    ensures
        match r {
            Some(lohi) => slab_admits(mn as int, mx as int, o as int, d as int) && lohi.0 as int
                == slab_lo(mn as int, mx as int, o as int, d as int) && lohi.1 as int == slab_hi(
                mn as int,
                mx as int,
                o as int,
                d as int,
            ),
            None => !slab_admits(mn as int, mx as int, o as int, d as int),
        },
{
    if d == 0 {
        if o < mn || o > mx {
            None
        } else {
            Some((i64::MIN, i64::MAX))
        }
    } else {
        proof {
            lemma_fdiv_fits((mn - o) as int, d as int, 2 * MAX_COORD as int);
            lemma_fdiv_fits((mx - o) as int, d as int, 2 * MAX_COORD as int);
        }
        let t1: i64 = fp_div(mn - o, d);
        let t2: i64 = fp_div(mx - o, d);
        if t1 <= t2 {
            Some((t1, t2))
        } else {
            Some((t2, t1))
        }
    }
}

impl AABoxGeometry {
    /// The centroid: the componentwise midpoint of the two corners.
    pub fn center(&self) -> (r: Vector3)
        requires
            wf_aa_box(*self),
        ensures
            r@.x == div_trunc(self.min@.x + self.max@.x, 2),
            r@.y == div_trunc(self.min@.y + self.max@.y, 2),
            r@.z == div_trunc(self.min@.z + self.max@.z, 2),
    {
        Vector3::new(
            crate::fixed::fp_div_int(self.min.x + self.max.x, 2),
            crate::fixed::fp_div_int(self.min.y + self.max.y, 2),
            crate::fixed::fp_div_int(self.min.z + self.max.z, 2),
        )
    }

    /// The outward unit axis normal of the face nearest the queried point;
    /// on the boundary, of a face containing the point.
    pub fn normal_at(&self, point: &Vector3) -> (r: Vector3)
        requires
            wf_aa_box(*self),
            bounded3(point@, crate::geometry::POINT_MAX as int),
        ensures
            r@ == sp_aabox_normal(*self, point@),
            bounded3(r@, SCALE as int),
    {
        let dzm: i64 = axis_dist(point.z, self.min.z);
        let dzp: i64 = axis_dist(point.z, self.max.z);
        let dym: i64 = axis_dist(point.y, self.min.y);
        let dyp: i64 = axis_dist(point.y, self.max.y);
        let dxm: i64 = axis_dist(point.x, self.min.x);
        let dxp: i64 = axis_dist(point.x, self.max.x);
        let mz: i64 = if dzm <= dzp {
            dzm
        } else {
            dzp
        };
        let my: i64 = if dym <= dyp {
            dym
        } else {
            dyp
        };
        let mx: i64 = if dxm <= dxp {
            dxm
        } else {
            dxp
        };
        let mzy: i64 = if mz <= my {
            mz
        } else {
            my
        };
        let nearest: i64 = if mzy <= mx {
            mzy
        } else {
            mx
        };
        if dzm == nearest {
            Vector3::new(0, 0, -SCALE)
        } else if dzp == nearest {
            Vector3::new(0, 0, SCALE)
        } else if dym == nearest {
            Vector3::new(0, -SCALE, 0)
        } else if dyp == nearest {
            Vector3::new(0, SCALE, 0)
        } else if dxm == nearest {
            Vector3::new(-SCALE, 0, 0)
        } else {
            Vector3::new(SCALE, 0, 0)
        }
    }

    /// The smallest nonnegative hit parameter, if the ray meets the box.
    pub fn intersection(&self, ray: &Ray) -> (r: Option<i64>)
        requires
            wf_aa_box(*self),
            crate::ray::wf_ray(*ray),
            bounded3(ray.origin@, MAX_COORD as int),
        ensures
            match r {
                Some(t) => sp_aabox_hit(*self, *ray) == Some(t as int) && 0 <= t <= T_MAX,
                None => sp_aabox_hit(*self, *ray) is None,
            },
    {
        let d: Vector3 = ray.direction();
        let sx: Option<(i64, i64)> = slab(self.min.x, self.max.x, ray.origin.x, d.x);
        let sy: Option<(i64, i64)> = slab(self.min.y, self.max.y, ray.origin.y, d.y);
        let sz: Option<(i64, i64)> = slab(self.min.z, self.max.z, ray.origin.z, d.z);
        let (lox, hix): (i64, i64) = match sx {
            Some(lohi) => lohi,
            None => {
                return None;
            },
        };
        let (loy, hiy): (i64, i64) = match sy {
            Some(lohi) => lohi,
            None => {
                return None;
            },
        };
        let (loz, hiz): (i64, i64) = match sz {
            Some(lohi) => lohi,
            None => {
                return None;
            },
        };
        let tmin_xy: i64 = if lox >= loy {
            lox
        } else {
            loy
        };
        let tmin: i64 = if tmin_xy >= loz {
            tmin_xy
        } else {
            loz
        };
        let tmax_xy: i64 = if hix <= hiy {
            hix
        } else {
            hiy
        };
        let tmax: i64 = if tmax_xy <= hiz {
            tmax_xy
        } else {
            hiz
        };
        if tmax < 0 {
            return None;
        }
        if tmin > tmax {
            return None;
        }
        let res: i64 = if tmin < 0 {
            tmax
        } else {
            tmin
        };
        if res > T_MAX {
            return None;
        }
        Some(res)
    }

    /// The smallest enclosing axis-aligned box of a box: itself.
    pub fn aabb(&self) -> (r: AABoxGeometry)
        ensures
            r == *self,
    {
        *self
    }
}

} // verus!
