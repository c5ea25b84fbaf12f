//! Geometric primitives: a closed sum type over five shapes, each exposing
//! intersection, surface-normal, centroid and bounding-box queries.

pub mod aa_box;
pub mod parallelogram;
pub mod plane;
pub mod sphere;
pub mod triangle;

use vstd::prelude::*;
use crate::fixed::{div_trunc, smax, smin, SCALE};
use crate::ray::{wf_ray, Ray};
use crate::vector::{bounded3, sv_cross, sv_normalize, sv_scale, sv_sub, Vector3, V3};

use aa_box::AABoxGeometry;
use parallelogram::ParallelogramGeometry;
use plane::PlaneGeometry;
use sphere::SphereGeometry;
use triangle::TriangleGeometry;

verus! {

/// Largest coordinate magnitude of a well-formed scene (32768 world units in
/// fixed point).  Keeps every intersection computation exact in `i64`.
pub const MAX_COORD: i64 = 0x8000_0000;

/// Farthest representable hit distance along a ray.  An intersection farther
/// than this reports a miss.
pub const T_MAX: i64 = 0x10_0000_0000;

/// Largest coordinate magnitude of a point reachable from a well-formed ray
/// within the representable hit distance.
pub const POINT_MAX: i64 = MAX_COORD + T_MAX;

/// A geometric primitive, dispatched by pattern match inside each operation.
#[derive(Clone, Copy, Debug)]
pub enum Geometry {
    AABox(AABoxGeometry),
    Sphere(SphereGeometry),
    Triangle(TriangleGeometry),
    Plane(PlaneGeometry),
    Parallelogram(ParallelogramGeometry),
}

/// A well-formed primitive: every defining coordinate within [`MAX_COORD`].
pub open spec fn wf_geometry(g: Geometry) -> bool {
    match g {
        Geometry::AABox(b) => aa_box::wf_aa_box(b),
        Geometry::Sphere(s) => sphere::wf_sphere(s),
        Geometry::Triangle(t) => triangle::wf_triangle(t),
        Geometry::Plane(p) => plane::wf_plane(p),
        Geometry::Parallelogram(p) => parallelogram::wf_parallelogram(p),
    }
}

/// The hit parameter of a ray against any primitive, by its variant's rule.
pub open spec fn sp_hit(g: Geometry, ray: Ray) -> Option<int> {
    match g {
        Geometry::AABox(b) => aa_box::sp_aabox_hit(b, ray),
        Geometry::Sphere(s) => sphere::sp_sphere_hit(s, ray),
        Geometry::Triangle(t) => triangle::sp_triangle_hit(t, ray),
        Geometry::Plane(p) => plane::sp_plane_hit(p, ray),
        Geometry::Parallelogram(p) => parallelogram::sp_parallelogram_hit(p, ray),
    }
}

/// The centroid of any primitive; for the unbounded plane, its point nearest
/// the world origin.
pub open spec fn sp_center(g: Geometry) -> V3 {
    match g {
        Geometry::AABox(b) => V3 {
            x: div_trunc(b.min@.x + b.max@.x, 2),
            y: div_trunc(b.min@.y + b.max@.y, 2),
            z: div_trunc(b.min@.z + b.max@.z, 2),
        },
        Geometry::Sphere(s) => s.center@,
        Geometry::Triangle(t) => triangle::sp_triangle_center(t),
        Geometry::Plane(p) => sv_scale(p.normal@, p.offset as int),
        Geometry::Parallelogram(p) => parallelogram::sp_parallelogram_center(p),
    }
}

/// The unit surface normal of any primitive at a point of its surface.
pub open spec fn sp_normal_at(g: Geometry, p: V3) -> V3 {
    match g {
        Geometry::AABox(b) => aa_box::sp_aabox_normal(b, p),
        Geometry::Sphere(s) => sv_normalize(sv_sub(p, s.center@)),
        Geometry::Triangle(t) => sv_normalize(sv_cross(sv_sub(t.b@, t.a@), sv_sub(t.c@, t.a@))),
        Geometry::Plane(pl) => pl.normal@,
        Geometry::Parallelogram(q) => sv_normalize(sv_cross(q.a@, q.b@)),
    }
}

/// The lower corner of the smallest enclosing axis-aligned box.
pub open spec fn sp_aabb_min(g: Geometry) -> V3 {
    match g {
        Geometry::AABox(b) => b.min@,
        Geometry::Sphere(s) => V3 {
            x: s.center@.x - s.radius as int,
            y: s.center@.y - s.radius as int,
            z: s.center@.z - s.radius as int,
        },
        Geometry::Triangle(t) => V3 {
            x: smin(smin(t.a@.x, t.b@.x), t.c@.x),
            y: smin(smin(t.a@.y, t.b@.y), t.c@.y),
            z: smin(smin(t.a@.z, t.b@.z), t.c@.z),
        },
        Geometry::Plane(_) => V3 {
            x: -(MAX_COORD as int),
            y: -(MAX_COORD as int),
            z: -(MAX_COORD as int),
        },
        Geometry::Parallelogram(p) => V3 {
            x: smin(smin(p.origin@.x, p.origin@.x + p.a@.x), smin(p.origin@.x + p.b@.x, p.origin@.x + p.a@.x + p.b@.x)),
            y: smin(smin(p.origin@.y, p.origin@.y + p.a@.y), smin(p.origin@.y + p.b@.y, p.origin@.y + p.a@.y + p.b@.y)),
            z: smin(smin(p.origin@.z, p.origin@.z + p.a@.z), smin(p.origin@.z + p.b@.z, p.origin@.z + p.a@.z + p.b@.z)),
        },
    }
}

/// The upper corner of the smallest enclosing axis-aligned box.
pub open spec fn sp_aabb_max(g: Geometry) -> V3 {
    match g {
        Geometry::AABox(b) => b.max@,
        Geometry::Sphere(s) => V3 {
            x: s.center@.x + s.radius as int,
            y: s.center@.y + s.radius as int,
            z: s.center@.z + s.radius as int,
        },
        Geometry::Triangle(t) => V3 {
            x: smax(smax(t.a@.x, t.b@.x), t.c@.x),
            y: smax(smax(t.a@.y, t.b@.y), t.c@.y),
            z: smax(smax(t.a@.z, t.b@.z), t.c@.z),
        },
        Geometry::Plane(_) => V3 { x: MAX_COORD as int, y: MAX_COORD as int, z: MAX_COORD as int },
        Geometry::Parallelogram(p) => V3 {
            x: smax(smax(p.origin@.x, p.origin@.x + p.a@.x), smax(p.origin@.x + p.b@.x, p.origin@.x + p.a@.x + p.b@.x)),
            y: smax(smax(p.origin@.y, p.origin@.y + p.a@.y), smax(p.origin@.y + p.b@.y, p.origin@.y + p.a@.y + p.b@.y)),
            z: smax(smax(p.origin@.z, p.origin@.z + p.a@.z), smax(p.origin@.z + p.b@.z, p.origin@.z + p.a@.z + p.b@.z)),
        },
    }
}

impl Geometry {
    /// The smallest nonnegative hit parameter of the ray against this
    /// primitive, or nothing when the ray misses it.
    pub fn intersection(&self, ray: &Ray) -> (r: Option<i64>)
        requires
            wf_geometry(*self),
            wf_ray(*ray),
            bounded3(ray.origin@, MAX_COORD as int),
        ensures
            match r {
                Some(t) => sp_hit(*self, *ray) == Some(t as int) && 0 <= t <= T_MAX,
                None => sp_hit(*self, *ray) is None,
            },
    {
        match self {
            Geometry::AABox(b) => b.intersection(ray),
            Geometry::Sphere(s) => s.intersection(ray),
            Geometry::Triangle(t) => t.intersection(ray),
            Geometry::Plane(p) => p.intersection(ray),
            Geometry::Parallelogram(p) => p.intersection(ray),
        }
    }

    /// The centroid of this primitive.
    pub fn center(&self) -> (r: Vector3)
        requires
            wf_geometry(*self),
        ensures
            r@ == sp_center(*self),
    {
        match self {
            Geometry::AABox(b) => b.center(),
            Geometry::Sphere(s) => s.center(),
            Geometry::Triangle(t) => t.center(),
            Geometry::Plane(p) => p.center(),
            Geometry::Parallelogram(p) => p.center(),
        }
    }

    /// The unit surface normal at a point of this primitive's surface.
    pub fn normal_at(&self, point: &Vector3) -> (r: Vector3)
        requires
            wf_geometry(*self),
            bounded3(point@, POINT_MAX as int),
        ensures
            r@ == sp_normal_at(*self, point@),
            bounded3(r@, SCALE as int),
    {
        match self {
            Geometry::AABox(b) => b.normal_at(point),
            Geometry::Sphere(s) => s.normal_at(point),
            Geometry::Triangle(t) => t.normal_at(point),
            Geometry::Plane(p) => p.normal_at(point),
            Geometry::Parallelogram(p) => p.normal_at(point),
        }
    }

    /// The smallest axis-aligned box enclosing this primitive.
    pub fn aabb(&self) -> (r: AABoxGeometry)
        requires
            wf_geometry(*self),
        ensures
            r.min@ == sp_aabb_min(*self),
            r.max@ == sp_aabb_max(*self),
    {
        match self {
            Geometry::AABox(b) => b.aabb(),
            Geometry::Sphere(s) => s.aabb(),
            Geometry::Triangle(t) => t.aabb(),
            Geometry::Plane(p) => p.aabb(),
            Geometry::Parallelogram(p) => p.aabb(),
        }
    }
}

/// Exposing a centroid.
pub trait Center {
    /// When the implementor is well formed enough to be queried.
    spec fn wf_for_center(&self) -> bool;

    /// The centroid the implementor reports, as a mathematical value.
    spec fn spec_center(&self) -> V3;

    /// The centroid.
    fn center(&self) -> (r: Vector3)
        requires
            self.wf_for_center(),
        ensures
            r@ == self.spec_center(),
    ;
}

impl Center for Geometry {
    open spec fn wf_for_center(&self) -> bool {
        wf_geometry(*self)
    }

    open spec fn spec_center(&self) -> V3 {
        sp_center(*self)
    }

    fn center(&self) -> (r: Vector3) {
        Geometry::center(self)
    }
}

/// Exposing a surface normal at a point.
pub trait NormalAt {
    /// When the implementor is well formed enough to be queried.
    spec fn wf_for_normal(&self) -> bool;

    /// The normal the implementor reports at a point, as a mathematical
    /// value.
    spec fn spec_normal_at(&self, p: V3) -> V3;

    /// The unit surface normal at a point of the surface.
    fn normal_at(&self, point: &Vector3) -> (r: Vector3)
        requires
            self.wf_for_normal(),
            bounded3(point@, POINT_MAX as int),
        ensures
            r@ == self.spec_normal_at(point@),
            bounded3(r@, SCALE as int),
    ;
}

impl NormalAt for Geometry {
    open spec fn wf_for_normal(&self) -> bool {
        wf_geometry(*self)
    }

    open spec fn spec_normal_at(&self, p: V3) -> V3 {
        sp_normal_at(*self, p)
    }

    fn normal_at(&self, point: &Vector3) -> (r: Vector3) {
        Geometry::normal_at(self, point)
    }
}

/// Exposing the smallest enclosing axis-aligned box.
pub trait AABB {
    /// When the implementor is well formed enough to be queried.
    spec fn wf_for_aabb(&self) -> bool;

    /// The lower corner of the box the implementor reports.
    spec fn spec_aabb_min(&self) -> V3;

    /// The upper corner of the box the implementor reports.
    spec fn spec_aabb_max(&self) -> V3;

    /// The smallest enclosing axis-aligned box.
    fn aabb(&self) -> (r: AABoxGeometry)
        requires
            self.wf_for_aabb(),
        ensures
            r.min@ == self.spec_aabb_min(),
            r.max@ == self.spec_aabb_max(),
    ;
}

impl AABB for Geometry {
    open spec fn wf_for_aabb(&self) -> bool {
        wf_geometry(*self)
    }

    open spec fn spec_aabb_min(&self) -> V3 {
        sp_aabb_min(*self)
    }

    open spec fn spec_aabb_max(&self) -> V3 {
        sp_aabb_max(*self)
    }

    fn aabb(&self) -> (r: AABoxGeometry) {
        Geometry::aabb(self)
    }
}

/// Resolving a ray parameter against a shape.
pub trait Intersection {
    /// When the implementor is well formed enough to be queried.
    spec fn wf_for_intersection(&self) -> bool;

    /// The hit the implementor reports, as a mathematical value.
    spec fn spec_intersection(&self, ray: &Ray) -> Option<int>;

    /// The smallest nonnegative hit parameter, or nothing on a miss.
    fn intersection(&self, ray: &Ray) -> (r: Option<i64>)
        requires
            self.wf_for_intersection(),
            wf_ray(*ray),
            bounded3(ray.origin@, MAX_COORD as int),
        ensures
            match r {
                Some(t) => self.spec_intersection(ray) == Some(t as int) && 0 <= t <= T_MAX,
                None => self.spec_intersection(ray) is None,
            },
    ;
}

impl Intersection for Geometry {
    open spec fn wf_for_intersection(&self) -> bool {
        wf_geometry(*self)
    }

    open spec fn spec_intersection(&self, ray: &Ray) -> Option<int> {
        sp_hit(*self, *ray)
    }

    fn intersection(&self, ray: &Ray) -> (r: Option<i64>) {
        Geometry::intersection(self, ray)
    }
}

} // verus!
