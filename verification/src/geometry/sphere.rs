//! Spheres.

use vstd::prelude::*;
use crate::fixed::{fmul, fp_mul, fp_sqrt, fsqrt, lemma_fmul_bound, lemma_mul_abs_bound, sabs, SCALE};
use crate::geometry::aa_box::AABoxGeometry;
use crate::geometry::{MAX_COORD, POINT_MAX, T_MAX};
use crate::ray::Ray;
use crate::vector::{bounded3, lemma_sv_dot_bound, sv_dot, sv_normalize, sv_sub, Vector3, V3};

verus! {

/// A sphere: a center and a radius.
#[derive(Clone, Copy, Debug)]
pub struct SphereGeometry {
    pub center: Vector3,
    pub radius: i64,
}

/// Well-formed: center within scene bounds, radius nonnegative and bounded.
pub open spec fn wf_sphere(s: SphereGeometry) -> bool {
    bounded3(s.center@, MAX_COORD as int) && 0 <= s.radius <= MAX_COORD
}

/// The hit parameter of a ray against a sphere.
///
/// With the direction normalized the quadratic's leading coefficient is one:
/// for `u = origin - center`, `b = d . u` and `c = u . u - r * r`, the
/// discriminant is `b * b - c`.  A degenerate (zero) direction and a negative
/// discriminant are misses; a zero discriminant is a tangent touch at `-b`;
/// otherwise the nearer root `-b - sqrt(disc)` is taken, or the farther one
/// when the nearer lies behind the origin.  Only a nonnegative parameter, the
/// smallest one on the surface, counts as a hit.
pub open spec fn sp_sphere_hit(s: SphereGeometry, ray: Ray) -> Option<int> {
    if sv_dot(ray.direction@, ray.direction@) == 0 {
        None
    } else {
        let u: V3 = sv_sub(ray.origin@, s.center@);
        let b: int = sv_dot(ray.direction@, u);
        let c: int = sv_dot(u, u) - fmul(s.radius as int, s.radius as int);
        let disc: int = fmul(b, b) - c;
        if disc < 0 {
            None
        } else if disc == 0 {
            if -b >= 0 {
                Some(-b)
            } else {
                None
            }
        } else {
            if -b - fsqrt(disc) >= 0 {
                Some(-b - fsqrt(disc))
            } else if -b + fsqrt(disc) >= 0 {
                Some(-b + fsqrt(disc))
            } else {
                None
            }
        }
    }
}

/// The round trip from a reported sphere hit back to the surface, in the
/// squared form the integer model pins down exactly: every hit parameter `t`
/// solves the sphere's quadratic up to the rounding of one square root.
/// With `u`, `b` and `disc` as the intersection computes them, `(t + b)^2`
/// reaches `disc * SCALE` to within the two neighboring squares, so the
/// point at `t` sits on the sphere to within one rounding step of the
/// discriminant's root.
pub proof fn lemma_sphere_hit_on_surface(s: SphereGeometry, ray: Ray, t: int)
    requires
        sp_sphere_hit(s, ray) == Some(t),
    ensures
        ({
            let u: V3 = sv_sub(ray.origin@, s.center@);
            let b: int = sv_dot(ray.direction@, u);
            let disc: int = fmul(b, b) - (sv_dot(u, u) - fmul(s.radius as int, s.radius as int));
            (t + b) * (t + b) <= disc * (SCALE as int) && disc * (SCALE as int) < (sabs(t + b) + 1)
                * (sabs(t + b) + 1)
        }),
{
    let u: V3 = sv_sub(ray.origin@, s.center@);
    let b: int = sv_dot(ray.direction@, u);
    let disc: int = fmul(b, b) - (sv_dot(u, u) - fmul(s.radius as int, s.radius as int));
    if disc == 0 {
        assert(t == -b);
        assert((t + b) * (t + b) == 0) by (nonlinear_arith)
            requires
                t + b == 0,
        ;
        assert((sabs(t + b) + 1) * (sabs(t + b) + 1) == 1) by (nonlinear_arith)
            requires
                sabs(t + b) == 0,
        ;
    } else {
        let sq: int = fsqrt(disc);
        crate::fixed::lemma_sqrt_floor_bounds((disc * (SCALE as int)) as nat);
        assert(sq * sq <= disc * (SCALE as int));
        assert(disc * (SCALE as int) < (sq + 1) * (sq + 1));
        assert(t == -b - sq || t == -b + sq);
        assert((t + b) * (t + b) == sq * sq) by (nonlinear_arith)
            requires
                t + b == -sq || t + b == sq,
        ;
        assert(sabs(t + b) == sq);
    }
}

/// One squared component of the hit point's offset from the center, with
/// every truncation made explicit: for `f` the scaled direction component
/// and `rho` its rounding remainder, `SCALE^2 * (u + f)^2` expands over the
/// exact products of the inputs.
proof fn lemma_round_trip_component(sc: int, u: int, d: int, t: int, f: int, rho: int)
    requires
        sc >= 1,
        d * t == sc * f + rho,
    ensures
        sc * sc * ((u + f) * (u + f)) == sc * sc * (u * u) + 2 * (sc * ((d * u) * t) - sc * (u
            * rho)) + ((d * d) * (t * t) - 2 * ((d * t) * rho) + rho * rho),
{
    assert(sc * (u + f) == sc * u + sc * f) by (nonlinear_arith);
    assert((sc * (u + f)) * (sc * (u + f)) == sc * sc * ((u + f) * (u + f))) by (nonlinear_arith);
    assert((sc * u + sc * f) * (sc * u + sc * f) == (sc * u) * (sc * u) + 2 * ((sc * u) * (sc * f))
        + (sc * f) * (sc * f)) by (nonlinear_arith);
    assert((sc * u) * (sc * u) == sc * sc * (u * u)) by (nonlinear_arith);
    assert((sc * u) * (sc * f) == (sc * u) * (d * t) - (sc * u) * rho) by (nonlinear_arith)
        requires
            sc * f == d * t - rho,
    ;
    assert((sc * u) * (d * t) == sc * ((d * u) * t)) by (nonlinear_arith);
    assert((sc * u) * rho == sc * (u * rho)) by (nonlinear_arith);
    assert((sc * f) * (sc * f) == (d * t) * (d * t) - 2 * ((d * t) * rho) + rho * rho)
        by (nonlinear_arith)
        requires
            sc * f == d * t - rho,
    ;
    assert((d * t) * (d * t) == (d * d) * (t * t)) by (nonlinear_arith);
}

/// Sphere round trip, with the rounding error bounded explicitly: for any
/// ray whose direction was normalized from a vector of at least one unit's
/// length, the squared distance from the reported hit point to the center
/// differs from the squared radius by at most `7 * t * t / SCALE` plus a
/// fixed remainder — every step of the pipeline contributes one bounded
/// truncation.  In units of the radius this is a relative error on the
/// order of `1 / SCALE` for scenes of moderate depth.
#[verifier::rlimit(100)]
pub proof fn lemma_sphere_round_trip(s: SphereGeometry, ray: Ray, v: V3, t: int)
    requires
        wf_sphere(s),
        bounded3(ray.origin@, MAX_COORD as int),
        ray.direction@ == crate::vector::sv_normalize(v),
        bounded3(v, crate::vector::NORM_IN as int),
        crate::vector::sv_norm2_raw(v) >= (SCALE as int) * (SCALE as int),
        sp_sphere_hit(s, ray) == Some(t),
        0 <= t <= T_MAX,
    ensures
        ({
            let w: V3 = sv_sub(
                crate::vector::sv_add(ray.origin@, crate::vector::sv_scale(ray.direction@, t)),
                s.center@,
            );
            sabs(crate::vector::sv_norm2_raw(w) - (s.radius as int) * (s.radius as int)) <= 7 * (t
                * t) / (SCALE as int) + 0x100_0000_0000
        }),
{
    let sc: int = SCALE as int;
    let d: V3 = ray.direction@;
    let o: V3 = ray.origin@;
    let u: V3 = sv_sub(o, s.center@);
    let rad: int = s.radius as int;
    let w: V3 = sv_sub(crate::vector::sv_add(o, crate::vector::sv_scale(d, t)), s.center@);
    crate::vector::lemma_normalize_window(v);
    // the direction's squared norm window and component bounds
    let add: int = d.x * d.x + d.y * d.y + d.z * d.z;
    let eps2: int = add - sc * sc;
    assert(-(6 * sc) - 2 <= eps2 <= 3 * sc);
    // rounding remainders of the scaled direction components
    let fx: int = fmul(d.x, t);
    let fy: int = fmul(d.y, t);
    let fz: int = fmul(d.z, t);
    let rx: int = d.x * t - sc * fx;
    let ry: int = d.y * t - sc * fy;
    let rz: int = d.z * t - sc * fz;
    crate::fixed::lemma_div_trunc_decompose(d.x * t, sc);
    crate::fixed::lemma_div_trunc_decompose(d.y * t, sc);
    crate::fixed::lemma_div_trunc_decompose(d.z * t, sc);
    // rounding remainders of the four dot products the quadratic uses
    let aud: int = d.x * u.x + d.y * u.y + d.z * u.z;
    let auu: int = u.x * u.x + u.y * u.y + u.z * u.z;
    let b: int = sv_dot(d, u);
    let uu: int = sv_dot(u, u);
    let rr: int = fmul(rad, rad);
    let bb: int = fmul(b, b);
    let beta: int = aud - sc * b;
    let upsilon: int = auu - sc * uu;
    let omega: int = rad * rad - sc * rr;
    let phi: int = b * b - sc * bb;
    crate::fixed::lemma_div_trunc_decompose(aud, sc);
    crate::fixed::lemma_div_trunc_decompose(auu, sc);
    crate::fixed::lemma_div_trunc_decompose(rad * rad, sc);
    crate::fixed::lemma_div_trunc_decompose(b * b, sc);
    // the reported parameter solves the quadratic up to the root's rounding
    let disc: int = bb - (uu - rr);
    lemma_sphere_hit_on_surface(s, ray, t);
    let gamma: int = disc * sc - (t + b) * (t + b);
    assert(gamma >= 0);
    crate::fixed::lemma_sabs_mul(t + b, t + b);
    crate::fixed::lemma_mul_sign(t + b, t + b);
    assert((sabs(t + b) + 1) * (sabs(t + b) + 1) == sabs(t + b) * sabs(t + b) + 2 * sabs(t + b)
        + 1) by (nonlinear_arith);
    assert(gamma <= 2 * sabs(t + b));
    // component bounds
    assert(sabs(u.x) <= 0x1_0000_0000 && sabs(u.y) <= 0x1_0000_0000 && sabs(u.z)
        <= 0x1_0000_0000);
    lemma_sv_dot_bound(d, u, sc, 0x1_0000_0000);
    assert(sabs(b) <= 0x3_0000_0000);
    assert(sabs(t + b) <= 0x13_0000_0000);
    // expand the three squared offset components
    lemma_round_trip_component(sc, u.x, d.x, t, fx, rx);
    lemma_round_trip_component(sc, u.y, d.y, t, fy, ry);
    lemma_round_trip_component(sc, u.z, d.z, t, fz, rz);
    assert(w.x == u.x + fx && w.y == u.y + fy && w.z == u.z + fz);
    // gather the mixed terms over the whole vector
    assert((d.x * u.x) * t + (d.y * u.y) * t + (d.z * u.z) * t == aud * t) by (nonlinear_arith)
        requires
            aud == d.x * u.x + d.y * u.y + d.z * u.z,
    ;
    assert(aud * t == sc * (b * t) + beta * t) by (nonlinear_arith)
        requires
            aud == sc * b + beta,
    ;
    assert((d.x * d.x) * (t * t) + (d.y * d.y) * (t * t) + (d.z * d.z) * (t * t) == add * (t * t))
        by (nonlinear_arith)
        requires
            add == d.x * d.x + d.y * d.y + d.z * d.z,
    ;
    assert(add * (t * t) == sc * sc * (t * t) + eps2 * (t * t)) by (nonlinear_arith)
        requires
            add == sc * sc + eps2,
    ;
    assert((t + b) * (t + b) == t * t + 2 * (b * t) + b * b) by (nonlinear_arith);
    // the assembled identity: all remaining steps are linear in the atoms
    let rem: int = 2 * sc * (beta * t) - 2 * sc * (u.x * rx + u.y * ry + u.z * rz) + eps2 * (t * t)
        - 2 * ((d.x * t) * rx + (d.y * t) * ry + (d.z * t) * rz) + (rx * rx + ry * ry + rz * rz);
    assert(sc * sc * crate::vector::sv_norm2_raw(w) == sc * sc * (rad * rad) + sc * sc * (upsilon
        - phi - omega - gamma) + rem);
    // bound every remainder atom
    lemma_mul_abs_bound(beta, t, sc, T_MAX as int);
    lemma_mul_abs_bound(u.x, rx, 0x1_0000_0000, sc);
    lemma_mul_abs_bound(u.y, ry, 0x1_0000_0000, sc);
    lemma_mul_abs_bound(u.z, rz, 0x1_0000_0000, sc);
    lemma_mul_abs_bound(t, t, T_MAX as int, T_MAX as int);
    assert(t * t >= 0) by (nonlinear_arith);
    lemma_mul_abs_bound(eps2, t * t, 6 * sc + 2, t * t);
    lemma_mul_abs_bound(d.x, t, sc, T_MAX as int);
    lemma_mul_abs_bound(d.y, t, sc, T_MAX as int);
    lemma_mul_abs_bound(d.z, t, sc, T_MAX as int);
    lemma_mul_abs_bound(d.x * t, rx, sc * (T_MAX as int), sc);
    lemma_mul_abs_bound(d.y * t, ry, sc * (T_MAX as int), sc);
    lemma_mul_abs_bound(d.z * t, rz, sc * (T_MAX as int), sc);
    lemma_mul_abs_bound(rx, rx, sc, sc);
    lemma_mul_abs_bound(ry, ry, sc, sc);
    lemma_mul_abs_bound(rz, rz, sc, sc);
    assert(sabs(2 * sc * (beta * t)) <= 2 * sc * sc * (T_MAX as int));
    assert(sabs(2 * sc * (u.x * rx + u.y * ry + u.z * rz)) <= 6 * sc * sc * 0x1_0000_0000);
    assert(sabs(eps2 * (t * t)) <= (6 * sc + 2) * (t * t));
    assert((6 * sc + 2) * (t * t) <= 7 * sc * (t * t)) by (nonlinear_arith)
        requires
            t * t >= 0,
            sc >= 2,
    ;
    assert(sabs(2 * ((d.x * t) * rx + (d.y * t) * ry + (d.z * t) * rz)) <= 6 * sc * sc * (
    T_MAX as int));
    assert(sabs(rx * rx + ry * ry + rz * rz) <= 3 * sc * sc);
    assert(sabs(rem) <= 7 * sc * (t * t) + sc * sc * 0xC0_0000_0000);
    // cancel the scaling and split off the quadratic part
    let delta: int = crate::vector::sv_norm2_raw(w) - rad * rad;
    assert(sc * sc * sabs(delta) <= 7 * sc * (t * t) + sc * sc * 0x100_0000_0000);
    vstd::arithmetic::div_mod::lemma_fundamental_div_mod(7 * (t * t), sc);
    vstd::arithmetic::div_mod::lemma_mod_bound(7 * (t * t), sc);
    assert(sabs(delta) <= 7 * (t * t) / sc + 0x100_0000_0000);
}

impl SphereGeometry {
    /// The centroid: the sphere's center.
    pub fn center(&self) -> (r: Vector3)
        ensures
            r == self.center,
    {
        self.center
    }

    /// The outward unit normal at a surface point.
    pub fn normal_at(&self, point: &Vector3) -> (r: Vector3)
        requires
            wf_sphere(*self),
            bounded3(point@, POINT_MAX as int),
        ensures
            r@ == sv_normalize(sv_sub(point@, self.center@)),
            bounded3(r@, SCALE as int),
    {
        point.sub(&self.center).normalize()
    }

    /// The smallest nonnegative hit parameter, if the ray meets the surface.
    pub fn intersection(&self, ray: &Ray) -> (r: Option<i64>)
        requires
            wf_sphere(*self),
            crate::ray::wf_ray(*ray),
            bounded3(ray.origin@, MAX_COORD as int),
        ensures
            match r {
                Some(t) => sp_sphere_hit(*self, *ray) == Some(t as int) && 0 <= t <= T_MAX,
                None => sp_sphere_hit(*self, *ray) is None,
            },
    {
        let d: Vector3 = ray.direction();
        let a: i64 = d.dot(&d);
        if a == 0 {
            return None;
        }
        let u: Vector3 = ray.origin.sub(&self.center);
        proof {
            lemma_sv_dot_bound(d@, u@, SCALE as int, 2 * MAX_COORD as int);
            lemma_sv_dot_bound(u@, u@, 2 * MAX_COORD as int, 2 * MAX_COORD as int);
            lemma_mul_abs_bound(
                self.radius as int,
                self.radius as int,
                MAX_COORD as int,
                MAX_COORD as int,
            );
            lemma_fmul_bound(
                self.radius as int,
                self.radius as int,
                MAX_COORD as int,
                MAX_COORD as int,
            );
        }
        let b: i64 = d.dot(&u);
        let c: i64 = u.dot(&u) - fp_mul(self.radius, self.radius);
        proof {
            lemma_mul_abs_bound(b as int, b as int, 0x3_0000_0000, 0x3_0000_0000);
            lemma_fmul_bound(b as int, b as int, 0x3_0000_0000, 0x3_0000_0000);
        }
        let disc: i64 = fp_mul(b, b) - c;
        if disc < 0 {
            return None;
        }
        if disc == 0 {
            if -b >= 0 {
                return Some(-b);
            } else {
                return None;
            }
        }
        let sq: i64 = fp_sqrt(disc);
        proof {
            assert(sq as int <= 0x4_0000_0000) by (nonlinear_arith)
                requires
                    (sq as int) * (sq as int) <= (disc as int) * (SCALE as int),
                    0 <= disc as int <= 0x10_0000_0000_0000,
                    sq >= 0,
                    SCALE == 65536,
            ;
        }
        let t1: i64 = -b - sq;
        if t1 >= 0 {
            return Some(t1);
        }
        let t2: i64 = -b + sq;
        if t2 >= 0 {
            return Some(t2);
        }
        None
    }

    /// The smallest axis-aligned box enclosing the sphere: the center moved
    /// by one radius each way along every axis.
    pub fn aabb(&self) -> (r: AABoxGeometry)
        requires
            wf_sphere(*self),
        ensures
            r.min@.x == self.center@.x - self.radius as int,
            r.min@.y == self.center@.y - self.radius as int,
            r.min@.z == self.center@.z - self.radius as int,
            r.max@.x == self.center@.x + self.radius as int,
            r.max@.y == self.center@.y + self.radius as int,
            r.max@.z == self.center@.z + self.radius as int,
    {
        AABoxGeometry {
            min: Vector3::new(
                self.center.x - self.radius,
                self.center.y - self.radius,
                self.center.z - self.radius,
            ),
            max: Vector3::new(
                self.center.x + self.radius,
                self.center.y + self.radius,
                self.center.z + self.radius,
            ),
        }
    }
}

} // verus!
