//! 3D vector algebra over fixed-point coordinates.
//!
//! [`Vector3`] is the executable vector; its view is [`V3`], the same triple
//! as mathematical integers, on which the spec-level operations are defined.

use vstd::prelude::*;
use crate::fixed::{
    abs_i64, div_trunc, fmul, isqrt_u128, lemma_div_trunc_abs, lemma_mul_abs_bound,
    lemma_mul_sign, lemma_sabs_mul, sabs, sqrt_floor, SCALE,
};
use vstd::arithmetic::div_mod::{lemma_div_by_multiple, lemma_div_is_ordered, lemma_div_pos_is_pos};

verus! {

/// Largest coordinate magnitude for which all vector operations are exact.
/// Normalization accepts any vector up to this bound per component.
pub const NORM_IN: i64 = 0x4_0000_0000_0000;

/// Largest component magnitude accepted by the dot and cross products.
pub const DOT_IN: i64 = 0x40_0000_0000;

/// A 3D vector of fixed-point coordinates.
#[derive(Clone, Copy, PartialEq, Eq, Structural, Debug)]
pub struct Vector3 {
    pub x: i64,
    pub y: i64,
    pub z: i64,
}

/// The mathematical value of a vector: the same triple over `int`.
pub struct V3 {
    pub x: int,
    pub y: int,
    pub z: int,
}

impl View for Vector3 {
    type V = V3;

    open spec fn view(&self) -> V3 {
        V3 { x: self.x as int, y: self.y as int, z: self.z as int }
    }
}

/// Every component is at most `m` in magnitude.
pub open spec fn bounded3(v: V3, m: int) -> bool {
    sabs(v.x) <= m && sabs(v.y) <= m && sabs(v.z) <= m
}

/// Componentwise sum.
pub open spec fn sv_add(a: V3, b: V3) -> V3 {
    V3 { x: a.x + b.x, y: a.y + b.y, z: a.z + b.z }
}

/// Componentwise difference.
pub open spec fn sv_sub(a: V3, b: V3) -> V3 {
    V3 { x: a.x - b.x, y: a.y - b.y, z: a.z - b.z }
}

/// Componentwise negation.
pub open spec fn sv_neg(a: V3) -> V3 {
    V3 { x: -a.x, y: -a.y, z: -a.z }
}

/// Scaling by a fixed-point factor, each component truncated toward zero.
pub open spec fn sv_scale(a: V3, t: int) -> V3 {
    V3 { x: fmul(a.x, t), y: fmul(a.y, t), z: fmul(a.z, t) }
}

/// Fixed-point dot product: the exact integer sum of products, rescaled once,
/// truncated toward zero.
pub open spec fn sv_dot(a: V3, b: V3) -> int {
    div_trunc(a.x * b.x + a.y * b.y + a.z * b.z, SCALE as int)
}

/// Fixed-point cross product, each component a difference of two truncated
/// products.
pub open spec fn sv_cross(a: V3, b: V3) -> V3 {
    V3 {
        x: fmul(a.y, b.z) - fmul(a.z, b.y),
        y: fmul(a.z, b.x) - fmul(a.x, b.z),
        z: fmul(a.x, b.y) - fmul(a.y, b.x),
    }
}

/// The squared Euclidean norm before rescaling: an exact integer.
pub open spec fn sv_norm2_raw(a: V3) -> int {
    a.x * a.x + a.y * a.y + a.z * a.z
}

/// Normalization: each component is scaled by `SCALE` and divided by the
/// rounded-down length of the vector.  The zero vector stays zero.
pub open spec fn sv_normalize(a: V3) -> V3 {
    if sv_norm2_raw(a) == 0 {
        V3 { x: 0, y: 0, z: 0 }
    } else {
        V3 {
            x: div_trunc(a.x * (SCALE as int), sqrt_floor(sv_norm2_raw(a) as nat) as int),
            y: div_trunc(a.y * (SCALE as int), sqrt_floor(sv_norm2_raw(a) as nat) as int),
            z: div_trunc(a.z * (SCALE as int), sqrt_floor(sv_norm2_raw(a) as nat) as int),
        }
    }
}

/// One normalized component: `c * SCALE / l`, truncated toward zero.
fn norm_div(c: i64, l: u64) -> (r: i64)
    requires
        l >= 1,
        sabs(c as int) <= l as int,
    ensures
        r as int == div_trunc((c as int) * (SCALE as int), l as int),
        sabs(r as int) <= SCALE as int,
{
    let m: u128 = abs_i64(c) as u128;
    let q: u128 = (m * 65536) / (l as u128);
    proof {
        lemma_sabs_mul(c as int, SCALE as int);
        lemma_mul_sign(c as int, SCALE as int);
        lemma_div_is_ordered(
            sabs(c as int) * (SCALE as int),
            (l as int) * (SCALE as int),
            l as int,
        );
        lemma_div_by_multiple(SCALE as int, l as int);
        lemma_div_pos_is_pos(sabs(c as int) * (SCALE as int), l as int);
    }
    if c < 0 {
        -(q as i64)
    } else {
        q as i64
    }
}

impl Vector3 {
    /// Builds a vector from its three fixed-point coordinates.
    pub fn new(x: i64, y: i64, z: i64) -> (r: Vector3)
        ensures
            r@ == (V3 { x: x as int, y: y as int, z: z as int }),
    {
        Vector3 { x, y, z }
    }

    /// Componentwise sum.
    pub fn add(&self, o: &Vector3) -> (r: Vector3)
        requires
            sabs(self@.x + o@.x) <= i64::MAX,
            sabs(self@.y + o@.y) <= i64::MAX,
            sabs(self@.z + o@.z) <= i64::MAX,
        ensures
            r@ == sv_add(self@, o@),
    {
        Vector3 { x: self.x + o.x, y: self.y + o.y, z: self.z + o.z }
    }

    /// Componentwise difference.
    pub fn sub(&self, o: &Vector3) -> (r: Vector3)
        requires
            sabs(self@.x - o@.x) <= i64::MAX,
            sabs(self@.y - o@.y) <= i64::MAX,
            sabs(self@.z - o@.z) <= i64::MAX,
        ensures
            r@ == sv_sub(self@, o@),
    {
        Vector3 { x: self.x - o.x, y: self.y - o.y, z: self.z - o.z }
    }

    /// Componentwise negation.
    pub fn neg(&self) -> (r: Vector3)
        requires
            self@.x > i64::MIN,
            self@.y > i64::MIN,
            self@.z > i64::MIN,
        ensures
            r@ == sv_neg(self@),
    {
        Vector3 { x: -self.x, y: -self.y, z: -self.z }
    }

    /// Scales by a fixed-point factor.
    pub fn scale(&self, t: i64) -> (r: Vector3)
        requires
            sabs(self@.x * t) <= (i64::MAX as int) * (SCALE as int),
            sabs(self@.y * t) <= (i64::MAX as int) * (SCALE as int),
            sabs(self@.z * t) <= (i64::MAX as int) * (SCALE as int),
        ensures
            r@ == sv_scale(self@, t as int),
    {
        Vector3 {
            x: crate::fixed::fp_mul(self.x, t),
            y: crate::fixed::fp_mul(self.y, t),
            z: crate::fixed::fp_mul(self.z, t),
        }
    }

    /// Fixed-point dot product.
    pub fn dot(&self, o: &Vector3) -> (r: i64)
        requires
            bounded3(self@, DOT_IN as int),
            bounded3(o@, DOT_IN as int),
        ensures
            r as int == sv_dot(self@, o@),
            sabs(r as int) <= 3 * (DOT_IN as int) * (DOT_IN as int) / (SCALE as int),
    {
        proof {
            lemma_mul_abs_bound(self@.x, o@.x, DOT_IN as int, DOT_IN as int);
            lemma_mul_abs_bound(self@.y, o@.y, DOT_IN as int, DOT_IN as int);
            lemma_mul_abs_bound(self@.z, o@.z, DOT_IN as int, DOT_IN as int);
        }
        let px: i128 = (self.x as i128) * (o.x as i128);
        let py: i128 = (self.y as i128) * (o.y as i128);
        let pz: i128 = (self.z as i128) * (o.z as i128);
        let s: i128 = px + py + pz;
        let neg: bool = s < 0;
        let m: u128 = if neg {
            (-s) as u128
        } else {
            s as u128
        };
        let q: u128 = m / 65536;
        proof {
            lemma_div_is_ordered(
                m as int,
                3 * (DOT_IN as int) * (DOT_IN as int),
                SCALE as int,
            );
            lemma_div_pos_is_pos(m as int, SCALE as int);
        }
        if neg {
            -(q as i64)
        } else {
            q as i64
        }
    }

    /// Fixed-point cross product.
    pub fn cross(&self, o: &Vector3) -> (r: Vector3)
        requires
            bounded3(self@, DOT_IN as int),
            bounded3(o@, DOT_IN as int),
        ensures
            r@ == sv_cross(self@, o@),
            bounded3(r@, 2 * (DOT_IN as int) * (DOT_IN as int) / (SCALE as int)),
    {
        proof {
            lemma_cross_fits(self@, o@);
        }
        let rx: i64 = crate::fixed::fp_mul(self.y, o.z) - crate::fixed::fp_mul(self.z, o.y);
        let ry: i64 = crate::fixed::fp_mul(self.z, o.x) - crate::fixed::fp_mul(self.x, o.z);
        let rz: i64 = crate::fixed::fp_mul(self.x, o.y) - crate::fixed::fp_mul(self.y, o.x);
        Vector3 { x: rx, y: ry, z: rz }
    }

    /// Normalizes to (fixed-point) unit length, rounding each component
    /// toward zero; the zero vector is returned unchanged.
    pub fn normalize(&self) -> (r: Vector3)
        requires
            bounded3(self@, NORM_IN as int),
        ensures
            r@ == sv_normalize(self@),
            bounded3(r@, SCALE as int),
    {
        proof {
            lemma_mul_abs_bound(self@.x, self@.x, NORM_IN as int, NORM_IN as int);
            lemma_mul_abs_bound(self@.y, self@.y, NORM_IN as int, NORM_IN as int);
            lemma_mul_abs_bound(self@.z, self@.z, NORM_IN as int, NORM_IN as int);
            lemma_sabs_mul(self@.x, self@.x);
            lemma_sabs_mul(self@.y, self@.y);
            lemma_sabs_mul(self@.z, self@.z);
            lemma_mul_sign(self@.x, self@.x);
            lemma_mul_sign(self@.y, self@.y);
            lemma_mul_sign(self@.z, self@.z);
        }
        let xx: i128 = (self.x as i128) * (self.x as i128);
        let yy: i128 = (self.y as i128) * (self.y as i128);
        let zz: i128 = (self.z as i128) * (self.z as i128);
        let n2: i128 = xx + yy + zz;
        if n2 == 0 {
            return Vector3 { x: 0, y: 0, z: 0 };
        }
        let l: u64 = isqrt_u128(n2 as u128);
        proof {
            lemma_component_below_root(self@.x, n2 as int, l as int);
            lemma_component_below_root(self@.y, n2 as int, l as int);
            lemma_component_below_root(self@.z, n2 as int, l as int);
        }
        Vector3 {
            x: norm_div(self.x, l),
            y: norm_div(self.y, l),
            z: norm_div(self.z, l),
        }
    }
}

/// The products inside a cross product of `DOT_IN`-bounded vectors fit the
/// fixed-point multiplier, and each resulting component is bounded.
proof fn lemma_cross_fits(a: V3, b: V3)
    requires
        bounded3(a, DOT_IN as int),
        bounded3(b, DOT_IN as int),
    ensures
        sabs(a.y * b.z) <= (i64::MAX as int) * (SCALE as int),
        sabs(a.z * b.y) <= (i64::MAX as int) * (SCALE as int),
        sabs(a.z * b.x) <= (i64::MAX as int) * (SCALE as int),
        sabs(a.x * b.z) <= (i64::MAX as int) * (SCALE as int),
        sabs(a.x * b.y) <= (i64::MAX as int) * (SCALE as int),
        sabs(a.y * b.x) <= (i64::MAX as int) * (SCALE as int),
        sabs(fmul(a.y, b.z) - fmul(a.z, b.y)) <= 2 * (DOT_IN as int) * (DOT_IN as int) / (
        SCALE as int),
        sabs(fmul(a.z, b.x) - fmul(a.x, b.z)) <= 2 * (DOT_IN as int) * (DOT_IN as int) / (
        SCALE as int),
        sabs(fmul(a.x, b.y) - fmul(a.y, b.x)) <= 2 * (DOT_IN as int) * (DOT_IN as int) / (
        SCALE as int),
{
    crate::fixed::lemma_fmul_bound(a.y, b.z, DOT_IN as int, DOT_IN as int);
    crate::fixed::lemma_fmul_bound(a.z, b.y, DOT_IN as int, DOT_IN as int);
    crate::fixed::lemma_fmul_bound(a.z, b.x, DOT_IN as int, DOT_IN as int);
    crate::fixed::lemma_fmul_bound(a.x, b.z, DOT_IN as int, DOT_IN as int);
    crate::fixed::lemma_fmul_bound(a.x, b.y, DOT_IN as int, DOT_IN as int);
    crate::fixed::lemma_fmul_bound(a.y, b.x, DOT_IN as int, DOT_IN as int);
    lemma_mul_abs_bound(a.y, b.z, DOT_IN as int, DOT_IN as int);
    lemma_mul_abs_bound(a.z, b.y, DOT_IN as int, DOT_IN as int);
    lemma_mul_abs_bound(a.z, b.x, DOT_IN as int, DOT_IN as int);
    lemma_mul_abs_bound(a.x, b.z, DOT_IN as int, DOT_IN as int);
    lemma_mul_abs_bound(a.x, b.y, DOT_IN as int, DOT_IN as int);
    lemma_mul_abs_bound(a.y, b.x, DOT_IN as int, DOT_IN as int);
}

/// A bound on the components of both vectors gives a bound on their dot
/// product.
pub proof fn lemma_sv_dot_bound(a: V3, b: V3, am: int, bm: int)
    requires
        bounded3(a, am),
        bounded3(b, bm),
    ensures
        sabs(sv_dot(a, b)) <= 3 * (am * bm) / (SCALE as int),
{
    lemma_mul_abs_bound(a.x, b.x, am, bm);
    lemma_mul_abs_bound(a.y, b.y, am, bm);
    lemma_mul_abs_bound(a.z, b.z, am, bm);
    lemma_div_trunc_abs(a.x * b.x + a.y * b.y + a.z * b.z, SCALE as int);
    lemma_div_is_ordered(
        sabs(a.x * b.x + a.y * b.y + a.z * b.z),
        3 * (am * bm),
        SCALE as int,
    );
}

/// Largest component magnitude accepted by the determinant helper.
pub const DET_IN: i64 = 0x8_0000_0000;

/// The determinant of the 3x3 matrix whose columns are the three vectors,
/// over exact (unrescaled) integers.
pub open spec fn sp_det3(c1: V3, c2: V3, c3: V3) -> int {
    c1.x * (c2.y * c3.z - c2.z * c3.y) - c2.x * (c1.y * c3.z - c1.z * c3.y) + c3.x * (c1.y * c2.z
        - c1.z * c2.y)
}

/// The exact determinant of the matrix with the given columns, in `i128`.
pub fn det3(c1: &Vector3, c2: &Vector3, c3: &Vector3) -> (r: i128)
    requires
        bounded3(c1@, DET_IN as int),
        bounded3(c2@, DET_IN as int),
        bounded3(c3@, DET_IN as int),
    ensures
        r as int == sp_det3(c1@, c2@, c3@),
        sabs(r as int) <= 0x1000_0000_0000_0000_0000_0000_0000,
{
    proof {
        lemma_det3_bounds(c1@, c2@, c3@);
    }
    let m1: i128 = (c2.y as i128) * (c3.z as i128) - (c2.z as i128) * (c3.y as i128);
    let m2: i128 = (c1.y as i128) * (c3.z as i128) - (c1.z as i128) * (c3.y as i128);
    let m3: i128 = (c1.y as i128) * (c2.z as i128) - (c1.z as i128) * (c2.y as i128);
    (c1.x as i128) * m1 - (c2.x as i128) * m2 + (c3.x as i128) * m3
}

/// Every product inside a determinant of `DET_IN`-bounded columns fits.
proof fn lemma_det3_bounds(c1: V3, c2: V3, c3: V3)
    requires
        bounded3(c1, DET_IN as int),
        bounded3(c2, DET_IN as int),
        bounded3(c3, DET_IN as int),
    ensures
        sabs(c2.y * c3.z) <= (DET_IN as int) * (DET_IN as int),
        sabs(c2.z * c3.y) <= (DET_IN as int) * (DET_IN as int),
        sabs(c1.y * c3.z) <= (DET_IN as int) * (DET_IN as int),
        sabs(c1.z * c3.y) <= (DET_IN as int) * (DET_IN as int),
        sabs(c1.y * c2.z) <= (DET_IN as int) * (DET_IN as int),
        sabs(c1.z * c2.y) <= (DET_IN as int) * (DET_IN as int),
        sabs(c1.x * (c2.y * c3.z - c2.z * c3.y)) <= (DET_IN as int) * (2 * (DET_IN as int) * (
        DET_IN as int)),
        sabs(c2.x * (c1.y * c3.z - c1.z * c3.y)) <= (DET_IN as int) * (2 * (DET_IN as int) * (
        DET_IN as int)),
        sabs(c3.x * (c1.y * c2.z - c1.z * c2.y)) <= (DET_IN as int) * (2 * (DET_IN as int) * (
        DET_IN as int)),
{
    lemma_mul_abs_bound(c2.y, c3.z, DET_IN as int, DET_IN as int);
    lemma_mul_abs_bound(c2.z, c3.y, DET_IN as int, DET_IN as int);
    lemma_mul_abs_bound(c1.y, c3.z, DET_IN as int, DET_IN as int);
    lemma_mul_abs_bound(c1.z, c3.y, DET_IN as int, DET_IN as int);
    lemma_mul_abs_bound(c1.y, c2.z, DET_IN as int, DET_IN as int);
    lemma_mul_abs_bound(c1.z, c2.y, DET_IN as int, DET_IN as int);
    lemma_mul_abs_bound(
        c1.x,
        c2.y * c3.z - c2.z * c3.y,
        DET_IN as int,
        2 * (DET_IN as int) * (DET_IN as int),
    );
    lemma_mul_abs_bound(
        c2.x,
        c1.y * c3.z - c1.z * c3.y,
        DET_IN as int,
        2 * (DET_IN as int) * (DET_IN as int),
    );
    lemma_mul_abs_bound(
        c3.x,
        c1.y * c2.z - c1.z * c2.y,
        DET_IN as int,
        2 * (DET_IN as int) * (DET_IN as int),
    );
}

/// A bound on the components of both vectors gives a bound on each component
/// of their cross product.
pub proof fn lemma_sv_cross_bound(a: V3, b: V3, am: int, bm: int)
    requires
        bounded3(a, am),
        bounded3(b, bm),
    ensures
        bounded3(sv_cross(a, b), 2 * ((am * bm) / (SCALE as int))),
{
    crate::fixed::lemma_fmul_bound(a.y, b.z, am, bm);
    crate::fixed::lemma_fmul_bound(a.z, b.y, am, bm);
    crate::fixed::lemma_fmul_bound(a.z, b.x, am, bm);
    crate::fixed::lemma_fmul_bound(a.x, b.z, am, bm);
    crate::fixed::lemma_fmul_bound(a.x, b.y, am, bm);
    crate::fixed::lemma_fmul_bound(a.y, b.x, am, bm);
}

/// Squaring keeps a nonnegative inequality.
proof fn lemma_square_le(a: int, b: int)
    by (nonlinear_arith)
    requires
        0 <= a <= b,
    ensures
        a * a <= b * b,
{
}

/// Squaring keeps a strict nonnegative inequality.
proof fn lemma_square_lt(a: int, b: int)
    by (nonlinear_arith)
    requires
        0 <= a < b,
    ensures
        a * a < b * b,
{
}

/// One normalized component, squared: its magnitude `q` satisfies
/// `l * q <= m * SCALE < l * (q + 1)` for `m` the component's magnitude and
/// `l` the rounded-down length, and `q` is at most `SCALE` when `m <= l`.
proof fn lemma_norm_component(c: int, l: int, q: int)
    requires
        1 <= l,
        sabs(c) <= l,
        q == sabs(div_trunc(c * (SCALE as int), l)),
    ensures
        l * q <= sabs(c) * (SCALE as int),
        sabs(c) * (SCALE as int) < l * (q + 1),
        0 <= q <= SCALE as int,
        div_trunc(c * (SCALE as int), l) * div_trunc(c * (SCALE as int), l) == q * q,
{
    lemma_sabs_mul(c, SCALE as int);
    lemma_div_trunc_abs(c * (SCALE as int), l);
    vstd::arithmetic::div_mod::lemma_fundamental_div_mod(sabs(c) * (SCALE as int), l);
    vstd::arithmetic::div_mod::lemma_mod_bound(sabs(c) * (SCALE as int), l);
    vstd::arithmetic::mul::lemma_mul_inequality(sabs(c), l, SCALE as int);
    lemma_div_is_ordered(sabs(c) * (SCALE as int), l * (SCALE as int), l);
    lemma_div_by_multiple(SCALE as int, l);
    lemma_div_pos_is_pos(sabs(c) * (SCALE as int), l);
    lemma_sabs_mul(div_trunc(c * (SCALE as int), l), div_trunc(c * (SCALE as int), l));
    lemma_mul_sign(div_trunc(c * (SCALE as int), l), div_trunc(c * (SCALE as int), l));
    assert(l * q <= sabs(c) * (SCALE as int) && sabs(c) * (SCALE as int) < l * (q + 1))
        by (nonlinear_arith)
        requires
            1 <= l,
            sabs(c) * (SCALE as int) == l * q + (sabs(c) * (SCALE as int)) % l,
            0 <= (sabs(c) * (SCALE as int)) % l < l,
    ;
}

/// The squared length of a normalized vector sits in a tight window around
/// one: for any vector of at least one unit's length, the raw squared norm
/// of its normalization lies between `SCALE^2 - 6 * SCALE - 2` and
/// `SCALE^2 + 3 * SCALE`, and every component stays within one unit.
pub proof fn lemma_normalize_window(v: V3)
    requires
        bounded3(v, NORM_IN as int),
        sv_norm2_raw(v) >= (SCALE as int) * (SCALE as int),
    ensures
        bounded3(sv_normalize(v), SCALE as int),
        (SCALE as int) * (SCALE as int) - 6 * (SCALE as int) - 2 <= sv_norm2_raw(sv_normalize(v)),
        sv_norm2_raw(sv_normalize(v)) <= (SCALE as int) * (SCALE as int) + 3 * (SCALE as int),
{
    let s: int = SCALE as int;
    let n2: int = sv_norm2_raw(v);
    lemma_mul_sign(v.x, v.x);
    lemma_mul_sign(v.y, v.y);
    lemma_mul_sign(v.z, v.z);
    let l: int = sqrt_floor(n2 as nat) as int;
    crate::fixed::lemma_sqrt_floor_bounds(n2 as nat);
    assert(l >= s) by (nonlinear_arith)
        requires
            n2 >= s * s,
            n2 < (l + 1) * (l + 1),
            l >= 0,
            s >= 1,
    ;
    let mx: int = sabs(v.x);
    let my: int = sabs(v.y);
    let mz: int = sabs(v.z);
    lemma_sabs_mul(v.x, v.x);
    lemma_sabs_mul(v.y, v.y);
    lemma_sabs_mul(v.z, v.z);
    lemma_component_below_root(v.x, n2, l);
    lemma_component_below_root(v.y, n2, l);
    lemma_component_below_root(v.z, n2, l);
    let d: V3 = sv_normalize(v);
    let qx: int = sabs(d.x);
    let qy: int = sabs(d.y);
    let qz: int = sabs(d.z);
    lemma_norm_component(v.x, l, qx);
    lemma_norm_component(v.y, l, qy);
    lemma_norm_component(v.z, l, qz);
    let sq: int = d.x * d.x + d.y * d.y + d.z * d.z;
    assert(sq == qx * qx + qy * qy + qz * qz);
    // upper bound: l^2 * sq <= n2 * s^2 < (l+1)^2 * s^2
    lemma_square_le(l * qx, mx * s);
    lemma_square_le(l * qy, my * s);
    lemma_square_le(l * qz, mz * s);
    assert((l * qx) * (l * qx) + (l * qy) * (l * qy) + (l * qz) * (l * qz) == (l * l) * (qx * qx
        + qy * qy + qz * qz)) by (nonlinear_arith);
    assert((mx * s) * (mx * s) == (mx * mx) * (s * s)) by (nonlinear_arith);
    assert((my * s) * (my * s) == (my * my) * (s * s)) by (nonlinear_arith);
    assert((mz * s) * (mz * s) == (mz * mz) * (s * s)) by (nonlinear_arith);
    assert((mx * mx + my * my + mz * mz) * (s * s) == (mx * mx) * (s * s) + (my * my) * (s * s) + (
    mz * mz) * (s * s)) by (nonlinear_arith);
    assert((l * l) * sq <= n2 * (s * s));
    assert(sq <= s * s + 3 * s) by (nonlinear_arith)
        requires
            (l * l) * sq <= n2 * (s * s),
            n2 < (l + 1) * (l + 1),
            l >= s,
            s >= 1,
            sq >= 0,
    ;
    // lower bound: n2 * s^2 < l^2 * (sq + 2 * (qx + qy + qz) + 3)
    lemma_square_lt(mx * s, l * (qx + 1));
    lemma_square_lt(my * s, l * (qy + 1));
    lemma_square_lt(mz * s, l * (qz + 1));
    assert((l * (qx + 1)) * (l * (qx + 1)) == (l * l) * ((qx + 1) * (qx + 1))) by (nonlinear_arith);
    assert((l * (qy + 1)) * (l * (qy + 1)) == (l * l) * ((qy + 1) * (qy + 1))) by (nonlinear_arith);
    assert((l * (qz + 1)) * (l * (qz + 1)) == (l * l) * ((qz + 1) * (qz + 1))) by (nonlinear_arith);
    assert((l * l) * ((qx + 1) * (qx + 1) + (qy + 1) * (qy + 1) + (qz + 1) * (qz + 1)) == (l * l)
        * ((qx + 1) * (qx + 1)) + (l * l) * ((qy + 1) * (qy + 1)) + (l * l) * ((qz + 1) * (qz
        + 1))) by (nonlinear_arith);
    assert((qx + 1) * (qx + 1) + (qy + 1) * (qy + 1) + (qz + 1) * (qz + 1) == sq + 2 * (qx + qy
        + qz) + 3) by (nonlinear_arith)
        requires
            sq == qx * qx + qy * qy + qz * qz,
    ;
    assert(n2 * (s * s) < (l * l) * (sq + 2 * (qx + qy + qz) + 3));
    assert(sq > s * s - 2 * (qx + qy + qz) - 3) by (nonlinear_arith)
        requires
            n2 * (s * s) < (l * l) * (sq + 2 * (qx + qy + qz) + 3),
            n2 >= l * l,
            l >= 1,
            s >= 0,
    ;
    assert(sq >= s * s - 6 * s - 2);
    assert(sq == sv_norm2_raw(d));
}

/// The direction a normalization hands back has unit squared length within a
/// few rounding steps: for any vector of at least one unit's length, the
/// fixed-point dot product of the normalized vector with itself differs from
/// one by at most `8` raw steps (`8 / SCALE` of a unit).
pub proof fn lemma_normalize_unit_length(v: V3)
    requires
        bounded3(v, NORM_IN as int),
        sv_norm2_raw(v) >= (SCALE as int) * (SCALE as int),
    ensures
        sabs(sv_dot(sv_normalize(v), sv_normalize(v)) - SCALE as int) <= 8,
{
    let s: int = SCALE as int;
    let d: V3 = sv_normalize(v);
    lemma_normalize_window(v);
    let sq: int = sv_norm2_raw(d);
    assert(sv_dot(d, d) == div_trunc(sq, s));
    lemma_div_trunc_abs(sq, s);
    lemma_div_is_ordered(sq, s * s + 3 * s, s);
    lemma_div_is_ordered(s * s - 6 * s - 2, sq, s);
    assert((s * s + 3 * s) / s == s + 3) by {
        lemma_div_by_multiple(s + 3, s);
        assert((s + 3) * s == s * s + 3 * s) by (nonlinear_arith);
    }
    assert((s * s - 6 * s - 2) / s == s - 7) by {
        assert(s * s - 6 * s - 2 == s * (s - 7) + (s - 2)) by (nonlinear_arith);
        vstd::arithmetic::div_mod::lemma_div_multiples_vanish_fancy(s - 7, s - 2, s);
    }
}

/// A component of a vector is no longer than the rounded-down length.
proof fn lemma_component_below_root(c: int, n2: int, l: int)
    requires
        c * c <= n2,
        n2 < (l + 1) * (l + 1),
        l >= 0,
    ensures
        sabs(c) <= l,
{
    lemma_sabs_mul(c, c);
    lemma_mul_sign(c, c);
    assert(sabs(c) <= l) by (nonlinear_arith)
        requires
            sabs(c) * sabs(c) <= n2,
            n2 < (l + 1) * (l + 1),
            sabs(c) >= 0,
            l >= 0,
    ;
}

} // verus!
