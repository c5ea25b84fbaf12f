//! Fixed-point scalar arithmetic.
//!
//! A fixed-point number is an `i64` holding the represented real value
//! multiplied by [`SCALE`].  Multiplication and division rescale and truncate
//! toward zero (the rounding of hardware integer division on magnitudes); the
//! square root rounds down.  Each operation has an exact mathematical
//! definition as a spec function, which the executable code provably matches.

use vstd::prelude::*;
use vstd::arithmetic::div_mod::{
    lemma_div_by_multiple, lemma_div_is_ordered, lemma_div_is_strictly_smaller,
    lemma_div_nonincreasing, lemma_div_pos_is_pos,
};
use vstd::arithmetic::mul::{lemma_mul_nonnegative, lemma_mul_upper_bound};

verus! {

/// One whole unit: the real value `x` is stored as `x * SCALE`, rounded.
pub const SCALE: i64 = 65536;

/// Absolute value of a mathematical integer.
pub open spec fn sabs(a: int) -> int {
    if a < 0 {
        -a
    } else {
        a
    }
}

/// Division truncating toward zero, the rounding of hardware division.
pub open spec fn div_trunc(a: int, b: int) -> int
    recommends
        b != 0,
{
    if (a < 0) == (b < 0) {
        sabs(a) / sabs(b)
    } else {
        -(sabs(a) / sabs(b))
    }
}

/// Fixed-point product: the integer product, rescaled, truncated toward zero.
pub open spec fn fmul(a: int, b: int) -> int {
    div_trunc(a * b, SCALE as int)
}

/// Fixed-point quotient `a / b`, truncated toward zero.
pub open spec fn fdiv(a: int, b: int) -> int
    recommends
        b != 0,
{
    div_trunc(a * (SCALE as int), b)
}

/// Floor of the square root of a natural number.
pub open spec fn sqrt_floor(n: nat) -> nat
    decreases n,
{
    if n == 0 {
        0
    } else {
        if (sqrt_floor((n - 1) as nat) + 1) * (sqrt_floor((n - 1) as nat) + 1) <= n {
            sqrt_floor((n - 1) as nat) + 1
        } else {
            sqrt_floor((n - 1) as nat)
        }
    }
}

/// Fixed-point square root of a nonnegative fixed-point value, rounded down.
pub open spec fn fsqrt(x: int) -> int
    recommends
        x >= 0,
{
    sqrt_floor((x * (SCALE as int)) as nat) as int
}

/// The magnitude of a product is the product of the magnitudes.
pub proof fn lemma_sabs_mul(a: int, b: int)
    ensures
        sabs(a * b) == sabs(a) * sabs(b),
{
    if a >= 0 && b >= 0 {
        lemma_mul_nonnegative(a, b);
    } else if a >= 0 && b < 0 {
        lemma_mul_nonnegative(a, -b);
        assert(a * (-b) == -(a * b)) by (nonlinear_arith);
    } else if a < 0 && b >= 0 {
        lemma_mul_nonnegative(-a, b);
        assert((-a) * b == -(a * b)) by (nonlinear_arith);
    } else {
        lemma_mul_nonnegative(-a, -b);
        assert((-a) * (-b) == a * b) by (nonlinear_arith);
    }
}

/// Truncating division takes its magnitude from the magnitudes of its
/// operands, and never grows past the dividend.
pub proof fn lemma_div_trunc_abs(a: int, b: int)
    requires
        b != 0,
    ensures
        sabs(div_trunc(a, b)) == sabs(a) / sabs(b),
        sabs(div_trunc(a, b)) <= sabs(a),
{
    lemma_div_pos_is_pos(sabs(a), sabs(b));
    lemma_div_nonincreasing(sabs(a), sabs(b));
}

/// A bound on each factor gives a bound on the product.
pub proof fn lemma_mul_abs_bound(a: int, b: int, am: int, bm: int)
    requires
        sabs(a) <= am,
        sabs(b) <= bm,
    ensures
        sabs(a * b) <= am * bm,
        -(am * bm) <= a * b <= am * bm,
{
    lemma_sabs_mul(a, b);
    lemma_mul_upper_bound(sabs(a), am, sabs(b), bm);
}

/// A bound on each factor gives a bound on the fixed-point product.
pub proof fn lemma_fmul_bound(a: int, b: int, am: int, bm: int)
    requires
        sabs(a) <= am,
        sabs(b) <= bm,
    ensures
        sabs(fmul(a, b)) <= (am * bm) / (SCALE as int),
{
    lemma_mul_abs_bound(a, b, am, bm);
    lemma_div_trunc_abs(a * b, SCALE as int);
    lemma_div_is_ordered(sabs(a * b), am * bm, SCALE as int);
}

/// Multiplying by at most one in magnitude never grows a fixed-point value.
pub proof fn lemma_fmul_le_left(a: int, b: int)
    requires
        sabs(b) <= SCALE as int,
    ensures
        sabs(fmul(a, b)) <= sabs(a),
{
    lemma_mul_abs_bound(a, b, sabs(a), SCALE as int);
    lemma_div_trunc_abs(a * b, SCALE as int);
    lemma_div_is_ordered(sabs(a * b), sabs(a) * (SCALE as int), SCALE as int);
    lemma_div_by_multiple(sabs(a), SCALE as int);
}

/// Truncating division leaves a remainder smaller than the divisor:
/// `a == b * div_trunc(a, b) + rem` with `|rem| <= b - 1`.
pub proof fn lemma_div_trunc_decompose(a: int, b: int)
    requires
        b >= 1,
    ensures
        sabs(a - b * div_trunc(a, b)) <= b - 1,
{
    vstd::arithmetic::div_mod::lemma_fundamental_div_mod(sabs(a), b);
    vstd::arithmetic::div_mod::lemma_mod_bound(sabs(a), b);
    if a >= 0 {
    } else {
        assert(b * (-(sabs(a) / b)) == -(b * (sabs(a) / b))) by (nonlinear_arith);
    }
}

/// The rounded-down square root is squeezed between the two nearest squares.
pub proof fn lemma_sqrt_floor_bounds(n: nat)
    ensures
        sqrt_floor(n) * sqrt_floor(n) <= n,
        n < (sqrt_floor(n) + 1) * (sqrt_floor(n) + 1),
    decreases n,
{
    if n != 0 {
        lemma_sqrt_floor_bounds((n - 1) as nat);
        let p: nat = sqrt_floor((n - 1) as nat);
        assert(p * p <= (n - 1) as nat);
        assert(((n - 1) as nat) < (p + 1) * (p + 1));
        if (p + 1) * (p + 1) <= n {
            assert(sqrt_floor(n) == p + 1);
            assert((p + 1) * (p + 1) < (p + 2) * (p + 2)) by (nonlinear_arith);
            assert(n < (p + 2) * (p + 2));
            assert(sqrt_floor(n) * sqrt_floor(n) <= n);
            assert(n < (sqrt_floor(n) + 1) * (sqrt_floor(n) + 1));
        } else {
            assert(sqrt_floor(n) == p);
            assert(n < (p + 1) * (p + 1));
            assert(sqrt_floor(n) * sqrt_floor(n) <= n);
            assert(n < (sqrt_floor(n) + 1) * (sqrt_floor(n) + 1));
        }
    } else {
        assert(sqrt_floor(n) == 0);
        assert(sqrt_floor(n) * sqrt_floor(n) <= n) by (nonlinear_arith)
            requires
                sqrt_floor(n) == 0,
                n == 0,
        ;
        assert(n < (sqrt_floor(n) + 1) * (sqrt_floor(n) + 1)) by (nonlinear_arith)
            requires
                sqrt_floor(n) == 0,
                n == 0,
        ;
    }
}

/// The sign of a product follows the signs of its factors.
pub proof fn lemma_mul_sign(a: int, b: int)
    ensures
        ((a < 0) == (b < 0)) ==> a * b >= 0,
        ((a < 0) != (b < 0)) ==> a * b <= 0,
{
    if a >= 0 && b >= 0 {
        lemma_mul_nonnegative(a, b);
    } else if a < 0 && b < 0 {
        lemma_mul_nonnegative(-a, -b);
        assert((-a) * (-b) == a * b) by (nonlinear_arith);
    } else if a >= 0 && b < 0 {
        lemma_mul_nonnegative(a, -b);
        assert(a * (-b) == -(a * b)) by (nonlinear_arith);
    } else {
        lemma_mul_nonnegative(-a, b);
        assert((-a) * b == -(a * b)) by (nonlinear_arith);
    }
}

/// Any value squeezed between the two nearest squares is the rounded-down root.
pub proof fn lemma_sqrt_floor_unique(n: nat, r: nat)
    requires
        r * r <= n,
        n < (r + 1) * (r + 1),
    ensures
        r == sqrt_floor(n),
{
    lemma_sqrt_floor_bounds(n);
    let s: nat = sqrt_floor(n);
    if r < s {
        assert((r + 1) * (r + 1) <= s * s) by (nonlinear_arith)
            requires
                r + 1 <= s,
        ;
    } else if s < r {
        assert((s + 1) * (s + 1) <= r * r) by (nonlinear_arith)
            requires
                s + 1 <= r,
        ;
    }
}

/// The smaller of two mathematical integers.
pub open spec fn smin(a: int, b: int) -> int {
    if a <= b {
        a
    } else {
        b
    }
}

/// The larger of two mathematical integers.
pub open spec fn smax(a: int, b: int) -> int {
    if a >= b {
        a
    } else {
        b
    }
}

/// Magnitude of an `i64` as a `u64`; total, also at the minimum value.
pub(crate) fn abs_i64(a: i64) -> (r: u64)
    ensures
        r == sabs(a as int),
{
    if a >= 0 {
        a as u64
    } else {
        (-(a as i128)) as u64
    }
}

/// Magnitude of an `i128` as a `u128`.
pub(crate) fn abs_i128(a: i128) -> (r: u128)
    requires
        a != i128::MIN,
    ensures
        r == sabs(a as int),
{
    if a >= 0 {
        a as u128
    } else {
        (-a) as u128
    }
}

/// Division of a fixed-point value by a small positive integer count,
/// truncating toward zero.
pub fn fp_div_int(a: i64, n: i64) -> (r: i64)
    requires
        n >= 1,
        a > i64::MIN,
    ensures
        r as int == div_trunc(a as int, n as int),
        sabs(r as int) <= sabs(a as int),
{
    let m: u64 = abs_i64(a);
    let q: u64 = m / (n as u64);
    proof {
        lemma_div_pos_is_pos(m as int, n as int);
        lemma_div_nonincreasing(m as int, n as int);
    }
    if a < 0 {
        -(q as i64)
    } else {
        q as i64
    }
}

/// A small dividend over any nonzero divisor keeps the fixed-point quotient
/// inside `i64`.
pub proof fn lemma_fdiv_fits(a: int, b: int, am: int)
    requires
        b != 0,
        sabs(a) <= am,
        am * (SCALE as int) <= i64::MAX as int,
    ensures
        sabs(a) * (SCALE as int) <= sabs(b) * (i64::MAX as int),
{
    assert(sabs(a) * (SCALE as int) <= sabs(b) * (i64::MAX as int)) by (nonlinear_arith)
        requires
            sabs(a) <= am,
            sabs(b) >= 1,
            am * (SCALE as int) <= i64::MAX as int,
            SCALE as int > 0,
    ;
}

/// The quotient `num * SCALE / den`, truncated toward zero, handed back only
/// when it does not pass `cap`; the caller must know it is nonnegative.
pub(crate) fn scaled_div_capped(num: i128, den: i128, cap: i64) -> (r: Option<i64>)
    requires
        den != 0,
        sabs(num as int) <= 0x1000_0000_0000_0000_0000_0000_0000,
        sabs(den as int) <= 0x1000_0000_0000_0000_0000_0000_0000,
        cap >= 0,
        div_trunc((num as int) * (SCALE as int), den as int) >= 0,
    ensures
        match r {
            Some(t) => t as int == div_trunc((num as int) * (SCALE as int), den as int) && 0 <= t
                <= cap,
            None => div_trunc((num as int) * (SCALE as int), den as int) > cap as int,
        },
{
    proof {
        lemma_sabs_mul(num as int, SCALE as int);
        assert((num < 0) == ((num as int) * (SCALE as int) < 0)) by (nonlinear_arith)
            requires
                SCALE as int > 0,
        ;
    }
    let neg: bool = (num < 0) != (den < 0);
    let mn: u128 = abs_i128(num) * 65536;
    let md: u128 = abs_i128(den);
    let q: u128 = mn / md;
    proof {
        lemma_div_pos_is_pos(mn as int, md as int);
    }
    if neg {
        Some(0)
    } else if q <= cap as u128 {
        Some(q as i64)
    } else {
        None
    }
}

/// Fixed-point multiplication, truncating toward zero.
pub fn fp_mul(a: i64, b: i64) -> (r: i64)
    requires
        sabs((a as int) * (b as int)) <= (i64::MAX as int) * (SCALE as int),
    ensures
        r == fmul(a as int, b as int),
{
    let neg: bool = (a < 0) != (b < 0);
    let ma: u128 = abs_i64(a) as u128;
    let mb: u128 = abs_i64(b) as u128;
    proof {
        lemma_mul_upper_bound(ma as int, u64::MAX as int, mb as int, u64::MAX as int);
        lemma_sabs_mul(a as int, b as int);
        lemma_mul_sign(a as int, b as int);
    }
    let p: u128 = ma * mb;
    let q: u128 = p / 65536;
    proof {
        lemma_div_is_ordered(
            sabs((a as int) * (b as int)),
            (i64::MAX as int) * (SCALE as int),
            SCALE as int,
        );
        lemma_div_by_multiple(i64::MAX as int, SCALE as int);
        lemma_div_pos_is_pos(sabs((a as int) * (b as int)), SCALE as int);
    }
    if neg {
        -(q as i64)
    } else {
        q as i64
    }
}

/// Fixed-point division, truncating toward zero.
pub fn fp_div(a: i64, b: i64) -> (r: i64)
    requires
        b != 0,
        sabs(a as int) * (SCALE as int) <= sabs(b as int) * (i64::MAX as int),
    ensures
        r == fdiv(a as int, b as int),
{
    let neg: bool = (a < 0) != (b < 0);
    let ma: u128 = abs_i64(a) as u128;
    let mb: u128 = abs_i64(b) as u128;
    let n: u128 = ma * 65536;
    let q: u128 = n / mb;
    proof {
        lemma_sabs_mul(a as int, SCALE as int);
        lemma_div_is_ordered(
            sabs(a as int) * (SCALE as int),
            sabs(b as int) * (i64::MAX as int),
            sabs(b as int),
        );
        lemma_div_by_multiple(i64::MAX as int, sabs(b as int));
        lemma_div_pos_is_pos(sabs(a as int) * (SCALE as int), sabs(b as int));
        assert(((a as int) * (SCALE as int) < 0) == (a < 0)) by (nonlinear_arith);
    }
    if neg {
        -(q as i64)
    } else {
        q as i64
    }
}

/// Iterated fixed-point multiplication: `base` to the power `n`, with one
/// (`SCALE`) for the empty product.
pub open spec fn sp_powi(b: int, n: nat) -> int
    decreases n,
{
    if n == 0 {
        SCALE as int
    } else {
        fmul(b, sp_powi(b, (n - 1) as nat))
    }
}

/// The power of a base no larger than one in magnitude, by repeated
/// fixed-point multiplication; stays no larger than one in magnitude.
pub fn fp_powi(base: i64, n: u32) -> (r: i64)
    requires
        sabs(base as int) <= SCALE as int,
    ensures
        r as int == sp_powi(base as int, n as nat),
        sabs(r as int) <= SCALE as int,
{
    let mut acc: i64 = SCALE;
    let mut i: u32 = 0;
    while i < n
        invariant
            sabs(base as int) <= SCALE as int,
            acc as int == sp_powi(base as int, i as nat),
            sabs(acc as int) <= SCALE as int,
            i <= n,
        decreases n - i,
    {
        proof {
            lemma_mul_abs_bound(acc as int, base as int, SCALE as int, SCALE as int);
            lemma_fmul_le_left(acc as int, base as int);
            assert((acc as int) * (base as int) == (base as int) * (acc as int))
                by (nonlinear_arith);
        }
        acc = fp_mul(acc, base);
        i = i + 1;
    }
    acc
}

/// Integer square root, rounded down.
pub fn isqrt_u128(n: u128) -> (r: u64)
    ensures
        r as nat == sqrt_floor(n as nat),
        (r as int) * (r as int) <= n as int,
        (n as int) < ((r as int) + 1) * ((r as int) + 1),
{
    let mut lo: u64 = 0;
    let mut hi: u64 = u64::MAX;
    proof {
        assert((n as int) < (u64::MAX as int + 1) * (u64::MAX as int + 1)) by (nonlinear_arith)
            requires
                n as int <= u128::MAX as int,
        ;
    }
    while lo < hi
        invariant
            lo <= hi,
            (lo as int) * (lo as int) <= n as int,
            (n as int) < ((hi as int) + 1) * ((hi as int) + 1),
        decreases hi - lo,
    {
        proof {
            lemma_div_is_strictly_smaller((hi - lo) as int, 2);
        }
        let mid: u64 = lo + (hi - lo) / 2 + 1;
        proof {
            lemma_mul_upper_bound(mid as int, u64::MAX as int, mid as int, u64::MAX as int);
        }
        let m2: u128 = (mid as u128) * (mid as u128);
        if m2 <= n {
            lo = mid;
        } else {
            hi = mid - 1;
        }
    }
    proof {
        lemma_sqrt_floor_unique(n as nat, lo as nat);
    }
    lo
}

/// Fixed-point square root of a nonnegative fixed-point value.
pub fn fp_sqrt(x: i64) -> (r: i64)
    requires
        x >= 0,
    ensures
        r == fsqrt(x as int),
        r >= 0,
        (r as int) * (r as int) <= (x as int) * (SCALE as int),
        (x as int) * (SCALE as int) < ((r as int) + 1) * ((r as int) + 1),
{
    let n: u128 = (x as u128) * 65536;
    let r: u64 = isqrt_u128(n);
    proof {
        assert((r as int) < 0x100_0000_0000) by (nonlinear_arith)
            requires
                (r as int) * (r as int) <= n as int,
                (n as int) < 0x8000_0000_0000_0000int * 65536,
        ;
    }
    r as i64
}

} // verus!
