//! Scalar arithmetic for the geometry engine.
//!
//! Scalars are plain 64-bit integers, so every geometric quantity is exact.
//! Where the real-valued formulation of the ray-sphere test takes a square
//! root or a quotient, this engine uses the floor square root and the
//! truncating (round-toward-zero) quotient, and the contracts say so
//! exactly.

use vstd::prelude::*;

verus! {

/// Coordinate limit under which the whole intersection computation stays
/// inside `i64`: the discriminant of the ray-sphere quadratic is a degree-4
/// polynomial in the coordinates, and with every coordinate, radius and
/// accepted parameter bounded by `SCALAR_BOUND` its magnitude stays below
/// `72 * SCALAR_BOUND^4 < i64::MAX`.
pub const SCALAR_BOUND: i64 = 16384;

/// The scalar fits the machine word.
pub open spec fn in_i64(n: int) -> bool {
    i64::MIN <= n <= i64::MAX
}

/// A scalar small enough to take part in the intersection arithmetic.
pub open spec fn bounded_scalar(n: int) -> bool {
    -(SCALAR_BOUND as int) <= n <= SCALAR_BOUND as int
}

/// Truncating (round-toward-zero) quotient: the rounding Rust's integer
/// division uses. On a nonnegative dividend it agrees with the Euclidean
/// quotient of spec arithmetic.
pub open spec fn div_trunc(n: int, d: int) -> int
    recommends
        d > 0,
{
    if n >= 0 {
        n / d
    } else {
        -((-n) / d)
    }
}

/// `r` is the floor square root of `n`.
pub open spec fn is_sqrt_floor(n: int, r: int) -> bool {
    0 <= r && r * r <= n && n < (r + 1) * (r + 1)
}

/// The floor square root of a nonnegative scalar.
pub open spec fn sqrt_floor(n: int) -> int
    recommends
        n >= 0,
{
    choose|r: int| is_sqrt_floor(n, r)
}

/// Two floor square roots of the same scalar are equal.
pub proof fn lemma_sqrt_floor_unique(n: int, r1: int, r2: int)
    requires
        is_sqrt_floor(n, r1),
        is_sqrt_floor(n, r2),
    ensures
        r1 == r2,
{
    assert(r1 == r2) by (nonlinear_arith)
        requires
            is_sqrt_floor(n, r1),
            is_sqrt_floor(n, r2);
}

/// Any witness of `is_sqrt_floor` is the value `sqrt_floor` denotes.
pub proof fn lemma_sqrt_floor_is(n: int, r: int)
    requires
        is_sqrt_floor(n, r),
    ensures
        sqrt_floor(n) == r,
{
    let w = choose|w: int| is_sqrt_floor(n, w);
    lemma_sqrt_floor_unique(n, w, r);
}

/// Floor square root by bisection over the answer range.
pub fn isqrt_u64(n: u64) -> (r: u64)
    ensures
        is_sqrt_floor(n as int, r as int),
{
    let mut lo: u64 = 0;
    let mut hi: u64 = 0xffff_ffff;
    if n >= 0xffff_fffe_0000_0001 {
        // (2^32 - 1)^2 = 0xffff_fffe_0000_0001 is the largest square of the
        // answer range, so everything at or above it has root 2^32 - 1.
        return 0xffff_ffff;
    }
    while lo < hi
        invariant
            lo <= hi <= 0xffff_ffff,
            lo * lo <= n,
            n < (hi + 1) * (hi + 1),
        decreases hi - lo,
    {
        let mid: u64 = lo + (hi - lo + 1) / 2;
        assert(lo < mid <= hi);
        assert((mid as int) * (mid as int) <= 0xffff_fffe_0000_0001) by (nonlinear_arith)
            requires
                mid <= 0xffff_ffff;
        if mid * mid <= n {
            lo = mid;
        } else {
            hi = mid - 1;
        }
    }
    lo
}

/// Floor square root of a nonnegative `i64` scalar.
pub fn sqrt_floor_i64(n: i64) -> (r: i64)
    requires
        n >= 0,
    ensures
        r == sqrt_floor(n as int),
        is_sqrt_floor(n as int, r as int),
{
    let r = isqrt_u64(n as u64);
    assert((r as int) * (r as int) <= n as int);
    assert((n as int) < 0x8000_0000_0000_0000);
    assert(r < 0xb505_0000u64) by (nonlinear_arith)
        requires
            (r as int) * (r as int) < 0x8000_0000_0000_0000;
    proof {
        lemma_sqrt_floor_is(n as int, r as int);
    }
    r as i64
}

/// Truncating quotient of `i64` scalars, computed on magnitudes.
pub fn div_trunc_i64(n: i64, d: i64) -> (q: i64)
    requires
        d > 0,
        n > i64::MIN,
    ensures
        q == div_trunc(n as int, d as int),
{
    if n >= 0 {
        let q = (n as u64) / (d as u64);
        assert(q as int == n as int / d as int) by {
            assert(n as u64 as int == n as int);
            assert(d as u64 as int == d as int);
        }
        assert(n as int / d as int <= n as int) by (nonlinear_arith)
            requires
                n >= 0,
                d as int >= 1;
        q as i64
    } else {
        let m = (-n) as u64;
        let q = m / (d as u64);
        assert(q as int == (-n as int) / d as int);
        assert((-n as int) / d as int <= -n as int) by (nonlinear_arith)
            requires
                n < 0,
                d as int >= 1;
        -(q as i64)
    }
}

/// The truncating quotient by a positive divisor is monotone in the
/// dividend.
pub proof fn lemma_div_trunc_monotone(n1: int, n2: int, d: int)
    requires
        n1 <= n2,
        d > 0,
    ensures
        div_trunc(n1, d) <= div_trunc(n2, d),
{
    if n1 >= 0 {
        vstd::arithmetic::div_mod::lemma_div_is_ordered(n1, n2, d);
    } else if n2 < 0 {
        vstd::arithmetic::div_mod::lemma_div_is_ordered(-n2, -n1, d);
    } else {
        vstd::arithmetic::div_mod::lemma_div_pos_is_pos(-n1, d);
        vstd::arithmetic::div_mod::lemma_div_pos_is_pos(n2, d);
    }
}

/// Dividing by a positive scalar does not grow the magnitude.
pub proof fn lemma_div_trunc_bound(n: int, d: int, b: int)
    requires
        d > 0,
        -b <= n <= b,
        0 <= b,
    ensures
        -b <= div_trunc(n, d) <= b,
{
    if n >= 0 {
        vstd::arithmetic::div_mod::lemma_div_pos_is_pos(n, d);
        vstd::arithmetic::div_mod::lemma_div_nonincreasing(n, d);
    } else {
        vstd::arithmetic::div_mod::lemma_div_pos_is_pos(-n, d);
        vstd::arithmetic::div_mod::lemma_div_nonincreasing(-n, d);
    }
}


/// Product of magnitude-bounded scalars is magnitude-bounded.
pub proof fn lemma_mul_bound(x: int, y: int, bx: int, by: int)
    requires
        -bx <= x <= bx,
        -by <= y <= by,
        0 <= bx,
        0 <= by,
    ensures
        -(bx * by) <= x * y <= bx * by,
{
    assert(-(bx * by) <= x * y <= bx * by) by (nonlinear_arith)
        requires
            -bx <= x <= bx,
            -by <= y <= by,
            0 <= bx,
            0 <= by;
}

/// Every nonnegative scalar has a floor square root.
pub proof fn lemma_sqrt_floor_exists(n: int)
    requires
        0 <= n,
    ensures
        is_sqrt_floor(n, sqrt_floor(n)),
    decreases n,
{
    if n == 0 {
        assert(is_sqrt_floor(0, 0));
        lemma_sqrt_floor_is(0, 0);
    } else {
        lemma_sqrt_floor_exists(n - 1);
        let p = sqrt_floor(n - 1);
        if (p + 1) * (p + 1) <= n {
            assert(is_sqrt_floor(n, p + 1)) by (nonlinear_arith)
                requires
                    is_sqrt_floor(n - 1, p),
                    (p + 1) * (p + 1) <= n;
            lemma_sqrt_floor_is(n, p + 1);
        } else {
            assert(is_sqrt_floor(n, p));
            lemma_sqrt_floor_is(n, p);
        }
    }
}

/// The floor square root of a scalar below a square is below its root.
pub proof fn lemma_sqrt_floor_le(n: int, b: int)
    requires
        0 <= n,
        0 <= b,
        n <= b * b,
    ensures
        0 <= sqrt_floor(n) <= b,
{
    lemma_sqrt_floor_exists(n);
    let r = sqrt_floor(n);
    assert(r <= b) by (nonlinear_arith)
        requires
            is_sqrt_floor(n, r),
            0 <= b,
            n <= b * b;
}

/// Multiplication is commutative.
pub proof fn lemma_mul_comm(x: int, y: int)
    ensures
        x * y == y * x,
{
}

/// Distributing a product of two three-term sums.
pub proof fn lemma_distrib_3x3(p: int, q: int, r: int, x: int, y: int, z: int)
    ensures
        (p + q + r) * (x + y + z) == p * x + p * y + p * z + q * x + q * y + q * z + r * x + r * y
            + r * z,
{
    assert((p + q + r) * (x + y + z) == p * x + p * y + p * z + q * x + q * y + q * z + r * x + r
        * y + r * z) by (nonlinear_arith);
}

/// Squaring a three-term sum.
pub proof fn lemma_square_sum3(u: int, v: int, w: int)
    ensures
        (u + v + w) * (u + v + w) == u * u + v * v + w * w + 2 * (u * v) + 2 * (u * w) + 2 * (v
            * w),
{
    assert((u + v + w) * (u + v + w) == u * u + v * v + w * w + 2 * (u * v) + 2 * (u * w) + 2 * (v
        * w)) by (nonlinear_arith);
}

/// Squaring a difference.
pub proof fn lemma_square_diff(x: int, y: int)
    ensures
        (x - y) * (x - y) == x * x - 2 * (x * y) + y * y,
{
    assert((x - y) * (x - y) == x * x - 2 * (x * y) + y * y) by (nonlinear_arith);
}

/// Regrouping a product of two products.
pub proof fn lemma_mul_shuffle(x: int, y: int, z: int, w: int)
    ensures
        (x * y) * (z * w) == (x * z) * (y * w),
        (x * y) * (z * w) == (x * w) * (z * y),
{
    assert((x * y) * (z * w) == (x * z) * (y * w) && (x * y) * (z * w) == (x * w) * (z
        * y)) by (nonlinear_arith);
}

/// Expanding the square of an affine form.
pub proof fn lemma_affine_square(u: int, v: int, t: int)
    ensures
        (u + v * t) * (u + v * t) == u * u + 2 * ((u * v) * t) + (v * v) * (t * t),
{
    assert((u + v * t) * (u + v * t) == u * u + 2 * ((u * v) * t) + (v * v) * (t
        * t)) by (nonlinear_arith);
}

/// Factoring a shared right factor out of a three-term sum.
pub proof fn lemma_factor_right(x: int, y: int, z: int, w: int)
    ensures
        x * w + y * w + z * w == (x + y + z) * w,
{
    assert(x * w + y * w + z * w == (x + y + z) * w) by (nonlinear_arith);
}

/// A square is never negative.
pub proof fn lemma_square_nonneg(x: int)
    ensures
        x * x >= 0,
{
    assert(x * x >= 0) by (nonlinear_arith);
}

} // verus!
