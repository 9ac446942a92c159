//! 3-component integer vector algebra.
//!
//! `Vec3` is the one value type the whole geometry is expressed in; `Point3`
//! and `Color` are semantic aliases of it. Contracts speak about the
//! mathematical view `v3`, a triple of unbounded integers, through the spec
//! functions below.

use vstd::prelude::*;
use crate::math::bounded_scalar;
use crate::math::div_trunc;
use crate::math::in_i64;

verus! {

/// A 3-component integer vector, copied freely.
#[derive(Clone, Copy, Debug, PartialEq, Eq, Structural)]
pub struct Vec3 {
    pub e1: i64,
    pub e2: i64,
    pub e3: i64,
}

/// A location in space: the same representation as a displacement.
pub type Point3 = Vec3;

/// A color triple: the same representation as a displacement.
pub type Color = Vec3;

/// The mathematical view of a vector: a triple of unbounded integers.
pub open spec fn v3(v: Vec3) -> (int, int, int) {
    (v.e1 as int, v.e2 as int, v.e3 as int)
}

/// Component-wise negation.
pub open spec fn sneg(a: (int, int, int)) -> (int, int, int) {
    (-a.0, -a.1, -a.2)
}

/// Component-wise vector addition.
pub open spec fn sadd(a: (int, int, int), b: (int, int, int)) -> (int, int, int) {
    (a.0 + b.0, a.1 + b.1, a.2 + b.2)
}

/// Adding one scalar to every component.
pub open spec fn sadd_scalar(a: (int, int, int), t: int) -> (int, int, int) {
    (a.0 + t, a.1 + t, a.2 + t)
}

/// Component-wise vector subtraction.
pub open spec fn ssub(a: (int, int, int), b: (int, int, int)) -> (int, int, int) {
    (a.0 - b.0, a.1 - b.1, a.2 - b.2)
}

/// Subtracting one scalar from every component.
pub open spec fn ssub_scalar(a: (int, int, int), t: int) -> (int, int, int) {
    (a.0 - t, a.1 - t, a.2 - t)
}

/// Scaling every component by one scalar.
pub open spec fn smul(a: (int, int, int), t: int) -> (int, int, int) {
    (a.0 * t, a.1 * t, a.2 * t)
}

/// One component of the truncating quotient by a scalar of either sign.
pub open spec fn sdiv1(n: int, d: int) -> int
    recommends
        d != 0,
{
    if d > 0 {
        div_trunc(n, d)
    } else {
        -div_trunc(n, -d)
    }
}

/// Component-wise truncating division by a scalar.
pub open spec fn sdiv(a: (int, int, int), t: int) -> (int, int, int)
    recommends
        t != 0,
{
    (sdiv1(a.0, t), sdiv1(a.1, t), sdiv1(a.2, t))
}

/// Dot product.
pub open spec fn sdot(a: (int, int, int), b: (int, int, int)) -> int {
    a.0 * b.0 + a.1 * b.1 + a.2 * b.2
}

/// Squared Euclidean length.
pub open spec fn slen_sq(a: (int, int, int)) -> int {
    a.0 * a.0 + a.1 * a.1 + a.2 * a.2
}

/// Cross product by the right-handed determinant expansion.
pub open spec fn scross(a: (int, int, int), b: (int, int, int)) -> (int, int, int) {
    (a.1 * b.2 - a.2 * b.1, a.2 * b.0 - a.0 * b.2, a.0 * b.1 - a.1 * b.0)
}

/// The component selected by an index in `0..3`.
pub open spec fn sindex(a: (int, int, int), i: int) -> int
    recommends
        0 <= i < 3,
{
    if i == 0 {
        a.0
    } else if i == 1 {
        a.1
    } else {
        a.2
    }
}

/// The triple with the component at an index in `0..3` replaced.
pub open spec fn supdate(a: (int, int, int), i: int, value: int) -> (int, int, int)
    recommends
        0 <= i < 3,
{
    if i == 0 {
        (value, a.1, a.2)
    } else if i == 1 {
        (a.0, value, a.2)
    } else {
        (a.0, a.1, value)
    }
}

/// Every component is small enough for the intersection arithmetic.
pub open spec fn bounded_vec(a: (int, int, int)) -> bool {
    bounded_scalar(a.0) && bounded_scalar(a.1) && bounded_scalar(a.2)
}

/// Every component fits the machine word under component-wise addition.
pub open spec fn add_fits(a: (int, int, int), b: (int, int, int)) -> bool {
    in_i64(a.0 + b.0) && in_i64(a.1 + b.1) && in_i64(a.2 + b.2)
}

/// Every component fits the machine word under component-wise subtraction.
pub open spec fn sub_fits(a: (int, int, int), b: (int, int, int)) -> bool {
    in_i64(a.0 - b.0) && in_i64(a.1 - b.1) && in_i64(a.2 - b.2)
}

/// Every component fits the machine word under scaling.
pub open spec fn mul_fits(a: (int, int, int), t: int) -> bool {
    in_i64(a.0 * t) && in_i64(a.1 * t) && in_i64(a.2 * t)
}

/// Every intermediate value of the dot product fits the machine word.
pub open spec fn dot_fits(a: (int, int, int), b: (int, int, int)) -> bool {
    in_i64(a.0 * b.0) && in_i64(a.1 * b.1) && in_i64(a.2 * b.2) && in_i64(
        a.0 * b.0 + a.1 * b.1,
    ) && in_i64(sdot(a, b))
}

/// Every intermediate value of the cross product fits the machine word.
pub open spec fn cross_fits(a: (int, int, int), b: (int, int, int)) -> bool {
    in_i64(a.1 * b.2) && in_i64(a.2 * b.1) && in_i64(a.2 * b.0) && in_i64(a.0 * b.2) && in_i64(
        a.0 * b.1,
    ) && in_i64(a.1 * b.0) && in_i64(a.1 * b.2 - a.2 * b.1) && in_i64(a.2 * b.0 - a.0 * b.2)
        && in_i64(a.0 * b.1 - a.1 * b.0)
}

impl Vec3 {
    /// The zero vector.
    pub fn new() -> (v: Vec3)
        ensures
            v3(v) == (0int, 0int, 0int),
    {
        Vec3 { e1: 0, e2: 0, e3: 0 }
    }

    /// The vector with the given components.
    pub fn build(e1: i64, e2: i64, e3: i64) -> (v: Vec3)
        ensures
            v3(v) == (e1 as int, e2 as int, e3 as int),
    {
        Vec3 { e1, e2, e3 }
    }

    /// First component.
    pub fn x(&self) -> (r: i64)
        ensures
            r == self.e1,
    {
        self.e1
    }

    /// Second component.
    pub fn y(&self) -> (r: i64)
        ensures
            r == self.e2,
    {
        self.e2
    }

    /// Third component.
    pub fn z(&self) -> (r: i64)
        ensures
            r == self.e3,
    {
        self.e3
    }

    /// Squared Euclidean length.
    pub fn length_squared(&self) -> (r: i64)
        requires
            in_i64(slen_sq(v3(*self))),
        ensures
            r == slen_sq(v3(*self)),
    {
        proof {
            crate::math::lemma_square_nonneg(self.e1 as int);
            crate::math::lemma_square_nonneg(self.e2 as int);
            crate::math::lemma_square_nonneg(self.e3 as int);
        }
        self.e1 * self.e1 + self.e2 * self.e2 + self.e3 * self.e3
    }

    /// Floor of the Euclidean length: the largest integer whose square is at
    /// most the squared length.
    pub fn length(&self) -> (r: i64)
        requires
            in_i64(slen_sq(v3(*self))),
        ensures
            r == crate::math::sqrt_floor(slen_sq(v3(*self))),
    {
        proof {
            crate::math::lemma_square_nonneg(self.e1 as int);
            crate::math::lemma_square_nonneg(self.e2 as int);
            crate::math::lemma_square_nonneg(self.e3 as int);
        }
        crate::math::sqrt_floor_i64(self.length_squared())
    }

    /// Component-wise negation.
    pub fn neg(self) -> (r: Vec3)
        requires
            in_i64(-v3(self).0),
            in_i64(-v3(self).1),
            in_i64(-v3(self).2),
        ensures
            v3(r) == sneg(v3(self)),
    {
        Vec3 { e1: -self.e1, e2: -self.e2, e3: -self.e3 }
    }

    /// Component-wise vector addition.
    pub fn add(self, rhs: Vec3) -> (r: Vec3)
        requires
            add_fits(v3(self), v3(rhs)),
        ensures
            v3(r) == sadd(v3(self), v3(rhs)),
    {
        Vec3 { e1: self.e1 + rhs.e1, e2: self.e2 + rhs.e2, e3: self.e3 + rhs.e3 }
    }

    /// Adding one scalar to every component.
    pub fn add_scalar(self, t: i64) -> (r: Vec3)
        requires
            add_fits(v3(self), (t as int, t as int, t as int)),
        ensures
            v3(r) == sadd_scalar(v3(self), t as int),
    {
        Vec3 { e1: self.e1 + t, e2: self.e2 + t, e3: self.e3 + t }
    }

    /// Component-wise vector subtraction.
    pub fn sub(self, rhs: Vec3) -> (r: Vec3)
        requires
            sub_fits(v3(self), v3(rhs)),
        ensures
            v3(r) == ssub(v3(self), v3(rhs)),
    {
        Vec3 { e1: self.e1 - rhs.e1, e2: self.e2 - rhs.e2, e3: self.e3 - rhs.e3 }
    }

    /// Subtracting one scalar from every component.
    pub fn sub_scalar(self, t: i64) -> (r: Vec3)
        requires
            sub_fits(v3(self), (t as int, t as int, t as int)),
        ensures
            v3(r) == ssub_scalar(v3(self), t as int),
    {
        Vec3 { e1: self.e1 - t, e2: self.e2 - t, e3: self.e3 - t }
    }

    /// Scaling every component by one scalar.
    pub fn mul(self, t: i64) -> (r: Vec3)
        requires
            mul_fits(v3(self), t as int),
        ensures
            v3(r) == smul(v3(self), t as int),
    {
        Vec3 { e1: self.e1 * t, e2: self.e2 * t, e3: self.e3 * t }
    }

    /// Component-wise truncating division by a scalar.
    pub fn div(self, t: i64) -> (r: Vec3)
        requires
            t != 0,
            t > i64::MIN,
            v3(self).0 > i64::MIN,
            v3(self).1 > i64::MIN,
            v3(self).2 > i64::MIN,
        ensures
            v3(r) == sdiv(v3(self), t as int),
    {
        if t > 0 {
            Vec3 {
                e1: crate::math::div_trunc_i64(self.e1, t),
                e2: crate::math::div_trunc_i64(self.e2, t),
                e3: crate::math::div_trunc_i64(self.e3, t),
            }
        } else {
            let d = -t;
            let q1 = crate::math::div_trunc_i64(self.e1, d);
            let q2 = crate::math::div_trunc_i64(self.e2, d);
            let q3 = crate::math::div_trunc_i64(self.e3, d);
            proof {
                crate::math::lemma_div_trunc_bound(self.e1 as int, d as int, i64::MAX as int);
                crate::math::lemma_div_trunc_bound(self.e2 as int, d as int, i64::MAX as int);
                crate::math::lemma_div_trunc_bound(self.e3 as int, d as int, i64::MAX as int);
            }
            Vec3 { e1: -q1, e2: -q2, e3: -q3 }
        }
    }

    /// The component selected by an index in `0..3`; any other index is a
    /// precondition violation.
    pub fn index(&self, i: usize) -> (r: i64)
        requires
            i < 3,
        ensures
            r == sindex(v3(*self), i as int),
    {
        if i == 0 {
            self.e1
        } else if i == 1 {
            self.e2
        } else {
            self.e3
        }
    }

    /// Replaces the component selected by an index in `0..3`; any other
    /// index is a precondition violation.
    pub fn set(&mut self, i: usize, value: i64)
        requires
            i < 3,
        ensures
            v3(*final(self)) == supdate(v3(*old(self)), i as int, value as int),
    {
        if i == 0 {
            self.e1 = value;
        } else if i == 1 {
            self.e2 = value;
        } else {
            self.e3 = value;
        }
    }
}

/// Dot product.
pub fn dot(v1: &Vec3, v2: &Vec3) -> (r: i64)
    requires
        dot_fits(v3(*v1), v3(*v2)),
    ensures
        r == sdot(v3(*v1), v3(*v2)),
{
    v1.e1 * v2.e1 + v1.e2 * v2.e2 + v1.e3 * v2.e3
}

/// Cross product.
pub fn cross(u: &Vec3, v: &Vec3) -> (r: Vec3)
    requires
        cross_fits(v3(*u), v3(*v)),
    ensures
        v3(r) == scross(v3(*u), v3(*v)),
{
    Vec3 {
        e1: u.e2 * v.e3 - u.e3 * v.e2,
        e2: u.e3 * v.e1 - u.e1 * v.e3,
        e3: u.e1 * v.e2 - u.e2 * v.e1,
    }
}

/// Lagrange's identity: the squared length of the cross product is the
/// product of the squared lengths minus the squared dot product.
pub proof fn lemma_lagrange_identity(a: (int, int, int), b: (int, int, int))
    ensures
        slen_sq(a) * slen_sq(b) - sdot(a, b) * sdot(a, b) == slen_sq(scross(a, b)),
{
    let (a0, a1, a2) = a;
    let (b0, b1, b2) = b;
    // The product of the squared lengths, distributed into nine monomials.
    crate::math::lemma_distrib_3x3(a0 * a0, a1 * a1, a2 * a2, b0 * b0, b1 * b1, b2 * b2);
    crate::math::lemma_mul_shuffle(a0, a0, b0, b0);
    crate::math::lemma_mul_shuffle(a0, a0, b1, b1);
    crate::math::lemma_mul_shuffle(a0, a0, b2, b2);
    crate::math::lemma_mul_shuffle(a1, a1, b0, b0);
    crate::math::lemma_mul_shuffle(a1, a1, b1, b1);
    crate::math::lemma_mul_shuffle(a1, a1, b2, b2);
    crate::math::lemma_mul_shuffle(a2, a2, b0, b0);
    crate::math::lemma_mul_shuffle(a2, a2, b1, b1);
    crate::math::lemma_mul_shuffle(a2, a2, b2, b2);
    // The squared dot product, with each mixed term regrouped to match the
    // cross-product monomials.
    crate::math::lemma_square_sum3(a0 * b0, a1 * b1, a2 * b2);
    crate::math::lemma_mul_shuffle(a0, b0, a1, b1);
    crate::math::lemma_mul_shuffle(a0, b0, a2, b2);
    crate::math::lemma_mul_shuffle(a1, b1, a2, b2);
    crate::math::lemma_mul_comm(a0 * b2, a2 * b0);
    crate::math::lemma_mul_comm(a0 * b1, a1 * b0);
    crate::math::lemma_mul_comm(a1 * b2, a2 * b1);
    // The squared length of the cross product, expanded.
    crate::math::lemma_square_diff(a1 * b2, a2 * b1);
    crate::math::lemma_square_diff(a2 * b0, a0 * b2);
    crate::math::lemma_square_diff(a0 * b1, a1 * b0);
}

/// The dot product of a vector with itself is its squared length.
pub proof fn lemma_dot_self_is_length_squared(a: (int, int, int))
    ensures
        sdot(a, a) == slen_sq(a),
{
}

/// The cross product is antisymmetric.
pub proof fn lemma_cross_antisymmetric(a: (int, int, int), b: (int, int, int))
    ensures
        scross(a, b) == sneg(scross(b, a)),
{
}

/// Vector addition is commutative.
pub proof fn lemma_add_commutative(a: (int, int, int), b: (int, int, int))
    ensures
        sadd(a, b) == sadd(b, a),
{
}

/// Vector addition is associative.
pub proof fn lemma_add_associative(a: (int, int, int), b: (int, int, int), c: (int, int, int))
    ensures
        sadd(sadd(a, b), c) == sadd(a, sadd(b, c)),
{
}

/// Subtraction undoes addition.
pub proof fn lemma_sub_undoes_add(a: (int, int, int), b: (int, int, int))
    ensures
        ssub(sadd(a, b), b) == a,
{
}

/// Scaling distributes over vector addition.
pub proof fn lemma_scale_distributes_over_add(a: (int, int, int), b: (int, int, int), t: int)
    ensures
        smul(sadd(a, b), t) == sadd(smul(a, t), smul(b, t)),
{
    assert((a.0 + b.0) * t == a.0 * t + b.0 * t) by (nonlinear_arith);
    assert((a.1 + b.1) * t == a.1 * t + b.1 * t) by (nonlinear_arith);
    assert((a.2 + b.2) * t == a.2 * t + b.2 * t) by (nonlinear_arith);
}

/// Scaling distributes over scalar addition.
pub proof fn lemma_scale_distributes_over_scalars(a: (int, int, int), s: int, t: int)
    ensures
        smul(a, s + t) == sadd(smul(a, s), smul(a, t)),
{
    assert(a.0 * (s + t) == a.0 * s + a.0 * t) by (nonlinear_arith);
    assert(a.1 * (s + t) == a.1 * s + a.1 * t) by (nonlinear_arith);
    assert(a.2 * (s + t) == a.2 * s + a.2 * t) by (nonlinear_arith);
}

/// Scaling twice is scaling by the product.
pub proof fn lemma_scale_associative(a: (int, int, int), s: int, t: int)
    ensures
        smul(smul(a, s), t) == smul(a, s * t),
{
    assert((a.0 * s) * t == a.0 * (s * t)) by (nonlinear_arith);
    assert((a.1 * s) * t == a.1 * (s * t)) by (nonlinear_arith);
    assert((a.2 * s) * t == a.2 * (s * t)) by (nonlinear_arith);
}

} // verus!
