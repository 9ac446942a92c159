//! Rays: an origin point plus a direction vector, with the parametric
//! position evaluator `at`.

use vstd::prelude::*;
use crate::math::in_i64;
use crate::vec3::Point3;
use crate::vec3::Vec3;
use crate::vec3::bounded_vec;
use crate::vec3::sadd;
use crate::vec3::smul;
use crate::vec3::v3;

verus! {

/// An origin point and a direction vector; immutable once constructed. The
/// direction carries no normalization requirement.
#[derive(Clone, Copy, Debug, PartialEq, Eq, Structural)]
pub struct Ray {
    pub orig: Point3,
    pub dir: Vec3,
}

/// The point a ray reaches at parameter `t`: origin plus `t` times the
/// direction. The parameter may be negative.
pub open spec fn ray_at(r: Ray, t: int) -> (int, int, int) {
    sadd(v3(r.orig), smul(v3(r.dir), t))
}

/// Every coordinate of the ray is small enough for the intersection
/// arithmetic.
pub open spec fn ray_bounded(r: Ray) -> bool {
    bounded_vec(v3(r.orig)) && bounded_vec(v3(r.dir))
}

/// Every intermediate value of `ray_at` fits the machine word.
pub open spec fn at_fits(r: Ray, t: int) -> bool {
    in_i64(v3(r.dir).0 * t) && in_i64(v3(r.dir).1 * t) && in_i64(v3(r.dir).2 * t) && in_i64(
        ray_at(r, t).0,
    ) && in_i64(ray_at(r, t).1) && in_i64(ray_at(r, t).2)
}

impl Ray {
    /// The ray at the origin with the zero direction.
    pub fn new() -> (r: Ray)
        ensures
            v3(r.orig) == (0int, 0int, 0int),
            v3(r.dir) == (0int, 0int, 0int),
    {
        Ray { orig: Point3::new(), dir: Vec3::new() }
    }

    /// The ray with the given origin and direction.
    pub fn build(orig: Point3, dir: Vec3) -> (r: Ray)
        ensures
            r.orig == orig,
            r.dir == dir,
    {
        Ray { orig, dir }
    }

    /// The point the ray reaches at parameter `t`.
    pub fn at(&self, t: i64) -> (p: Vec3)
        requires
            at_fits(*self, t as int),
        ensures
            v3(p) == ray_at(*self, t as int),
    {
        Vec3 {
            e1: self.orig.e1 + self.dir.e1 * t,
            e2: self.orig.e2 + self.dir.e2 * t,
            e3: self.orig.e3 + self.dir.e3 * t,
        }
    }

    /// The direction vector.
    pub fn direction(&self) -> (d: &Vec3)
        ensures
            *d == self.dir,
    {
        &self.dir
    }

    /// The origin point.
    pub fn origin(&self) -> (o: &Point3)
        ensures
            *o == self.orig,
    {
        &self.orig
    }
}

/// At parameter zero a ray sits at its origin.
pub proof fn lemma_at_zero(r: Ray)
    ensures
        ray_at(r, 0) == v3(r.orig),
{
}

/// Position is affine in the parameter: moving the parameter by `t` moves
/// the position by `t` times the direction.
pub proof fn lemma_at_affine(r: Ray, s: int, t: int)
    ensures
        ray_at(r, s + t) == sadd(ray_at(r, s), smul(v3(r.dir), t)),
{
    let d = v3(r.dir);
    assert(d.0 * (s + t) == d.0 * s + d.0 * t) by (nonlinear_arith);
    assert(d.1 * (s + t) == d.1 * s + d.1 * t) by (nonlinear_arith);
    assert(d.2 * (s + t) == d.2 * s + d.2 * t) by (nonlinear_arith);
}

} // verus!
