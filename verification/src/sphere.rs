//! The sphere primitive and its ray intersection test.
//!
//! Substituting the ray into `|R(t) - C|^2 = r^2` gives a quadratic in `t`;
//! the test solves it exactly over integer scalars, takes the floor square
//! root of the discriminant, and accepts the near root first, falling back
//! to the far root only when the near one lies outside the open query range.
//! Only a strictly positive discriminant counts as an intersection: an
//! exactly tangent ray is excluded.

use vstd::prelude::*;
use crate::hit::HitRecord;
use crate::hit::Hittable;
use crate::math::SCALAR_BOUND;
use crate::math::div_trunc;
use crate::math::lemma_div_trunc_bound;
use crate::math::lemma_div_trunc_monotone;
use crate::math::lemma_mul_bound;
use crate::math::lemma_square_nonneg;
use crate::math::lemma_sqrt_floor_le;
use crate::math::sqrt_floor;
use crate::ray::Ray;
use crate::ray::at_fits;
use crate::ray::ray_at;
use crate::ray::ray_bounded;
use crate::vec3::Point3;
use crate::vec3::bounded_vec;
use crate::vec3::dot;
use crate::vec3::lemma_lagrange_identity;
use crate::vec3::scross;
use crate::vec3::sdot;
use crate::vec3::slen_sq;
use crate::vec3::sneg;
use crate::vec3::ssub;
use crate::vec3::v3;

verus! {

/// A sphere: center point and non-negative radius. Immutable value.
#[derive(Clone, Copy, Debug, PartialEq, Eq, Structural)]
pub struct Sphere {
    pub center: Point3,
    pub radius: i64,
}

/// The sphere's coordinates are small enough for the exact intersection
/// arithmetic.
pub open spec fn sphere_wf(s: Sphere) -> bool {
    bounded_vec(v3(s.center)) && 0 <= s.radius && s.radius <= SCALAR_BOUND
}

/// Origin-to-center offset `O - C` of the quadratic.
pub open spec fn sphere_oc(s: Sphere, r: Ray) -> (int, int, int) {
    ssub(v3(r.orig), v3(s.center))
}

/// Leading coefficient `a = D . D`.
pub open spec fn sphere_a(s: Sphere, r: Ray) -> int {
    sdot(v3(r.dir), v3(r.dir))
}

/// Half the linear coefficient: `half_b = (O - C) . D`.
pub open spec fn sphere_half_b(s: Sphere, r: Ray) -> int {
    sdot(sphere_oc(s, r), v3(r.dir))
}

/// Constant coefficient `c = |O - C|^2 - r^2`.
pub open spec fn sphere_c(s: Sphere, r: Ray) -> int {
    slen_sq(sphere_oc(s, r)) - s.radius * s.radius
}

/// The discriminant `half_b^2 - a c` whose sign decides real-root existence.
pub open spec fn sphere_discriminant(s: Sphere, r: Ray) -> int {
    sphere_half_b(s, r) * sphere_half_b(s, r) - sphere_a(s, r) * sphere_c(s, r)
}

/// Floor square root of the discriminant.
pub open spec fn sphere_sqrt_disc(s: Sphere, r: Ray) -> int {
    sqrt_floor(sphere_discriminant(s, r))
}

/// The near root `(-half_b - sqrt(disc)) / a`, rounded toward zero.
pub open spec fn sphere_near_root(s: Sphere, r: Ray) -> int
    recommends
        sphere_discriminant(s, r) > 0,
{
    div_trunc(-sphere_half_b(s, r) - sphere_sqrt_disc(s, r), sphere_a(s, r))
}

/// The far root `(-half_b + sqrt(disc)) / a`, rounded toward zero.
pub open spec fn sphere_far_root(s: Sphere, r: Ray) -> int
    recommends
        sphere_discriminant(s, r) > 0,
{
    div_trunc(-sphere_half_b(s, r) + sphere_sqrt_disc(s, r), sphere_a(s, r))
}

/// The parameter a query with lower bound `t_min` would report, if any: the
/// near root when it lies strictly above `t_min`, else the far root when it
/// does, else nothing. A query on `(t_min, t_max)` accepts exactly this
/// candidate, and only when it also lies strictly below `t_max`.
pub open spec fn sphere_candidate(s: Sphere, r: Ray, t_min: int) -> Option<int> {
    if sphere_discriminant(s, r) <= 0 {
        None
    } else if t_min < sphere_near_root(s, r) {
        Some(sphere_near_root(s, r))
    } else if t_min < sphere_far_root(s, r) {
        Some(sphere_far_root(s, r))
    } else {
        None
    }
}

/// The outward surface direction at the hit parameter `t`: the exact offset
/// from the center to the hit point. The real-valued engine divides this by
/// the radius to make it unit length; over integer scalars that quotient
/// could collapse to the zero vector and lose the direction, so the record
/// carries the offset itself, which is nonzero at every off-center hit
/// point and exact in direction.
pub open spec fn sphere_outward_offset(s: Sphere, r: Ray, t: int) -> (int, int, int) {
    ssub(ray_at(r, t), v3(s.center))
}

/// What a successful sphere test wrote into the record, as a function of the
/// accepted parameter `rec.t`: the hit point on the ray, and the outward
/// offset oriented against the incoming ray with the face flag set. The face
/// flag comes from the exact geometric sign of the dot product with the
/// untruncated offset; only a hit landing on the exact center (possible only
/// through root rounding when the ray passes through it) has a zero offset,
/// and counts as back-face.
pub open spec fn sphere_hit_record_for(s: Sphere, r: Ray, rec: HitRecord) -> bool {
    let n = sphere_outward_offset(s, r, rec.t as int);
    v3(rec.p) == ray_at(r, rec.t as int) && rec.front_face == (sdot(v3(r.dir), n) < 0) && v3(
        rec.normal,
    ) == (if sdot(v3(r.dir), n) < 0 {
        n
    } else {
        sneg(n)
    })
}

/// A populated record's normal opposes the incoming ray, and is nonzero
/// whenever the hit point is off-center: the oriented offset keeps the exact
/// surface direction that the real-valued engine's unit normal carries.
pub proof fn lemma_record_normal_opposes_ray(s: Sphere, r: Ray, rec: HitRecord)
    requires
        sphere_hit_record_for(s, r, rec),
    ensures
        sdot(v3(r.dir), v3(rec.normal)) <= 0,
        v3(rec.p) != v3(s.center) ==> v3(rec.normal) != (0int, 0int, 0int),
{
    let d = v3(r.dir);
    let n = sphere_outward_offset(s, r, rec.t as int);
    if !(sdot(d, n) < 0) {
        assert(d.0 * (-n.0) == -(d.0 * n.0)) by (nonlinear_arith);
        assert(d.1 * (-n.1) == -(d.1 * n.1)) by (nonlinear_arith);
        assert(d.2 * (-n.2) == -(d.2 * n.2)) by (nonlinear_arith);
        assert(sdot(d, sneg(n)) == -sdot(d, n));
    }
}

/// A nonzero discriminant needs a nonzero direction, so the leading
/// coefficient is at least one.
pub proof fn lemma_nonzero_disc_gives_positive_a(s: Sphere, r: Ray)
    requires
        sphere_discriminant(s, r) != 0,
    ensures
        sphere_a(s, r) >= 1,
{
    let d = v3(r.dir);
    lemma_square_nonneg(d.0);
    lemma_square_nonneg(d.1);
    lemma_square_nonneg(d.2);
    if sphere_a(s, r) <= 0 {
        assert(d.0 * d.0 == 0 && d.1 * d.1 == 0 && d.2 * d.2 == 0);
        assert(d.0 == 0) by (nonlinear_arith)
            requires
                d.0 * d.0 == 0;
        assert(d.1 == 0) by (nonlinear_arith)
            requires
                d.1 * d.1 == 0;
        assert(d.2 == 0) by (nonlinear_arith)
            requires
                d.2 * d.2 == 0;
        let o = sphere_oc(s, r);
        assert(o.0 * d.0 == 0 && o.1 * d.1 == 0 && o.2 * d.2 == 0) by (nonlinear_arith)
            requires
                d.0 == 0 && d.1 == 0 && d.2 == 0;
        assert(sphere_half_b(s, r) == 0);
        let hb = sphere_half_b(s, r);
        let c = sphere_c(s, r);
        assert(hb * hb == 0 && sphere_a(s, r) * c == 0) by (nonlinear_arith)
            requires
                hb == 0 && sphere_a(s, r) == 0;
        assert(sphere_discriminant(s, r) == 0);
    }
}

/// A negative discriminant means the quadratic has no real root, so no
/// parameter at all puts the ray on the sphere: at every integer parameter
/// the squared distance from the ray's position to the center exceeds the
/// squared radius, and every query reports a miss.
pub proof fn lemma_negative_disc_means_miss(s: Sphere, r: Ray, t: int)
    requires
        sphere_discriminant(s, r) < 0,
    ensures
        slen_sq(sphere_outward_offset(s, r, t)) > s.radius * s.radius,
        sphere_candidate(s, r, t) is None,
{
    lemma_nonzero_disc_gives_positive_a(s, r);
    let o = sphere_oc(s, r);
    let d = v3(r.dir);
    let a = sphere_a(s, r);
    let hb = sphere_half_b(s, r);
    let c = sphere_c(s, r);
    let q = slen_sq(sphere_outward_offset(s, r, t)) - s.radius * s.radius;
    assert(sphere_outward_offset(s, r, t) == (o.0 + d.0 * t, o.1 + d.1 * t, o.2 + d.2 * t));
    crate::math::lemma_affine_square(o.0, d.0, t);
    crate::math::lemma_affine_square(o.1, d.1, t);
    crate::math::lemma_affine_square(o.2, d.2, t);
    crate::math::lemma_factor_right(o.0 * d.0, o.1 * d.1, o.2 * d.2, t);
    crate::math::lemma_factor_right(d.0 * d.0, d.1 * d.1, d.2 * d.2, t * t);
    assert(q == c + 2 * (hb * t) + a * (t * t));
    // Completing the square: `a` times the centered distance excess is the
    // squared linear form minus the discriminant.
    assert(a * q == (a * t + hb) * (a * t + hb) - (hb * hb - a * c)) by (nonlinear_arith)
        requires
            q == c + 2 * (hb * t) + a * (t * t);
    lemma_square_nonneg(a * t + hb);
    assert(a * q > 0);
    assert(q > 0) by (nonlinear_arith)
        requires
            a >= 1,
            a * q > 0;
}

/// A degenerate sphere of radius zero is never hit: by Lagrange's identity
/// the discriminant is then at most zero, so no query reports a candidate.
pub proof fn lemma_degenerate_sphere_misses(s: Sphere, r: Ray)
    requires
        s.radius == 0,
    ensures
        sphere_discriminant(s, r) <= 0,
        forall|t_min: int| (#[trigger] sphere_candidate(s, r, t_min)) is None,
{
    let o = sphere_oc(s, r);
    let d = v3(r.dir);
    let a = sphere_a(s, r);
    let l = slen_sq(o);
    let rr = s.radius * s.radius;
    lemma_lagrange_identity(o, d);
    let cr = scross(o, d);
    lemma_square_nonneg(cr.0);
    lemma_square_nonneg(cr.1);
    lemma_square_nonneg(cr.2);
    assert(sdot(o, d) * sdot(o, d) <= l * slen_sq(d));
    crate::math::lemma_mul_comm(l, slen_sq(d));
    assert(a * (l - rr) == a * l - a * rr) by (nonlinear_arith);
    assert(rr == 0);
    assert(a * rr == 0);
    assert(sphere_discriminant(s, r) <= 0);
}

impl Sphere {
    /// The degenerate sphere at the origin with radius zero.
    pub fn new() -> (s: Sphere)
        ensures
            v3(s.center) == (0int, 0int, 0int),
            s.radius == 0,
    {
        Sphere { center: Point3::new(), radius: 0 }
    }

    /// The sphere with the given center and radius; a negative radius is a
    /// construction-time precondition violation.
    pub fn build(center: Point3, radius: i64) -> (s: Sphere)
        requires
            radius >= 0,
        ensures
            s.center == center,
            s.radius == radius,
    {
        Sphere { center, radius }
    }
}

impl Hittable for Sphere {
    open spec fn wf(&self) -> bool {
        sphere_wf(*self)
    }

    open spec fn candidate(&self, r: Ray, t_min: int) -> Option<int> {
        sphere_candidate(*self, r, t_min)
    }

    open spec fn hit_record_for(&self, r: Ray, t_min: int, rec: HitRecord) -> bool {
        sphere_hit_record_for(*self, r, rec)
    }

    fn hit(&self, r: &Ray, t_min: i64, t_max: i64, rec: &mut HitRecord) -> (b: bool) {
        // The literal bounds in the proofs below are products of powers of
        // SCALAR_BOUND = 2^14: with every input coordinate within it, each
        // intermediate value stays within the stated multiple of it, and in
        // particular the discriminant within 72 * 2^56 < i64::MAX.
        proof {
            let d = v3(r.dir);
            let q = v3(r.orig);
            let ce = v3(self.center);
            lemma_mul_bound(d.0, d.0, 16384, 16384);
            lemma_mul_bound(d.1, d.1, 16384, 16384);
            lemma_mul_bound(d.2, d.2, 16384, 16384);
            lemma_square_nonneg(d.0);
            lemma_square_nonneg(d.1);
            lemma_square_nonneg(d.2);
            lemma_mul_bound(q.0 - ce.0, d.0, 32768, 16384);
            lemma_mul_bound(q.1 - ce.1, d.1, 32768, 16384);
            lemma_mul_bound(q.2 - ce.2, d.2, 32768, 16384);
            lemma_mul_bound(q.0 - ce.0, q.0 - ce.0, 32768, 32768);
            lemma_mul_bound(q.1 - ce.1, q.1 - ce.1, 32768, 32768);
            lemma_mul_bound(q.2 - ce.2, q.2 - ce.2, 32768, 32768);
            lemma_square_nonneg(q.0 - ce.0);
            lemma_square_nonneg(q.1 - ce.1);
            lemma_square_nonneg(q.2 - ce.2);
            lemma_mul_bound(self.radius as int, self.radius as int, 16384, 16384);
            lemma_square_nonneg(self.radius as int);
        }
        let oc = r.origin().sub(self.center);
        let a = r.direction().length_squared();
        let half_b = dot(&oc, r.direction());
        let c = oc.length_squared() - self.radius * self.radius;
        proof {
            lemma_mul_bound(half_b as int, half_b as int, 1610612736, 1610612736);
            lemma_square_nonneg(half_b as int);
            lemma_mul_bound(a as int, c as int, 805306368, 3221225472);
        }
        let discriminant = half_b * half_b - a * c;
        assert(discriminant == sphere_discriminant(*self, *r));
        if discriminant > 0 {
            proof {
                lemma_nonzero_disc_gives_positive_a(*self, *r);
                lemma_sqrt_floor_le(discriminant as int, 2415919104);
            }
            let sqrtd = crate::math::sqrt_floor_i64(discriminant);
            proof {
                lemma_div_trunc_bound(-half_b - sqrtd, a as int, 4026531840);
                lemma_div_trunc_bound(-half_b + sqrtd, a as int, 4026531840);
                lemma_div_trunc_monotone(
                    -half_b - sqrtd,
                    -half_b + sqrtd,
                    a as int,
                );
            }
            let root = crate::math::div_trunc_i64(-half_b - sqrtd, a);
            assert(root == sphere_near_root(*self, *r));
            if root < t_max && root > t_min {
                self.write_hit(r, root, rec);
                assert(sphere_candidate(*self, *r, t_min as int) == Some(root as int));
                return true;
            }
            let root = crate::math::div_trunc_i64(-half_b + sqrtd, a);
            assert(root == sphere_far_root(*self, *r));
            if root < t_max && root > t_min {
                assert(sphere_near_root(*self, *r) <= t_min);
                self.write_hit(r, root, rec);
                assert(sphere_candidate(*self, *r, t_min as int) == Some(root as int));
                return true;
            }
        }
        false
    }
}

impl Sphere {
    /// Fills the record for an accepted root: the hit parameter, the hit
    /// point, and the outward offset oriented against the incoming ray.
    fn write_hit(&self, r: &Ray, root: i64, rec: &mut HitRecord)
        requires
            sphere_wf(*self),
            ray_bounded(*r),
            -4026531840 <= root <= 4026531840,
        ensures
            final(rec).t == root,
            sphere_hit_record_for(*self, *r, *final(rec)),
    {
        proof {
            let d = v3(r.dir);
            lemma_mul_bound(d.0, root as int, 16384, 4026531840);
            lemma_mul_bound(d.1, root as int, 16384, 4026531840);
            lemma_mul_bound(d.2, root as int, 16384, 4026531840);
        }
        rec.t = root;
        rec.p = r.at(root);
        let outward_normal = rec.p.sub(self.center);
        proof {
            let d = v3(r.dir);
            let n = v3(outward_normal);
            lemma_mul_bound(d.0, n.0, 16384, 65970697699328);
            lemma_mul_bound(d.1, n.1, 16384, 65970697699328);
            lemma_mul_bound(d.2, n.2, 16384, 65970697699328);
        }
        rec.set_face_normal(r, outward_normal);
    }
}

} // verus!
