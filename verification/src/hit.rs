//! The hit record an intersection test populates, and the capability every
//! primitive and composite scene implements.

use vstd::prelude::*;
use crate::math::in_i64;
use crate::ray::Ray;
use crate::ray::ray_bounded;
use crate::vec3::Point3;
use crate::vec3::Vec3;
use crate::vec3::dot;
use crate::vec3::dot_fits;
use crate::vec3::sdot;
use crate::vec3::sneg;
use crate::vec3::v3;

verus! {

/// The local surface data a successful intersection test reports: the hit
/// point, the surface normal oriented against the incoming ray, the ray
/// parameter at the hit, and whether the outer (front) or inner (back) face
/// was struck.
#[derive(Clone, Copy, Debug, PartialEq, Eq, Structural)]
pub struct HitRecord {
    pub p: Point3,
    pub normal: Vec3,
    pub t: i64,
    pub front_face: bool,
}

impl HitRecord {
    /// A default record for a test to write into.
    pub fn new() -> (rec: HitRecord)
        ensures
            v3(rec.p) == (0int, 0int, 0int),
            v3(rec.normal) == (0int, 0int, 0int),
            rec.t == 0,
            rec.front_face == true,
    {
        HitRecord { p: Point3::new(), normal: Vec3::new(), t: 0, front_face: true }
    }

    /// Orients a surface normal against the incoming ray: when the ray
    /// direction opposes the outward normal the ray arrives from outside, so
    /// the outward normal is recorded unchanged and the hit marked
    /// front-face; otherwise the negated normal is recorded and the hit
    /// marked back-face.
    pub fn set_face_normal(&mut self, r: &Ray, outward_normal: Vec3)
        requires
            dot_fits(v3(r.dir), v3(outward_normal)),
            in_i64(-v3(outward_normal).0),
            in_i64(-v3(outward_normal).1),
            in_i64(-v3(outward_normal).2),
        ensures
            final(self).front_face == (sdot(v3(r.dir), v3(outward_normal)) < 0),
            v3(final(self).normal) == (if sdot(v3(r.dir), v3(outward_normal)) < 0 {
                v3(outward_normal)
            } else {
                sneg(v3(outward_normal))
            }),
            final(self).p == old(self).p,
            final(self).t == old(self).t,
    {
        let front_face = dot(r.direction(), &outward_normal) < 0;
        self.front_face = front_face;
        self.normal = if front_face {
            outward_normal
        } else {
            outward_normal.neg()
        };
    }
}

/// The capability of being intersected by a ray: every primitive and the
/// scene aggregate expose `hit`, succeeding only when a hit exists with
/// parameter strictly inside `(t_min, t_max)`.
///
/// The contract is phrased through a candidate parameter that depends only
/// on the lower bound: the hit a query would accept on `(t_min, t_max)` is
/// the candidate for `t_min` whenever that candidate lies strictly below
/// `t_max`. Phrasing it this way makes the nearest-hit narrowing of a scene
/// aggregate compositional: tightening the upper bound never changes which
/// parameter an object would report, only whether it is accepted.
pub trait Hittable: Sized {
    /// The object's coordinates are small enough for the exact intersection
    /// arithmetic.
    spec fn wf(&self) -> bool;

    /// The parameter of the hit the object reports on the query
    /// `(t_min, t_max)` for every sufficiently large `t_max`, if any; always
    /// strictly above `t_min`.
    spec fn candidate(&self, r: Ray, t_min: int) -> Option<int>;

    /// What a successful test wrote into the record, given the accepted
    /// parameter `rec.t`.
    spec fn hit_record_for(&self, r: Ray, t_min: int, rec: HitRecord) -> bool;

    /// Tests the ray against the object inside the open parameter range
    /// `(t_min, t_max)`. On success the record holds the reported hit; on
    /// failure the record is untouched.
    fn hit(&self, r: &Ray, t_min: i64, t_max: i64, rec: &mut HitRecord) -> (b: bool)
        requires
            self.wf(),
            ray_bounded(*r),
        ensures
            b == (self.candidate(*r, t_min as int) is Some && self.candidate(
                *r,
                t_min as int,
            )->0 < t_max as int),
            b ==> t_min < final(rec).t < t_max,
            b ==> self.candidate(*r, t_min as int) == Some(final(rec).t as int),
            b ==> self.hit_record_for(*r, t_min as int, *final(rec)),
            !b ==> *final(rec) == *old(rec),
    ;
}

} // verus!
