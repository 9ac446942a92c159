//! The scene aggregate: an ordered collection of intersectable objects that
//! reduces per-object hits to the single nearest valid hit.
//!
//! The aggregate narrows the admissible range as it walks the collection:
//! each object competes against the best hit found so far, so one pass
//! returns the globally nearest hit. The aggregate itself implements
//! `Hittable`, so scenes compose.

use vstd::prelude::*;
use crate::hit::HitRecord;
use crate::hit::Hittable;
use crate::ray::Ray;
use crate::ray::ray_bounded;

verus! {

/// The smaller of two optional hit parameters; a missing parameter never
/// wins.
pub open spec fn opt_min(x: Option<int>, y: Option<int>) -> Option<int> {
    match (x, y) {
        (Option::None, Option::None) => Option::None,
        (Option::Some(a), Option::None) => Option::Some(a),
        (Option::None, Option::Some(b)) => Option::Some(b),
        (Option::Some(a), Option::Some(b)) => Option::Some(
            if a <= b {
                a
            } else {
                b
            },
        ),
    }
}

/// The candidate of a collection: the smallest candidate of its members.
pub open spec fn list_candidate<T: Hittable>(objs: Seq<T>, r: Ray, t_min: int) -> Option<int>
    decreases objs.len(),
{
    if objs.len() == 0 {
        Option::None
    } else {
        opt_min(list_candidate(objs.drop_last(), r, t_min), objs.last().candidate(r, t_min))
    }
}

/// Every member's coordinates are small enough for the exact intersection
/// arithmetic.
pub open spec fn list_wf<T: Hittable>(objs: Seq<T>) -> bool {
    forall|i: int| 0 <= i < objs.len() ==> (#[trigger] objs[i]).wf()
}

/// The record of a collection hit belongs to the first member that reports
/// the accepted parameter.
pub open spec fn list_hit_record_for<T: Hittable>(
    objs: Seq<T>,
    r: Ray,
    t_min: int,
    rec: HitRecord,
) -> bool {
    exists|i: int|
        0 <= i < objs.len() && (#[trigger] objs[i].candidate(r, t_min)) == Option::Some(
            rec.t as int,
        ) && objs[i].hit_record_for(r, t_min, rec) && (forall|j: int|
            0 <= j < i ==> (#[trigger] objs[j].candidate(r, t_min)) != Option::Some(rec.t as int))
}

/// The collection candidate is the minimum over the members: it is bounded
/// above by every member's candidate, it is reported by some member, and it
/// is absent only when every member's is.
pub proof fn lemma_list_candidate_is_min<T: Hittable>(objs: Seq<T>, r: Ray, t_min: int)
    ensures
        list_candidate(objs, r, t_min) is None ==> (forall|j: int|
            0 <= j < objs.len() ==> (#[trigger] objs[j].candidate(r, t_min)) is None),
        forall|j: int|
            0 <= j < objs.len() && (#[trigger] objs[j].candidate(r, t_min)) is Some ==> (
            list_candidate(objs, r, t_min) is Some && list_candidate(objs, r, t_min)->0 <= objs[
                j
            ].candidate(r, t_min)->0),
        list_candidate(objs, r, t_min) is Some ==> (exists|j: int|
            0 <= j < objs.len() && (#[trigger] objs[j].candidate(r, t_min)) == list_candidate(
                objs,
                r,
                t_min,
            )),
    decreases objs.len(),
{
    if objs.len() > 0 {
        lemma_list_candidate_is_min(objs.drop_last(), r, t_min);
        assert(forall|j: int|
            0 <= j < objs.len() - 1 ==> objs.drop_last()[j] == #[trigger] objs[j]);
        assert(objs.last() == objs[objs.len() - 1]);
        if list_candidate(objs, r, t_min) is Some {
            let m = list_candidate(objs, r, t_min);
            if objs.last().candidate(r, t_min) == m {
                assert(objs[objs.len() - 1].candidate(r, t_min) == m);
            } else {
                assert(list_candidate(objs.drop_last(), r, t_min) == m);
                let w = choose|j: int|
                    0 <= j < objs.len() - 1 && (#[trigger] objs.drop_last()[j].candidate(
                        r,
                        t_min,
                    )) == m;
                assert(objs[w].candidate(r, t_min) == m);
            }
        }
    }
}

/// The member candidates, in collection order.
pub open spec fn member_candidates<T: Hittable>(objs: Seq<T>, r: Ray, t_min: int) -> Seq<
    Option<int>,
> {
    objs.map_values(|o: T| o.candidate(r, t_min))
}

/// One direction of order-independence: a collection whose members report
/// the same multiset of candidates reports a candidate at least as near.
proof fn lemma_list_candidate_le<T: Hittable>(s1: Seq<T>, s2: Seq<T>, r: Ray, t_min: int)
    requires
        member_candidates(s1, r, t_min).to_multiset() == member_candidates(
            s2,
            r,
            t_min,
        ).to_multiset(),
    ensures
        list_candidate(s1, r, t_min) is Some ==> (list_candidate(s2, r, t_min) is Some
            && list_candidate(s2, r, t_min)->0 <= list_candidate(s1, r, t_min)->0),
{
    broadcast use vstd::seq_lib::group_to_multiset_ensures;

    let m1 = member_candidates(s1, r, t_min);
    let m2 = member_candidates(s2, r, t_min);
    let c1 = list_candidate(s1, r, t_min);
    if c1 is Some {
        lemma_list_candidate_is_min(s1, r, t_min);
        let j = choose|j: int|
            0 <= j < s1.len() && (#[trigger] s1[j].candidate(r, t_min)) == c1;
        assert(m1[j] == c1);
        assert(m1.contains(c1));
        assert(m2.to_multiset().contains(c1));
        assert(m2.contains(c1));
        let j2 = choose|i: int| 0 <= i < m2.len() && m2[i] == c1;
        assert(s2[j2].candidate(r, t_min) == c1);
        lemma_list_candidate_is_min(s2, r, t_min);
    }
}

/// Changing the order of a scene's members never changes the reported hit
/// parameter: the collection candidate depends only on the multiset of the
/// members' candidates, never on their order.
pub proof fn lemma_list_candidate_permutation<T: Hittable>(
    s1: Seq<T>,
    s2: Seq<T>,
    r: Ray,
    t_min: int,
)
    requires
        member_candidates(s1, r, t_min).to_multiset() == member_candidates(
            s2,
            r,
            t_min,
        ).to_multiset(),
    ensures
        list_candidate(s1, r, t_min) == list_candidate(s2, r, t_min),
{
    lemma_list_candidate_le(s1, s2, r, t_min);
    lemma_list_candidate_le(s2, s1, r, t_min);
}

/// An ordered, owning collection of intersectable objects; insertion order
/// only breaks ties between equally near hits.
pub struct HittableList<T> {
    pub objects: Vec<T>,
}

impl<T: Hittable> HittableList<T> {
    /// An empty scene.
    pub fn new() -> (l: HittableList<T>)
        ensures
            l.objects@.len() == 0,
    {
        HittableList { objects: Vec::new() }
    }

    /// Appends one object to the scene.
    pub fn add(&mut self, object: T)
        ensures
            final(self).objects@ == old(self).objects@.push(object),
    {
        self.objects.push(object);
    }

    /// Removes every object from the scene.
    pub fn clear(&mut self)
        ensures
            final(self).objects@.len() == 0,
    {
        self.objects.clear();
    }
}

impl<T: Hittable> Hittable for HittableList<T> {
    open spec fn wf(&self) -> bool {
        list_wf(self.objects@)
    }

    open spec fn candidate(&self, r: Ray, t_min: int) -> Option<int> {
        list_candidate(self.objects@, r, t_min)
    }

    open spec fn hit_record_for(&self, r: Ray, t_min: int, rec: HitRecord) -> bool {
        list_hit_record_for(self.objects@, r, t_min, rec)
    }

    fn hit(&self, r: &Ray, t_min: i64, t_max: i64, rec: &mut HitRecord) -> (b: bool) {
        let mut temp_rec = HitRecord::new();
        let mut hit_anything = false;
        let mut closest_so_far = t_max;
        let n = self.objects.len();
        let mut idx: usize = 0;
        while idx < n
            invariant
                0 <= idx <= n,
                n == self.objects@.len(),
                list_wf(self.objects@),
                ray_bounded(*r),
                !hit_anything ==> closest_so_far == t_max,
                !hit_anything ==> *rec == *old(rec),
                !hit_anything ==> (list_candidate(self.objects@.take(idx as int), *r, t_min as int)
                    is Some ==> list_candidate(self.objects@.take(idx as int), *r, t_min as int)->0
                    >= t_max as int),
                hit_anything ==> t_min < closest_so_far < t_max,
                hit_anything ==> temp_rec.t == closest_so_far,
                hit_anything ==> *rec == temp_rec,
                hit_anything ==> list_candidate(self.objects@.take(idx as int), *r, t_min as int)
                    == Option::Some(closest_so_far as int),
                hit_anything ==> list_hit_record_for(
                    self.objects@.take(idx as int),
                    *r,
                    t_min as int,
                    temp_rec,
                ),
            decreases n - idx,
        {
            proof {
                assert(self.objects@[idx as int].wf());
                lemma_list_candidate_is_min(self.objects@.take(idx as int), *r, t_min as int);
            }
            let object = &self.objects[idx];
            let found = object.hit(r, t_min, closest_so_far, &mut temp_rec);
            proof {
                assert(self.objects@.take(idx + 1).drop_last() =~= self.objects@.take(idx as int));
                assert(self.objects@.take(idx + 1).last() == self.objects@[idx as int]);
                assert(forall|j: int|
                    0 <= j < idx ==> self.objects@.take(idx as int)[j] == #[trigger] self.objects@.take(
                        idx + 1,
                    )[j]);
            }
            if found {
                hit_anything = true;
                closest_so_far = temp_rec.t;
                *rec = temp_rec;
            }
            idx += 1;
        }
        proof {
            assert(self.objects@.take(n as int) =~= self.objects@);
        }
        hit_anything
    }
}

} // verus!
