use ray_core::hit::HitRecord;
use ray_core::hit::Hittable;
use ray_core::hittable_list::HittableList;
use ray_core::math::div_trunc_i64;
use ray_core::math::sqrt_floor_i64;
use ray_core::ray::Ray;
use ray_core::sphere::Sphere;
use ray_core::vec3::Vec3;

fn sentinel_record() -> HitRecord {
    HitRecord {
        p: Vec3::build(77, 77, 77),
        normal: Vec3::build(88, 88, 88),
        t: 99,
        front_face: false,
    }
}

#[test]
fn ray_at_zero_is_origin() {
    let r = Ray::build(Vec3::build(1, 2, 3), Vec3::build(4, 5, 6));
    assert_eq!(r.at(0), *r.origin());
}

#[test]
fn ray_at_is_affine() {
    let r = Ray::build(Vec3::build(1, 2, 3), Vec3::build(4, 5, 6));
    assert_eq!(r.at(2), Vec3::build(9, 12, 15));
    assert_eq!(r.at(-1), Vec3::build(-3, -3, -3));
    // One more direction step between consecutive parameters.
    assert_eq!(r.at(3), r.at(2).add(*r.direction()));
}

#[test]
fn record_defaults() {
    let rec = HitRecord::new();
    assert_eq!(rec.p, Vec3::build(0, 0, 0));
    assert_eq!(rec.normal, Vec3::build(0, 0, 0));
    assert_eq!(rec.t, 0);
    assert!(rec.front_face);
}

#[test]
fn face_normal_orientation() {
    let down_z = Ray::build(Vec3::build(0, 0, 0), Vec3::build(0, 0, -1));
    let mut rec = HitRecord::new();
    // Outward normal opposing the ray: front face, kept as is.
    rec.set_face_normal(&down_z, Vec3::build(0, 0, 1));
    assert!(rec.front_face);
    assert_eq!(rec.normal, Vec3::build(0, 0, 1));
    // Outward normal along the ray: back face, negated.
    rec.set_face_normal(&down_z, Vec3::build(0, 0, -1));
    assert!(!rec.front_face);
    assert_eq!(rec.normal, Vec3::build(0, 0, 1));
}

#[test]
fn near_tangent_hit() {
    // Radius 1 sphere five units down the axis: one accepted root at t = 4.
    let r = Ray::build(Vec3::build(0, 0, 0), Vec3::build(0, 0, -1));
    let s = Sphere::build(Vec3::build(0, 0, -5), 1);
    let mut rec = HitRecord::new();
    assert!(s.hit(&r, 0, 100, &mut rec));
    assert_eq!(rec.t, 4);
    assert_eq!(rec.p, Vec3::build(0, 0, -4));
    assert_eq!(rec.normal, Vec3::build(0, 0, 1));
    assert!(rec.front_face);
}

#[test]
fn exact_tangency_is_excluded() {
    // A ray grazing the sphere exactly: the discriminant is zero and the
    // test reports no hit.
    let r = Ray::build(Vec3::build(0, 1, 0), Vec3::build(0, 0, -1));
    let s = Sphere::build(Vec3::build(0, 0, -5), 1);
    let mut rec = sentinel_record();
    assert!(!s.hit(&r, 0, 100, &mut rec));
    assert_eq!(rec, sentinel_record());
}

#[test]
fn two_roots_near_root_wins() {
    let r = Ray::build(Vec3::build(0, 0, 0), Vec3::build(0, 0, -1));
    let s = Sphere::build(Vec3::build(0, 0, -5), 2);
    let mut rec = HitRecord::new();
    assert!(s.hit(&r, 0, 100, &mut rec));
    assert_eq!(rec.t, 3);
    assert_eq!(rec.p, Vec3::build(0, 0, -3));
    // The recorded normal is the exact outward offset from the center.
    assert_eq!(rec.normal, Vec3::build(0, 0, 2));
    assert!(rec.front_face);
}

#[test]
fn origin_inside_sphere_takes_far_root_back_face() {
    let r = Ray::build(Vec3::build(0, 0, 0), Vec3::build(0, 0, -1));
    let s = Sphere::build(Vec3::build(0, 0, 0), 2);
    let mut rec = HitRecord::new();
    assert!(s.hit(&r, 0, 100, &mut rec));
    assert_eq!(rec.t, 2);
    assert_eq!(rec.p, Vec3::build(0, 0, -2));
    // The outward offset (0, 0, -2) is negated: the ray struck the inner face.
    assert!(!rec.front_face);
    assert_eq!(rec.normal, Vec3::build(0, 0, 2));
}

#[test]
fn miss_leaves_record_untouched() {
    // Pointing away from the sphere: both roots are negative.
    let r = Ray::build(Vec3::build(0, 0, 0), Vec3::build(0, 0, 1));
    let s = Sphere::build(Vec3::build(0, 0, -5), 2);
    let mut rec = sentinel_record();
    assert!(!s.hit(&r, 0, 100, &mut rec));
    assert_eq!(rec, sentinel_record());
}

#[test]
fn negative_discriminant_is_a_miss() {
    let r = Ray::build(Vec3::build(0, 5, 0), Vec3::build(0, 0, -1));
    let s = Sphere::build(Vec3::build(0, 0, -5), 2);
    let mut rec = sentinel_record();
    assert!(!s.hit(&r, 0, 100, &mut rec));
    assert_eq!(rec, sentinel_record());
}

#[test]
fn range_ends_are_exclusive() {
    // The near root is exactly t_min and the far root exactly t_max: both
    // must be rejected by the open interval.
    let r = Ray::build(Vec3::build(0, 0, 0), Vec3::build(0, 0, -1));
    let s = Sphere::build(Vec3::build(0, 0, -5), 2);
    let mut rec = sentinel_record();
    assert!(!s.hit(&r, 3, 7, &mut rec));
    assert_eq!(rec, sentinel_record());
    // Widening either end by one admits the nearest root inside the range.
    let mut rec2 = HitRecord::new();
    assert!(s.hit(&r, 3, 8, &mut rec2));
    assert_eq!(rec2.t, 7);
    let mut rec3 = HitRecord::new();
    assert!(s.hit(&r, 2, 7, &mut rec3));
    assert_eq!(rec3.t, 3);
}

#[test]
fn aggregate_reports_nearest_hit_in_any_order() {
    let r = Ray::build(Vec3::build(0, 0, 0), Vec3::build(0, 0, -1));
    let near = Sphere::build(Vec3::build(0, 0, -5), 1);
    let far = Sphere::build(Vec3::build(0, 0, -10), 2);

    let mut world = HittableList::new();
    world.add(near);
    world.add(far);
    let mut rec = HitRecord::new();
    assert!(world.hit(&r, 0, 1000, &mut rec));
    assert_eq!(rec.t, 4);
    assert_eq!(rec.p, Vec3::build(0, 0, -4));

    let mut reversed = HittableList::new();
    reversed.add(far);
    reversed.add(near);
    let mut rec2 = HitRecord::new();
    assert!(reversed.hit(&r, 0, 1000, &mut rec2));
    assert_eq!(rec2.t, 4);
    assert_eq!(rec2.p, Vec3::build(0, 0, -4));
}

#[test]
fn aggregate_narrows_against_best_so_far() {
    // The far sphere is visited first and then beaten by the near one.
    let r = Ray::build(Vec3::build(0, 0, 0), Vec3::build(0, 0, -1));
    let mut world = HittableList::new();
    world.add(Sphere::build(Vec3::build(0, 0, -10), 2));
    world.add(Sphere::build(Vec3::build(0, 0, -5), 2));
    let mut rec = HitRecord::new();
    assert!(world.hit(&r, 0, 1000, &mut rec));
    assert_eq!(rec.t, 3);
    assert_eq!(rec.normal, Vec3::build(0, 0, 2));
    assert!(rec.front_face);
}

#[test]
fn aggregate_range_narrows_member_queries() {
    // Inside the near sphere's far root, so only the far sphere is hit.
    let r = Ray::build(Vec3::build(0, 0, 0), Vec3::build(0, 0, -1));
    let mut world = HittableList::new();
    world.add(Sphere::build(Vec3::build(0, 0, -5), 1));
    world.add(Sphere::build(Vec3::build(0, 0, -10), 2));
    let mut rec = HitRecord::new();
    assert!(world.hit(&r, 7, 1000, &mut rec));
    assert_eq!(rec.t, 8);
}

#[test]
fn empty_and_cleared_scenes_miss() {
    let r = Ray::build(Vec3::build(0, 0, 0), Vec3::build(0, 0, -1));
    let mut world: HittableList<Sphere> = HittableList::new();
    let mut rec = sentinel_record();
    assert!(!world.hit(&r, 0, 1000, &mut rec));
    assert_eq!(rec, sentinel_record());

    world.add(Sphere::build(Vec3::build(0, 0, -5), 1));
    world.clear();
    let mut rec2 = sentinel_record();
    assert!(!world.hit(&r, 0, 1000, &mut rec2));
    assert_eq!(rec2, sentinel_record());
}

#[test]
fn scenes_compose() {
    // A scene of scenes still reports the globally nearest hit.
    let r = Ray::build(Vec3::build(0, 0, 0), Vec3::build(0, 0, -1));
    let mut inner_a = HittableList::new();
    inner_a.add(Sphere::build(Vec3::build(0, 0, -10), 2));
    let mut inner_b = HittableList::new();
    inner_b.add(Sphere::build(Vec3::build(0, 0, -5), 1));
    let mut outer = HittableList::new();
    outer.add(inner_a);
    outer.add(inner_b);
    let mut rec = HitRecord::new();
    assert!(outer.hit(&r, 0, 1000, &mut rec));
    assert_eq!(rec.t, 4);
}

#[test]
fn degenerate_sphere_never_hits() {
    let r = Ray::build(Vec3::build(0, 0, 0), Vec3::build(0, 0, -1));
    let s = Sphere::build(Vec3::build(0, 0, -5), 0);
    let mut rec = sentinel_record();
    assert!(!s.hit(&r, 0, 100, &mut rec));
    assert_eq!(rec, sentinel_record());
    let through_center = Sphere::new();
    let mut rec2 = sentinel_record();
    assert!(!through_center.hit(&r, -100, 100, &mut rec2));
    assert_eq!(rec2, sentinel_record());
}

#[test]
fn sqrt_floor_rounds_down() {
    assert_eq!(sqrt_floor_i64(0), 0);
    assert_eq!(sqrt_floor_i64(1), 1);
    assert_eq!(sqrt_floor_i64(3), 1);
    assert_eq!(sqrt_floor_i64(4), 2);
    assert_eq!(sqrt_floor_i64(15), 3);
    assert_eq!(sqrt_floor_i64(16), 4);
    assert_eq!(sqrt_floor_i64(i64::MAX), 3037000499);
}

#[test]
fn div_trunc_rounds_toward_zero() {
    assert_eq!(div_trunc_i64(7, 2), 3);
    assert_eq!(div_trunc_i64(-7, 2), -3);
    assert_eq!(div_trunc_i64(6, 3), 2);
    assert_eq!(div_trunc_i64(-6, 3), -2);
    assert_eq!(div_trunc_i64(0, 5), 0);
}

#[test]
fn equal_parameters_tie_break_to_first_member() {
    // Both spheres are struck at t = 4, with distinguishable normals; the
    // strict narrowing keeps the record of the member visited first.
    let r = Ray::build(Vec3::build(0, 0, 0), Vec3::build(0, 0, -1));
    let on_axis = Sphere::build(Vec3::build(0, 0, -6), 2);
    let off_axis = Sphere::build(Vec3::build(0, 2, -6), 3);

    let mut rec_a = HitRecord::new();
    assert!(on_axis.hit(&r, 0, 1000, &mut rec_a));
    let mut rec_b = HitRecord::new();
    assert!(off_axis.hit(&r, 0, 1000, &mut rec_b));
    assert_eq!(rec_a.t, 4);
    assert_eq!(rec_b.t, 4);
    assert_ne!(rec_a.normal, rec_b.normal);

    let mut world = HittableList::new();
    world.add(on_axis);
    world.add(off_axis);
    let mut rec = HitRecord::new();
    assert!(world.hit(&r, 0, 1000, &mut rec));
    assert_eq!(rec.t, 4);
    assert_eq!(rec.normal, rec_a.normal);

    let mut reversed = HittableList::new();
    reversed.add(off_axis);
    reversed.add(on_axis);
    let mut rec2 = HitRecord::new();
    assert!(reversed.hit(&r, 0, 1000, &mut rec2));
    assert_eq!(rec2.t, 4);
    assert_eq!(rec2.normal, rec_b.normal);
}

#[test]
fn off_axis_hit_keeps_exact_normal_direction() {
    // The hit point (0,0,-4) sits off the center (1,0,-5): the recorded
    // normal is the exact offset (-1,0,1) -- nonzero, opposing the ray --
    // and the hit is front-face, since the ray arrives from outside.
    let r = Ray::build(Vec3::build(0, 0, 0), Vec3::build(0, 0, -1));
    let s = Sphere::build(Vec3::build(1, 0, -5), 2);
    let mut rec = HitRecord::new();
    assert!(s.hit(&r, 0, 100, &mut rec));
    assert_eq!(rec.t, 4);
    assert_eq!(rec.p, Vec3::build(0, 0, -4));
    assert_eq!(rec.normal, Vec3::build(-1, 0, 1));
    assert!(rec.front_face);
    let d = *r.direction();
    assert!(d.e1 * rec.normal.e1 + d.e2 * rec.normal.e2 + d.e3 * rec.normal.e3 <= 0);
}

#[test]
fn center_crossing_root_records_zero_offset_back_face() {
    // Root rounding can land the hit point on the exact center (real roots
    // 5.5 and 6.5, far root truncated to 6, where the ray crosses the
    // center): the offset is zero and the hit counts as back-face.
    let r = Ray::build(Vec3::build(0, 0, 0), Vec3::build(0, 0, -2));
    let s = Sphere::build(Vec3::build(0, 0, -12), 1);
    let mut rec = HitRecord::new();
    assert!(s.hit(&r, 5, 100, &mut rec));
    assert_eq!(rec.t, 6);
    assert_eq!(rec.p, Vec3::build(0, 0, -12));
    assert_eq!(rec.normal, Vec3::build(0, 0, 0));
    assert!(!rec.front_face);
}
