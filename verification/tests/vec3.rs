use ray_core::vec3::Vec3;
use ray_core::vec3::cross;
use ray_core::vec3::dot;

#[test]
fn test_new() {
    assert_eq!(Vec3::new(), Vec3 { e1: 0, e2: 0, e3: 0 });
}

#[test]
fn test_build() {
    assert_eq!(Vec3::build(1, 2, 3), Vec3 { e1: 1, e2: 2, e3: 3 });
}

#[test]
fn test_x() {
    let v = Vec3::build(1, 2, 3);
    assert_eq!(v.x(), 1);
}

#[test]
fn test_y() {
    let v = Vec3::build(1, 2, 3);
    assert_eq!(v.y(), 2);
}

#[test]
fn test_z() {
    let v = Vec3::build(1, 2, 3);
    assert_eq!(v.z(), 3);
}

#[test]
fn test_length() {
    // Integer scalars: the length is the floor square root of 1 + 4 + 9.
    let v = Vec3::build(1, 2, 3);
    assert_eq!(v.length(), 3);
}

#[test]
fn test_length_squared() {
    let v = Vec3::build(1, 2, 3);
    let ans = 1 * 1 + 2 * 2 + 3 * 3;
    assert_eq!(v.length_squared(), ans);
}

#[test]
fn length_is_exact_on_perfect_squares() {
    let v = Vec3::build(1, 2, 2);
    assert_eq!(v.length_squared(), 9);
    assert_eq!(v.length(), 3);
}

#[test]
fn test_neg() {
    let v = Vec3::build(1, 2, 3);
    let ans = Vec3 { e1: -1, e2: -2, e3: -3 };
    assert_eq!(v.neg(), ans);
}

#[test]
fn test_add_vec3() {
    let v1 = Vec3::build(1, 1, 1);
    let v2 = Vec3::build(2, 2, 2);
    let ans = Vec3 { e1: 1 + 2, e2: 1 + 2, e3: 1 + 2 };
    assert_eq!(v1.add(v2), ans);
}

#[test]
fn test_add_t() {
    let v1 = Vec3::build(1, 2, 3);
    let ans = Vec3::build(2, 3, 4);
    assert_eq!(v1.add_scalar(1), ans);
}

#[test]
fn test_sub_vec3() {
    let v1 = Vec3::build(1, 1, 1);
    let v2 = Vec3::build(2, 2, 2);
    let ans = Vec3 { e1: 1 - 2, e2: 1 - 2, e3: 1 - 2 };
    assert_eq!(v1.sub(v2), ans);
}

#[test]
fn test_sub_t() {
    let v1 = Vec3::build(1, 2, 3);
    let ans = Vec3::build(0, 1, 2);
    assert_eq!(v1.sub_scalar(1), ans);
}

#[test]
fn test_mul() {
    let v1 = Vec3::build(1, 1, 1);
    let ans = Vec3 { e1: 1 * 2, e2: 1 * 2, e3: 1 * 2 };
    assert_eq!(v1.mul(2), ans);
}

#[test]
fn test_div() {
    // Integer scalars: each component is the truncating quotient.
    let v1 = Vec3::build(1, 2, 3);
    let ans = Vec3 { e1: 0, e2: 1, e3: 1 };
    assert_eq!(v1.div(2), ans);
}

#[test]
fn div_truncates_toward_zero() {
    let v = Vec3::build(-1, -2, -3);
    assert_eq!(v.div(2), Vec3 { e1: 0, e2: -1, e3: -1 });
    assert_eq!(v.div(-2), Vec3 { e1: 0, e2: 1, e3: 1 });
    let w = Vec3::build(7, -7, 8);
    assert_eq!(w.div(-2), Vec3 { e1: -3, e2: 3, e3: -4 });
}

#[test]
fn test_index() {
    let v = Vec3::build(1, 2, 3);
    assert_eq!(v.index(0), 1);
    assert_eq!(v.index(1), 2);
    assert_eq!(v.index(2), 3);
}

#[test]
fn test_index_mut() {
    let mut v = Vec3::build(1, 2, 3);
    v.set(0, 0);
    v.set(1, 0);
    v.set(2, 0);
    let ans = Vec3 { e1: 0, e2: 0, e3: 0 };
    assert_eq!(v, ans);
}

#[test]
fn test_dot() {
    let v1 = Vec3::build(1, 2, 3);
    let v2 = Vec3::build(1, 2, 3);
    assert_eq!(dot(&v1, &v2), 1 + 4 + 9);
}

#[test]
fn test_cross() {
    let v1 = Vec3::build(0, 1, 2);
    let v2 = Vec3::build(0, 1, 2);
    let ans = Vec3 { e1: 1 * 2 - 2 * 1, e2: 2 * 0 - 0 * 2, e3: 0 * 1 - 1 * 0 };
    assert_eq!(cross(&v1, &v2), ans);
}

#[test]
fn cross_of_axes_is_right_handed() {
    let x = Vec3::build(1, 0, 0);
    let y = Vec3::build(0, 1, 0);
    let z = Vec3::build(0, 0, 1);
    assert_eq!(cross(&x, &y), z);
    assert_eq!(cross(&y, &x), z.neg());
}

#[test]
fn dot_of_self_is_length_squared() {
    let v = Vec3::build(3, -4, 12);
    assert_eq!(dot(&v, &v), v.length_squared());
}
