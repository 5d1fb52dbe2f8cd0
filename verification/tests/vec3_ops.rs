use rays::vec3::{Vec3, reflect, refract};
use rays::SCALE;

const S: i128 = SCALE;

#[test]
fn test_eq() {
    assert_eq!(Vec3::new(S, 2 * S, 3 * S), Vec3::new(S, 2 * S, 3 * S));
}

#[test]
fn test_zeros() {
    assert_eq!(Vec3::zeros(), Vec3::new(0, 0, 0));
}

#[test]
fn test_neg() {
    assert_eq!(Vec3::new(S, 2 * S, 3 * S).neg(), Vec3::new(-S, -2 * S, -3 * S));
}

#[test]
fn test_add() {
    let mut a = Vec3::new(0, S, 2 * S);
    let b = Vec3::new(0, S, 2 * S);
    assert_eq!(a.add(&b), Vec3::new(0, 2 * S, 4 * S));
    a.add_assign(b);
    assert_eq!(a, Vec3::new(0, 2 * S, 4 * S));
}

#[test]
fn test_mul_scalar() {
    assert_eq!(Vec3::new(0, S, 2 * S).scale(2 * S), Vec3::new(0, 2 * S, 4 * S));
    let mut a = Vec3::new(0, S, 2 * S);
    a.mul_assign(2 * S);
    assert_eq!(a, Vec3::new(0, 2 * S, 4 * S));
}

#[test]
fn test_mul_vec() {
    let a = Vec3::new(0, S, 2 * S);
    assert_eq!(a.mul(&a), Vec3::new(0, S, 4 * S));
}

#[test]
fn test_div() {
    assert_eq!(Vec3::new(2 * S, 4 * S, 6 * S).div(2 * S), Vec3::new(S, 2 * S, 3 * S));
    let mut a = Vec3::new(2 * S, 4 * S, 6 * S);
    a.div_assign(2 * S);
    assert_eq!(a, Vec3::new(S, 2 * S, 3 * S));
}

#[test]
fn test_index() {
    let a = Vec3::new(0, S, 2 * S);
    assert_eq!(a.index(0), 0);
    assert_eq!(a.index(1), S);
    assert_eq!(a.index(2), 2 * S);
}

#[test]
fn test_length() {
    // sqrt(14) in 16.16 fixed point, rounded down.
    assert_eq!(Vec3::new(S, 2 * S, 3 * S).length(), 245213);
}

#[test]
fn test_dot() {
    let a = Vec3::new(0, S, 2 * S);
    assert_eq!(a.dot(&a), 5 * S);
}

#[test]
fn test_cross() {
    let a = Vec3::new(0, S, 2 * S);
    let b = Vec3::new(2 * S, S, 0);
    assert_eq!(a.cross(&b), Vec3::new(-2 * S, 4 * S, -2 * S));
}

#[test]
fn test_refract() {
    // straight-on rays go straight through regardless of the ratio
    let uv = Vec3::new(S, 0, 0);
    let n = Vec3::new(-S, 0, 0);
    assert_eq!(refract(&uv, &n, S), uv);

    let uv = Vec3::new(S, 0, 0);
    let n = Vec3::new(-S, 0, 0);
    assert_eq!(refract(&uv, &n, 6554), uv);

    let uv = Vec3::new(S, 0, 0);
    let n = Vec3::new(-S, 0, 0);
    assert_eq!(refract(&uv, &n, 10 * S), uv);
}

#[test]
fn test_unit_vec_length() {
    // a 3-4-5 triangle: the unit vector's length lands within a few
    // fixed-point steps of one, and scaling it back by the original
    // length lands within a few steps of the original vector
    let v = Vec3::new(3 * S, 4 * S, 0);
    assert_eq!(v.length(), 5 * S);
    let u = v.unit_vec();
    assert_eq!(u, Vec3::new(39321, 52428, 0));
    let len = u.length();
    assert!((len - S).abs() <= 4, "unit length was {len}");
    let back = u.scale(v.length());
    assert!((back.x - v.x).abs() <= 4);
    assert!((back.y - v.y).abs() <= 4);
    assert!((back.z - v.z).abs() <= 4);
}

#[test]
fn test_reflect_head_on() {
    // striking head-on, the reflection is the exact reverse
    let n = Vec3::new(0, 0, S);
    let v = Vec3::new(0, 0, -2 * S);
    assert_eq!(reflect(&v, &n), v.neg());
    let n = Vec3::new(0, S, 0);
    let v = Vec3::new(0, -3 * S, 0);
    assert_eq!(reflect(&v, &n), v.neg());
}

#[test]
fn test_clamped() {
    let v = Vec3::new(-S, 32768, 2 * S);
    assert_eq!(v.clamped(0, S), Vec3::new(0, 32768, S));
}

#[test]
fn test_near_zero() {
    assert!(Vec3::zeros().near_zero());
    assert!(!Vec3::new(1, 0, 0).near_zero());
}

#[test]
fn test_random_in_unit_sphere() {
    for _ in 0..32 {
        let p = Vec3::random_in_unit_sphere();
        assert!(p.length_squared() < S);
    }
}

#[test]
fn test_random_in_hemisphere() {
    let n = Vec3::new(0, S, 0);
    for _ in 0..32 {
        let p = Vec3::random_in_hemisphere(&n);
        assert!(p.dot(&n) >= 0);
    }
}
