use raytracing::rat::Rat;
use raytracing::vec3::Vec3;

fn ri(n: i64) -> Rat {
    Rat::from_int(n)
}

fn rq(n: i64, d: i64) -> Rat {
    Rat::new(n, d)
}

fn vi(x: i64, y: i64, z: i64) -> Vec3 {
    Vec3::new(ri(x), ri(y), ri(z))
}

#[test]
fn test_vec3_add_vec3() {
    let v1 = vi(1, 2, 3);
    let v2 = vi(1, 2, 3);
    assert_eq!(v1.add(v2), vi(2, 4, 6));
}

#[test]
fn test_vec3_sub_vec3() {
    let v1 = vi(1, 2, 3);
    let v2 = vi(1, 2, 3);
    assert_eq!(v1.sub(v2), vi(0, 0, 0));
}

#[test]
fn test_vec3_neg() {
    let v = vi(1, 2, 3);
    assert_eq!(v.neg(), vi(-1, -2, -3));
}

#[test]
fn test_vec3_mul_f64() {
    let v = vi(1, 2, 3);
    assert_eq!(v.mul_scalar(ri(2)), vi(2, 4, 6));
}

#[test]
fn test_f64_mul_vec3() {
    let v = vi(1, 2, 3);
    assert_eq!(v.mul_scalar(ri(2)), vi(2, 4, 6));
}

#[test]
fn test_vec3_div_f64() {
    let v = vi(1, 2, 3);
    assert_eq!(
        v.div_scalar(ri(2)),
        Vec3::new(rq(1, 2), ri(1), rq(3, 2))
    );
}

#[test]
fn test_vec3_magnitude() {
    assert_eq!(vi(1, 2, 3).magnitude(), ri(6));
    assert_eq!(vi(1, 0, 0).magnitude(), ri(1));
    assert_eq!(vi(-1, -5, 8).magnitude(), ri(14));
}

#[test]
fn test_vec3_normalize() {
    let v = vi(20, 60, 120);
    assert_eq!(v.normalize(), Vec3::new(rq(1, 10), rq(3, 10), rq(6, 10)));
}

#[test]
fn test_vec3_normalize_zero() {
    let v = Vec3::default();
    assert_eq!(v.normalize(), Vec3::default());
}

#[test]
fn test_vec3_dot() {
    let v1 = vi(1, 2, 3);
    let v2 = vi(1, 2, 3);
    assert_eq!(v1.dot(&v2), ri(14));
}

#[test]
fn test_vec3_cross() {
    let v1 = vi(1, 2, 3);
    let v2 = vi(2, 3, 4);
    assert_eq!(v1.cross(&v2), vi(-1, 2, -1));
    assert_eq!(v2.cross(&v1), vi(1, -2, 1));
}

#[test]
fn test_normalize_magnitude_one() {
    let v = Vec3::new(rq(3, 7), ri(-5), rq(22, 3));
    assert_eq!(v.normalize().magnitude(), ri(1));
}

#[test]
fn test_cross_anticommutative_values() {
    let a = Vec3::new(rq(1, 2), ri(-3), rq(7, 5));
    let b = Vec3::new(ri(4), rq(-2, 3), ri(9));
    assert_eq!(a.cross(&b), b.cross(&a).neg());
}

#[test]
fn test_vec3_abs_diff_eq_tolerance() {
    let a = Vec3::new(rq(1, 10), ri(0), ri(0));
    let b = Vec3::new(rq(101, 1000), ri(0), ri(0));
    assert!(!a.abs_diff_eq(&b, Vec3::default_epsilon()));
    assert!(a.abs_diff_eq(&b, rq(1, 100)));
}
