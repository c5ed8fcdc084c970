use raytracing::point::Point;
use raytracing::rat::Rat;
use raytracing::transformations::{rotate, rotate_x, rotate_y, rotate_z, scale, translate, Transform};
use raytracing::vec3::Vec3;

fn ri(n: i64) -> Rat {
    Rat::from_int(n)
}

fn rq(n: i64, d: i64) -> Rat {
    Rat::new(n, d)
}

fn pi(x: i64, y: i64, z: i64) -> Point {
    Point::new(ri(x), ri(y), ri(z))
}

fn vi(x: i64, y: i64, z: i64) -> Vec3 {
    Vec3::new(ri(x), ri(y), ri(z))
}

/// The cosine and sine of a quarter turn are 0 and 1.
fn quarter() -> (Rat, Rat) {
    (ri(0), ri(1))
}

/// Rational approximation of cos(pi/4) == sin(pi/4) == sqrt(2)/2.
fn half_quarter_cs() -> Rat {
    rq(7071067811865476, 10000000000000000)
}

#[test]
fn test_translate_point() {
    let point = pi(-3, 4, 5);
    let transformation = translate(ri(5), ri(-3), ri(2));
    assert_eq!(point.transform(&transformation), pi(2, 1, 7));
}

#[test]
fn test_scale_point() {
    let point = pi(-4, 6, 8);
    let transformation = scale(ri(2), ri(3), ri(4));
    assert_eq!(point.transform(&transformation), pi(-8, 18, 32));
}

#[test]
fn test_scale_vec3() {
    let vector = vi(-4, 6, 8);
    let transformation = scale(ri(2), ri(3), ri(4));
    assert_eq!(vector.transform(&transformation), vi(-8, 18, 32));
}

#[test]
fn test_reflection() {
    let point = pi(2, 3, 4);
    let transformation = scale(ri(-1), ri(1), ri(1));
    assert_eq!(point.transform(&transformation), pi(-2, 3, 4));
}

#[test]
fn test_rotate_x() {
    let point = pi(0, 1, 0);
    let c = half_quarter_cs();
    let half_quarter = rotate_x(c, c);
    let (qc, qs) = quarter();
    let full_quarter = rotate_x(qc, qs);
    let expected_half = Point::new(ri(0), c, c);
    assert!(point.transform(&half_quarter).abs_diff_eq(&expected_half, Point::default_epsilon()));
    assert!(point.transform(&full_quarter).abs_diff_eq(&pi(0, 0, 1), Point::default_epsilon()));
}

#[test]
fn test_rotate_y_quarter() {
    let point = pi(0, 0, 1);
    let (qc, qs) = quarter();
    assert_eq!(point.transform(&rotate_y(qc, qs)), pi(1, 0, 0));
}

#[test]
fn test_rotate_z_quarter() {
    let point = pi(0, 1, 0);
    let (qc, qs) = quarter();
    assert_eq!(point.transform(&rotate_z(qc, qs)), pi(-1, 0, 0));
}

#[test]
fn test_rotate_composite_order() {
    let (qc, qs) = quarter();
    let composite = rotate(qc, qs, ri(1), ri(0), ri(1), ri(0));
    assert_eq!(composite, rotate_x(qc, qs));
    let point = pi(0, 1, 0);
    assert_eq!(point.transform(&composite), pi(0, 0, 1));
}

#[test]
fn test_translate_vec3_noop() {
    let v = Vec3::new(rq(13, 4), ri(-2), rq(9, 7));
    let translation = translate(ri(6), rq(-13, 10), ri(2));
    assert_eq!(v.transform(&translation), v);
}

#[test]
fn test_translate_with_inverse() {
    let v = Vec3::new(rq(1, 3), ri(5), rq(-7, 2));
    let translation = translate(ri(6), rq(-13, 10), ri(2));
    let inverse = translation.inverse();
    let transformation = translation.mul(&inverse);
    assert_eq!(v.transform(&transformation), v);
}

#[test]
fn test_scale_with_inverse() {
    let v = Vec3::new(rq(1, 3), ri(5), rq(-7, 2));
    let scaling = scale(ri(6), rq(-13, 10), ri(2));
    let inverse = scaling.inverse();
    let transformation = scaling.mul(&inverse);
    assert_eq!(v.transform(&transformation), v);
}

#[test]
fn test_translate_roundtrip_point() {
    let p = Point::new(rq(11, 3), ri(-8), rq(5, 6));
    let forward = translate(ri(6), rq(-13, 10), ri(2));
    let back = translate(ri(-6), rq(13, 10), ri(-2));
    assert_eq!(p.transform(&forward).transform(&back), p);
}

#[test]
fn test_rotate_x_full_circle() {
    let v = Vec3::new(rq(3, 2), ri(-4), rq(22, 7));
    let rotation = rotate_x(ri(1), ri(0));
    assert_eq!(v.transform(&rotation), v);
}

#[test]
fn test_rotate_y_full_circle() {
    let v = Vec3::new(rq(3, 2), ri(-4), rq(22, 7));
    let rotation = rotate_y(ri(1), ri(0));
    assert_eq!(v.transform(&rotation), v);
}

#[test]
fn test_rotate_z_full_circle() {
    let v = Vec3::new(rq(3, 2), ri(-4), rq(22, 7));
    let rotation = rotate_z(ri(1), ri(0));
    assert_eq!(v.transform(&rotation), v);
}
