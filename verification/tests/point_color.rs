use raytracing::color::Color;
use raytracing::point::Point;
use raytracing::rat::Rat;
use raytracing::vec3::Vec3;

fn ri(n: i64) -> Rat {
    Rat::from_int(n)
}

fn rq(n: i64, d: i64) -> Rat {
    Rat::new(n, d)
}

fn pi(x: i64, y: i64, z: i64) -> Point {
    Point::new(ri(x), ri(y), ri(z))
}

fn vi(x: i64, y: i64, z: i64) -> Vec3 {
    Vec3::new(ri(x), ri(y), ri(z))
}

fn cq(r: (i64, i64), g: (i64, i64), b: (i64, i64)) -> Color {
    Color::new(rq(r.0, r.1), rq(g.0, g.1), rq(b.0, b.1))
}

#[test]
fn test_point_add_vec3() {
    let p = pi(1, 2, 3);
    let v = vi(1, 2, 3);
    assert_eq!(p.add(v), pi(2, 4, 6));
}

#[test]
fn test_point_sub_point() {
    let p1 = pi(1, 2, 3);
    let p2 = pi(1, 2, 3);
    assert_eq!(p1.sub(p2), vi(0, 0, 0));
}

#[test]
fn test_point_sub_vec3() {
    let p = pi(1, 2, 3);
    let v = vi(1, 2, 3);
    assert_eq!(p.sub_vec(v), pi(0, 0, 0));
}

#[test]
fn test_color_add() {
    let c1 = cq((9, 10), (6, 10), (75, 100));
    let c2 = cq((7, 10), (1, 10), (25, 100));
    assert_eq!(c1.add(c2), cq((16, 10), (7, 10), (1, 1)));
}

#[test]
fn test_color_sub() {
    let c1 = cq((8, 10), (6, 10), (75, 100));
    let c2 = cq((7, 10), (1, 10), (25, 100));
    let expected = cq((1, 10), (5, 10), (5, 10));
    assert!(c1.sub(c2).abs_diff_eq(&expected, Color::default_epsilon()));
}

#[test]
fn test_color_mul_scalar() {
    let c = cq((2, 10), (3, 10), (4, 10));
    let expected = cq((4, 10), (6, 10), (8, 10));
    assert!(c.mul_scalar(ri(2)).abs_diff_eq(&expected, Color::default_epsilon()));
    assert!(c.mul_scalar(rq(9, 2)).abs_diff_eq(&c.mul_scalar(rq(9, 2)), Color::default_epsilon()));
}

#[test]
fn test_color_mul() {
    let c1 = cq((1, 1), (2, 10), (4, 10));
    let c2 = cq((9, 10), (1, 1), (1, 10));
    let expected = cq((9, 10), (2, 10), (4, 100));
    assert!(c1.mul(c2).abs_diff_eq(&expected, Color::default_epsilon()));
}

#[test]
fn test_color_clamp() {
    let c = Color::new(rq(3, 2), rq(1, 2), ri(-20));
    assert_eq!(c.clamp(), Color::new(ri(1), rq(1, 2), ri(0)));
}

#[test]
fn test_color_clamp_in_range_unchanged() {
    let c = cq((1, 4), (0, 1), (1, 1));
    assert_eq!(c.clamp(), c);
}

#[test]
fn test_rat_reduction() {
    assert_eq!(Rat::new(2, 4), Rat::new(1, 2));
    assert_eq!(Rat::new(-2, -4).num(), 1);
    assert_eq!(Rat::new(-2, -4).den(), 2);
    assert_eq!(Rat::new(2, -4).num(), -1);
    assert_eq!(Rat::new(2, -4).den(), 2);
    assert_eq!(Rat::new(0, 7).den(), 1);
}
