use raytracing::canvas::Canvas;
use raytracing::color::Color;
use raytracing::rat::Rat;

fn rq(n: i64, d: i64) -> Rat {
    Rat::new(n, d)
}

#[test]
fn test_canvas_index() {
    let canvas = Canvas::new(10, 20);
    assert_eq!(canvas.pixel_at(2, 3), Color::default());
}

#[test]
fn test_canvas_index_mut() {
    let mut canvas = Canvas::new(10, 20);
    canvas.set_pixel(2, 3, Color::new(rq(1, 2), rq(1, 2), rq(1, 2)));
    assert_eq!(canvas.pixel_at(2, 3), Color::new(rq(1, 2), rq(1, 2), rq(1, 2)));
}

#[test]
fn test_canvas_dimensions_and_iteration() {
    let mut canvas = Canvas::new(3, 2);
    assert_eq!(canvas.width, 3);
    assert_eq!(canvas.height, 2);
    let red = Color::new(Rat::one(), Rat::zero(), Rat::zero());
    canvas.set_pixel(1, 1, red);
    let pixels = canvas.iter_pixels();
    assert_eq!(pixels.len(), 6);
    // row-major with x fast: (1, 1) sits at index 1 * 3 + 1
    assert_eq!(pixels[4], red);
    assert_eq!(pixels[0], Color::default());
}
