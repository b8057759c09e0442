use rasterizer::canvas::{Canvas, Color};
use rasterizer::triangle::{fill_triangle, triangle};

const BLACK: Color = Color { r: 0, g: 0, b: 0, a: 255 };
const WHITE: Color = Color { r: 255, g: 255, b: 255, a: 255 };
const RED: Color = Color { r: 255, g: 0, b: 0, a: 255 };

#[test]
fn barycentric_right_triangle_containment() {
    let mut c = Canvas::new(16, 16, BLACK);
    fill_triangle((0, 0), (10, 0), (0, 10), &mut c, WHITE);
    for x in 0..16u32 {
        for y in 0..16u32 {
            let inside = x + y <= 10;
            let painted = c.get_pixel(x, y) == WHITE;
            assert_eq!(painted, inside, "pixel ({}, {})", x, y);
        }
    }
}

#[test]
fn barycentric_fill_count_tracks_area() {
    // Triangle (2,2) (30,5) (10,25): twice the area is 620, the
    // perimeter is about 81 pixels.
    let mut c = Canvas::new(40, 40, BLACK);
    fill_triangle((2, 2), (30, 5), (10, 25), &mut c, WHITE);
    let n = c.count_pixels(WHITE) as i64;
    assert!((n - 310).abs() <= 85, "count {}", n);
}

#[test]
fn scanline_fill_count_tracks_area() {
    let mut c = Canvas::new(40, 40, BLACK);
    triangle((2, 2), (30, 5), (10, 25), &mut c, WHITE, WHITE);
    let n = c.count_pixels(WHITE) as i64;
    assert!((n - 310).abs() <= 85, "count {}", n);
}

#[test]
fn barycentric_fill_winding_independent() {
    let t = [(3, 1), (14, 6), (5, 13)];
    let orders = [
        [0, 1, 2],
        [0, 2, 1],
        [1, 0, 2],
        [1, 2, 0],
        [2, 0, 1],
        [2, 1, 0],
    ];
    let mut reference = Canvas::new(20, 20, BLACK);
    fill_triangle(t[0], t[1], t[2], &mut reference, WHITE);
    for ord in orders.iter() {
        let mut c = Canvas::new(20, 20, BLACK);
        fill_triangle(t[ord[0]], t[ord[1]], t[ord[2]], &mut c, WHITE);
        for x in 0..20u32 {
            for y in 0..20u32 {
                assert_eq!(c.get_pixel(x, y), reference.get_pixel(x, y));
            }
        }
    }
}

#[test]
fn degenerate_triangle_fills_nothing() {
    let mut c = Canvas::new(16, 16, BLACK);
    fill_triangle((2, 2), (8, 8), (5, 5), &mut c, WHITE);
    assert_eq!(c.count_pixels(WHITE), 0);
}

#[test]
fn barycentric_clamps_to_canvas() {
    let mut c = Canvas::new(8, 8, BLACK);
    fill_triangle((-5, -5), (20, -5), (-5, 20), &mut c, WHITE);
    // The triangle covers the whole canvas once clamped.
    assert_eq!(c.count_pixels(WHITE), 64);
}

#[test]
fn scanline_triangle_edges_and_fill() {
    let mut c = Canvas::new(16, 16, BLACK);
    triangle((0, 0), (4, 0), (0, 4), &mut c, WHITE, RED);
    // The flat-top sweep runs from the middle vertex: rows 0..=3 are
    // spanned between the two walkers.
    assert_eq!(c.get_pixel(0, 0), WHITE);
    assert_eq!(c.get_pixel(1, 1), WHITE);
    // The corner (4,0) lies on an edge but on no fill span.
    assert_eq!(c.get_pixel(4, 0), RED);
    // The far corner of the canvas stays untouched.
    assert_eq!(c.get_pixel(10, 10), BLACK);
    assert_eq!(c.get_pixel(5, 5), BLACK);
}

#[test]
fn scanline_triangle_covers_interior() {
    let mut c = Canvas::new(32, 32, BLACK);
    triangle((4, 2), (28, 10), (10, 28), &mut c, WHITE, WHITE);
    // A pixel well inside the triangle is painted.
    assert_eq!(c.get_pixel(13, 12), WHITE);
    // Pixels outside the bounding box are untouched.
    assert_eq!(c.get_pixel(1, 1), BLACK);
    assert_eq!(c.get_pixel(30, 30), BLACK);
}
