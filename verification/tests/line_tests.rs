use rasterizer::canvas::{Canvas, Color};
use rasterizer::line::draw_line;

const BLACK: Color = Color { r: 0, g: 0, b: 0, a: 255 };
const WHITE: Color = Color { r: 255, g: 255, b: 255, a: 255 };

fn drawn(c: &Canvas, x: u32, y: u32) -> bool {
    c.get_pixel(x, y) == WHITE
}

fn count_white(c: &Canvas) -> u64 {
    c.count_pixels(WHITE)
}

#[test]
fn line_writes_one_pixel_per_dominant_step() {
    let cases = [
        ((0, 0), (9, 3)),
        ((9, 3), (0, 0)),
        ((2, 1), (5, 19)),
        ((0, 0), (19, 19)),
        ((0, 5), (19, 5)),
        ((7, 0), (7, 19)),
        ((19, 0), (0, 19)),
        ((3, 17), (15, 2)),
    ];
    for &(p0, p1) in cases.iter() {
        let mut c = Canvas::new(20, 20, BLACK);
        draw_line(p0, p1, &mut c, WHITE);
        let dx = (p0.0 as i64 - p1.0 as i64).abs();
        let dy = (p0.1 as i64 - p1.1 as i64).abs();
        let span = if dx > dy { dx } else { dy };
        assert_eq!(count_white(&c) as i64, span + 1);
        assert!(drawn(&c, p0.0 as u32, p0.1 as u32));
        assert!(drawn(&c, p1.0 as u32, p1.1 as u32));
    }
}

#[test]
fn line_unique_pixel_per_dominant_column() {
    let mut c = Canvas::new(20, 20, BLACK);
    draw_line((0, 0), (19, 7), &mut c, WHITE);
    for x in 0..20u32 {
        let mut hits = 0;
        for y in 0..20u32 {
            if drawn(&c, x, y) {
                hits += 1;
            }
        }
        assert_eq!(hits, 1);
    }
}

#[test]
fn line_symmetric_under_endpoint_swap() {
    let cases = [((1, 2), (17, 9)), ((3, 18), (14, 0)), ((0, 0), (0, 15)), ((5, 5), (5, 5))];
    for &(p0, p1) in cases.iter() {
        let mut a = Canvas::new(20, 20, BLACK);
        let mut b = Canvas::new(20, 20, BLACK);
        draw_line(p0, p1, &mut a, WHITE);
        draw_line(p1, p0, &mut b, WHITE);
        for x in 0..20u32 {
            for y in 0..20u32 {
                assert_eq!(a.get_pixel(x, y), b.get_pixel(x, y));
            }
        }
    }
}

#[test]
fn degenerate_line_writes_exactly_one_pixel() {
    let mut c = Canvas::new(16, 16, BLACK);
    draw_line((6, 9), (6, 9), &mut c, WHITE);
    assert_eq!(count_white(&c), 1);
    assert!(drawn(&c, 6, 9));
}

#[test]
fn line_stays_inside_endpoint_rectangle() {
    let mut c = Canvas::new(30, 30, BLACK);
    draw_line((5, 10), (25, 17), &mut c, WHITE);
    for x in 0..30u32 {
        for y in 0..30u32 {
            if drawn(&c, x, y) {
                assert!(x >= 5 && x <= 25);
                assert!(y >= 10 && y <= 17);
            }
        }
    }
}
