use rasterizer::canvas::{Canvas, Color};
use rasterizer::render::{project_coord, render_fill, render_wireframe, SCALE};

const BLACK: Color = Color { r: 0, g: 0, b: 0, a: 255 };
const WHITE: Color = Color { r: 255, g: 255, b: 255, a: 255 };

#[test]
fn projection_maps_normalized_corners_to_pixel_corners() {
    assert_eq!(project_coord(-SCALE, 400), 0);
    assert_eq!(project_coord(SCALE, 400), 399);
    assert_eq!(project_coord(-SCALE, 1), 0);
    assert_eq!(project_coord(SCALE, 1), 0);
    assert_eq!(project_coord(0, 400), 200);
}

#[test]
fn projection_is_monotone_and_clamped() {
    let mut last = 0u32;
    let mut c = -SCALE;
    while c <= SCALE {
        let r = project_coord(c, 100);
        assert!(r < 100);
        assert!(r >= last);
        last = r;
        c += SCALE / 8;
    }
}

#[test]
fn wireframe_hits_projected_corners() {
    let verts = vec![
        (-SCALE, -SCALE, 0),
        (SCALE, -SCALE, 0),
        (-SCALE, SCALE, 0),
    ];
    let faces = vec![(0usize, 1usize, 2usize)];
    let mut c = Canvas::new(40, 40, BLACK);
    render_wireframe(&verts, &faces, &mut c, WHITE);
    assert_eq!(c.get_pixel(0, 0), WHITE);
    assert_eq!(c.get_pixel(39, 0), WHITE);
    assert_eq!(c.get_pixel(0, 39), WHITE);
    // The wireframe leaves the interior empty.
    assert_eq!(c.get_pixel(10, 10), BLACK);
}

#[test]
fn filled_mesh_covers_half_the_canvas() {
    let verts = vec![
        (-SCALE, -SCALE, 0),
        (SCALE, -SCALE, 0),
        (-SCALE, SCALE, 0),
    ];
    let faces = vec![(0usize, 1usize, 2usize)];
    let mut c = Canvas::new(40, 40, BLACK);
    render_fill(&verts, &faces, &mut c, WHITE);
    assert_eq!(c.get_pixel(0, 0), WHITE);
    assert_eq!(c.get_pixel(10, 10), WHITE);
    assert_eq!(c.get_pixel(39, 39), BLACK);
    let n = c.count_pixels(WHITE) as i64;
    // Half of the 40 x 40 canvas, within a diagonal's rounding.
    assert!((n - 800).abs() <= 45, "count {}", n);
}

#[test]
fn canvas_creation_and_pixel_access() {
    let mut c = Canvas::new(8, 6, BLACK);
    assert_eq!(c.width(), 8);
    assert_eq!(c.height(), 6);
    assert_eq!(c.get_pixel(3, 3), BLACK);
    let teal = Color::new(0, 128, 128, 255);
    c.put_pixel(3, 3, teal);
    assert_eq!(c.get_pixel(3, 3), teal);
    assert_eq!(c.get_pixel(3, 2), BLACK);
    assert_eq!(c.count_pixels(teal), 1);
    assert_eq!(c.count_pixels(BLACK), 47);
}
