//! Mesh projection and draw driver: projects 3D vertex positions from
//! the normalized `[-1, 1]` range into screen space and draws each face
//! as a wireframe or as a filled triangle.
//!
//! Normalized coordinates arrive in fixed point: `SCALE` units stand
//! for 1.0, so the admissible range is `[-SCALE, SCALE]`.

use vstd::prelude::*;
use crate::canvas::{Canvas, Color, canvas_dims, canvas_pixels, canvas_wf, canvas_width,
    canvas_height};
use crate::line::on_segment;
use crate::triangle::{min2, in_tri_bbox, tri_contains, fill_triangle};

verus! {

/// Fixed-point units per 1.0 of normalized device coordinates.
pub const SCALE: i32 = 65536;

/// Projection of one normalized fixed-point coordinate onto a screen
/// axis of `dim` pixels: `(c + 1) * dim / 2`, clamped to `dim - 1`.
pub open spec fn project_spec(c: int, dim: int) -> int {
    min2(((c + 65536) * dim) / 131072, dim - 1)
}

/// Projects one coordinate; the result always lies on the axis.
pub fn project_coord(c: i32, dim: u32) -> (r: u32)
    requires
        -65536 <= c <= 65536,
        1 <= dim,
    ensures
        r as int == project_spec(c as int, dim as int),
        r < dim,
{
    proof {
        assert((c as int + 65536) * (dim as int) <= 131072 * (dim as int)) by (nonlinear_arith)
            requires
                c as int + 65536 <= 131072,
                dim as int >= 1,
        ;
        assert((c as int + 65536) * (dim as int) >= 0) by (nonlinear_arith)
            requires
                c as int + 65536 >= 0,
                dim as int >= 1,
        ;
        assert(131072 * (dim as int) <= 0x8_0000_0000_0000) by (nonlinear_arith)
            requires
                1 <= dim as int <= 0x1_0000_0000,
        ;
    }
    let num: i64 = (c as i64 + 65536) * (dim as i64);
    let v: i64 = num / 131072;
    proof {
        vstd::arithmetic::div_mod::lemma_div_pos_is_pos(num as int, 131072);
        vstd::arithmetic::div_mod::lemma_div_is_ordered(num as int, 131072 * (dim as int), 131072);
        vstd::arithmetic::div_mod::lemma_div_by_multiple(dim as int, 131072);
        assert(131072 * (dim as int) == (dim as int) * 131072) by (nonlinear_arith);
    }
    if v > dim as i64 - 1 {
        dim - 1
    } else {
        v as u32
    }
}

/// A corner of the normalized square lands on the corner pixel: `-1.0`
/// maps to row or column `0`, and `1.0` maps to `dim - 1`.
pub proof fn lemma_project_corners(dim: int)
    requires
        dim >= 1,
    ensures
        project_spec(-65536, dim) == 0,
        project_spec(65536, dim) == dim - 1,
{
    assert((-65536 + 65536) * dim == 0) by (nonlinear_arith);
    vstd::arithmetic::div_mod::lemma_div_of0(131072);
    assert((65536 + 65536) * dim == dim * 131072) by (nonlinear_arith);
    vstd::arithmetic::div_mod::lemma_div_by_multiple(dim, 131072);
}

/// The screen position of one vertex: x projected on the width axis,
/// y on the height axis.
pub open spec fn project_vertex(v: (i32, i32, i32), w: int, h: int) -> (int, int) {
    (project_spec(v.0 as int, w), project_spec(v.1 as int, h))
}

/// One color painted over the pixels a predicate selects, the rest of
/// the map unchanged.
pub open spec fn paint_where(
    m: Map<(int, int), (u8, u8, u8, u8)>,
    sel: spec_fn((int, int)) -> bool,
    col: (u8, u8, u8, u8),
) -> Map<(int, int), (u8, u8, u8, u8)> {
    Map::new(
        |q: (int, int)| m.dom().contains(q),
        |q: (int, int)|
            if sel(q) {
                col
            } else {
                m[q]
            },
    )
}

/// The pixel map after the first `n` faces are drawn as wireframes:
/// for each face the segments vertex 0 to 1, 1 to 2, and 2 to 0.
pub open spec fn wire_after(
    m: Map<(int, int), (u8, u8, u8, u8)>,
    verts: Seq<(i32, i32, i32)>,
    faces: Seq<(usize, usize, usize)>,
    n: int,
    w: int,
    h: int,
    col: (u8, u8, u8, u8),
) -> Map<(int, int), (u8, u8, u8, u8)>
    decreases n,
{
    if n <= 0 {
        m
    } else {
        let prev = wire_after(m, verts, faces, n - 1, w, h, col);
        let f = faces[n - 1];
        let a = project_vertex(verts[f.0 as int], w, h);
        let b = project_vertex(verts[f.1 as int], w, h);
        let c = project_vertex(verts[f.2 as int], w, h);
        paint_where(
            paint_where(
                paint_where(prev, |q: (int, int)| on_segment(a, b, q), col),
                |q: (int, int)| on_segment(b, c, q),
                col,
            ),
            |q: (int, int)| on_segment(c, a, q),
            col,
        )
    }
}

/// The pixel map after the first `n` faces are drawn as barycentric
/// fills.
pub open spec fn fill_after(
    m: Map<(int, int), (u8, u8, u8, u8)>,
    verts: Seq<(i32, i32, i32)>,
    faces: Seq<(usize, usize, usize)>,
    n: int,
    w: int,
    h: int,
    col: (u8, u8, u8, u8),
) -> Map<(int, int), (u8, u8, u8, u8)>
    decreases n,
{
    if n <= 0 {
        m
    } else {
        let prev = fill_after(m, verts, faces, n - 1, w, h, col);
        let f = faces[n - 1];
        let a = project_vertex(verts[f.0 as int], w, h);
        let b = project_vertex(verts[f.1 as int], w, h);
        let c = project_vertex(verts[f.2 as int], w, h);
        paint_where(
            prev,
            |q: (int, int)| in_tri_bbox(a, b, c, q) && tri_contains(a, b, c, q),
            col,
        )
    }
}

/// Whether every face indexes an existing vertex.
pub open spec fn faces_in_bounds(faces: Seq<(usize, usize, usize)>, n_verts: int) -> bool {
    forall|i: int|
        0 <= i < faces.len() ==> (#[trigger] faces[i]).0 < n_verts && faces[i].1 < n_verts
            && faces[i].2 < n_verts
}

/// Whether every vertex coordinate lies in the normalized range.
pub open spec fn verts_in_range(verts: Seq<(i32, i32, i32)>) -> bool {
    forall|i: int|
        0 <= i < verts.len() ==> -65536 <= (#[trigger] verts[i]).0 <= 65536 && -65536
            <= verts[i].1 <= 65536
}

/// Draws every face of the mesh as a wireframe of three segments
/// between the projected vertex positions.
pub fn render_wireframe(
    verts: &Vec<(i32, i32, i32)>,
    faces: &Vec<(usize, usize, usize)>,
    canvas: &mut Canvas,
    color: Color,
)
    requires
        canvas_wf(*old(canvas)),
        1 <= canvas_width(*old(canvas)) <= 0x8000_0000,
        1 <= canvas_height(*old(canvas)) <= 0x8000_0000,
        faces_in_bounds(faces@, verts@.len() as int),
        verts_in_range(verts@),
    ensures
        canvas_dims(*final(canvas)) == canvas_dims(*old(canvas)),
        canvas_wf(*final(canvas)),
        canvas_pixels(*final(canvas)) == wire_after(
            canvas_pixels(*old(canvas)),
            verts@,
            faces@,
            faces@.len() as int,
            canvas_width(*old(canvas)),
            canvas_height(*old(canvas)),
            color@,
        ),
{
    let ghost p0 = canvas_pixels(*canvas);
    let ghost w = canvas_width(*old(canvas));
    let ghost h = canvas_height(*old(canvas));
    let width = canvas.width();
    let height = canvas.height();
    let mut i: usize = 0;
    while i < faces.len()
        invariant
            0 <= i <= faces@.len(),
            canvas_wf(*canvas),
            canvas_dims(*canvas) == canvas_dims(*old(canvas)),
            w == canvas_width(*old(canvas)),
            h == canvas_height(*old(canvas)),
            width as int == w,
            height as int == h,
            1 <= w <= 0x8000_0000,
            1 <= h <= 0x8000_0000,
            faces_in_bounds(faces@, verts@.len() as int),
            verts_in_range(verts@),
            canvas_pixels(*canvas) == wire_after(p0, verts@, faces@, i as int, w, h, color@),
        decreases faces@.len() - i,
    {
        let f = faces[i];
        let va = verts[f.0];
        let vb = verts[f.1];
        let vc = verts[f.2];
        let ax = project_coord(va.0, width) as i32;
        let ay = project_coord(va.1, height) as i32;
        let bx = project_coord(vb.0, width) as i32;
        let by = project_coord(vb.1, height) as i32;
        let cx = project_coord(vc.0, width) as i32;
        let cy = project_coord(vc.1, height) as i32;
        let ghost pa = (ax as int, ay as int);
        let ghost pb = (bx as int, by as int);
        let ghost pc = (cx as int, cy as int);
        let ghost before = canvas_pixels(*canvas);
        crate::line::draw_line((ax, ay), (bx, by), canvas, color);
        let ghost m1 = canvas_pixels(*canvas);
        proof {
            assert(m1 =~= paint_where(before, |q: (int, int)| on_segment(pa, pb, q), color@));
        }
        crate::line::draw_line((bx, by), (cx, cy), canvas, color);
        let ghost m2 = canvas_pixels(*canvas);
        proof {
            assert(m2 =~= paint_where(m1, |q: (int, int)| on_segment(pb, pc, q), color@));
        }
        crate::line::draw_line((cx, cy), (ax, ay), canvas, color);
        proof {
            assert(canvas_pixels(*canvas) =~= paint_where(
                m2,
                |q: (int, int)| on_segment(pc, pa, q),
                color@,
            ));
            assert(canvas_pixels(*canvas) == wire_after(
                p0,
                verts@,
                faces@,
                i as int + 1,
                w,
                h,
                color@,
            ));
        }
        i = i + 1;
    }
}

/// Draws every face of the mesh as a solid barycentric fill of the
/// projected triangle.
pub fn render_fill(
    verts: &Vec<(i32, i32, i32)>,
    faces: &Vec<(usize, usize, usize)>,
    canvas: &mut Canvas,
    color: Color,
)
    requires
        canvas_wf(*old(canvas)),
        1 <= canvas_width(*old(canvas)) <= 0x8000_0000,
        1 <= canvas_height(*old(canvas)) <= 0x8000_0000,
        faces_in_bounds(faces@, verts@.len() as int),
        verts_in_range(verts@),
    ensures
        canvas_dims(*final(canvas)) == canvas_dims(*old(canvas)),
        canvas_wf(*final(canvas)),
        canvas_pixels(*final(canvas)) == fill_after(
            canvas_pixels(*old(canvas)),
            verts@,
            faces@,
            faces@.len() as int,
            canvas_width(*old(canvas)),
            canvas_height(*old(canvas)),
            color@,
        ),
{
    let ghost p0 = canvas_pixels(*canvas);
    let ghost w = canvas_width(*old(canvas));
    let ghost h = canvas_height(*old(canvas));
    let width = canvas.width();
    let height = canvas.height();
    let mut i: usize = 0;
    while i < faces.len()
        invariant
            0 <= i <= faces@.len(),
            canvas_wf(*canvas),
            canvas_dims(*canvas) == canvas_dims(*old(canvas)),
            w == canvas_width(*old(canvas)),
            h == canvas_height(*old(canvas)),
            width as int == w,
            height as int == h,
            1 <= w <= 0x8000_0000,
            1 <= h <= 0x8000_0000,
            faces_in_bounds(faces@, verts@.len() as int),
            verts_in_range(verts@),
            canvas_pixels(*canvas) == fill_after(p0, verts@, faces@, i as int, w, h, color@),
        decreases faces@.len() - i,
    {
        let f = faces[i];
        let va = verts[f.0];
        let vb = verts[f.1];
        let vc = verts[f.2];
        let ax = project_coord(va.0, width) as i32;
        let ay = project_coord(va.1, height) as i32;
        let bx = project_coord(vb.0, width) as i32;
        let by = project_coord(vb.1, height) as i32;
        let cx = project_coord(vc.0, width) as i32;
        let cy = project_coord(vc.1, height) as i32;
        let ghost pa = (ax as int, ay as int);
        let ghost pb = (bx as int, by as int);
        let ghost pc = (cx as int, cy as int);
        let ghost before = canvas_pixels(*canvas);
        fill_triangle((ax, ay), (bx, by), (cx, cy), canvas, color);
        proof {
            assert(canvas_pixels(*canvas) =~= paint_where(
                before,
                |q: (int, int)| in_tri_bbox(pa, pb, pc, q) && tri_contains(pa, pb, pc, q),
                color@,
            ));
            assert(canvas_pixels(*canvas) == fill_after(
                p0,
                verts@,
                faces@,
                i as int + 1,
                w,
                h,
                color@,
            ));
        }
        i = i + 1;
    }
}

} // verus!
