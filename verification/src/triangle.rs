//! The triangle rasterizers: a barycentric bounding-box fill, which
//! tests every pixel of the clamped bounding box against the triangle's
//! three edge functions, and a scanline edge-interpolation fill.

use vstd::prelude::*;
use crate::canvas::{Canvas, Color, canvas_dims, canvas_pixels, canvas_wf, canvas_width,
    canvas_height, in_canvas};

verus! {

/// Twice the signed area spanned by `a -> b` and `a -> p`: positive
/// when `p` lies to the left of the directed edge.
pub open spec fn edge_fn(a: (int, int), b: (int, int), p: (int, int)) -> int {
    (b.0 - a.0) * (p.1 - a.1) - (b.1 - a.1) * (p.0 - a.0)
}

pub open spec fn min3(a: int, b: int, c: int) -> int {
    if a <= b && a <= c {
        a
    } else if b <= c {
        b
    } else {
        c
    }
}

pub open spec fn max3(a: int, b: int, c: int) -> int {
    if a >= b && a >= c {
        a
    } else if b >= c {
        b
    } else {
        c
    }
}

/// Whether `p` lies in the axis-aligned bounding box of the three
/// vertices.
pub open spec fn in_tri_bbox(t0: (int, int), t1: (int, int), t2: (int, int), p: (int, int)) -> bool {
    &&& min3(t0.0, t1.0, t2.0) <= p.0 <= max3(t0.0, t1.0, t2.0)
    &&& min3(t0.1, t1.1, t2.1) <= p.1 <= max3(t0.1, t1.1, t2.1)
}

/// Whether `p` lies in the closed triangle: all three barycentric
/// coordinates are at least zero, which the edge functions decide by
/// sharing the sign of the doubled area. A degenerate triangle with
/// zero area contains nothing: its pixels are forced outside rather
/// than divided by zero.
pub open spec fn tri_contains(t0: (int, int), t1: (int, int), t2: (int, int), p: (int, int)) -> bool {
    let d = edge_fn(t0, t1, t2);
    if d > 0 {
        edge_fn(t0, t1, p) >= 0 && edge_fn(t1, t2, p) >= 0 && edge_fn(t2, t0, p) >= 0
    } else if d < 0 {
        edge_fn(t0, t1, p) <= 0 && edge_fn(t1, t2, p) <= 0 && edge_fn(t2, t0, p) <= 0
    } else {
        false
    }
}


/// Evaluates an edge function in machine arithmetic; the coordinate
/// bound keeps every product far inside the wide integer range.
fn edge_val(ax: i64, ay: i64, bx: i64, by: i64, px: i64, py: i64) -> (r: i128)
    requires
        -0x4_0000_0000 <= ax <= 0x4_0000_0000,
        -0x4_0000_0000 <= ay <= 0x4_0000_0000,
        -0x4_0000_0000 <= bx <= 0x4_0000_0000,
        -0x4_0000_0000 <= by <= 0x4_0000_0000,
        -0x4_0000_0000 <= px <= 0x4_0000_0000,
        -0x4_0000_0000 <= py <= 0x4_0000_0000,
    ensures
        r == edge_fn((ax as int, ay as int), (bx as int, by as int), (px as int, py as int)),
{
    let ux: i128 = bx as i128 - ax as i128;
    let uy: i128 = by as i128 - ay as i128;
    let vx: i128 = px as i128 - ax as i128;
    let vy: i128 = py as i128 - ay as i128;
    proof {
        assert(-0x100_0000_0000_0000_0000 <= ux * vy <= 0x100_0000_0000_0000_0000)
            by (nonlinear_arith)
            requires
                -0x8_0000_0000 <= ux <= 0x8_0000_0000,
                -0x8_0000_0000 <= vy <= 0x8_0000_0000,
        ;
        assert(-0x100_0000_0000_0000_0000 <= uy * vx <= 0x100_0000_0000_0000_0000)
            by (nonlinear_arith)
            requires
                -0x8_0000_0000 <= uy <= 0x8_0000_0000,
                -0x8_0000_0000 <= vx <= 0x8_0000_0000,
        ;
    }
    ux * vy - uy * vx
}

/// Fills the triangle's interior, edge pixels included: every canvas
/// pixel inside both the bounding box and the triangle receives the
/// color, every other pixel keeps its value. Vertices may lie off the
/// canvas; the walk is clamped to the canvas. Ties at an edge count as
/// inside, so triangles sharing an edge both paint the shared pixels.
pub fn fill_triangle(t0: (i32, i32), t1: (i32, i32), t2: (i32, i32), canvas: &mut Canvas, color: Color)
    requires
        canvas_wf(*old(canvas)),
    ensures
        canvas_dims(*final(canvas)) == canvas_dims(*old(canvas)),
        canvas_wf(*final(canvas)),
        forall|q: (int, int)|
            in_canvas(*old(canvas), q.0, q.1) ==> canvas_pixels(*final(canvas))[q] == (
            if in_tri_bbox(
                (t0.0 as int, t0.1 as int),
                (t1.0 as int, t1.1 as int),
                (t2.0 as int, t2.1 as int),
                q,
            ) && tri_contains(
                (t0.0 as int, t0.1 as int),
                (t1.0 as int, t1.1 as int),
                (t2.0 as int, t2.1 as int),
                q,
            ) {
                color@
            } else {
                canvas_pixels(*old(canvas))[q]
            }),
{
    let ghost g0 = (t0.0 as int, t0.1 as int);
    let ghost g1 = (t1.0 as int, t1.1 as int);
    let ghost g2 = (t2.0 as int, t2.1 as int);
    let ghost p = canvas_pixels(*canvas);
    let d: i128 = edge_val(
        t0.0 as i64,
        t0.1 as i64,
        t1.0 as i64,
        t1.1 as i64,
        t2.0 as i64,
        t2.1 as i64,
    );
    if d == 0 {
        return ;
    }
    let w = canvas.width();
    let h = canvas.height();
    if w == 0 || h == 0 {
        return ;
    }
    let mut xmin = t0.0;
    if t1.0 < xmin {
        xmin = t1.0;
    }
    if t2.0 < xmin {
        xmin = t2.0;
    }
    let mut xmax = t0.0;
    if t1.0 > xmax {
        xmax = t1.0;
    }
    if t2.0 > xmax {
        xmax = t2.0;
    }
    let mut ymin = t0.1;
    if t1.1 < ymin {
        ymin = t1.1;
    }
    if t2.1 < ymin {
        ymin = t2.1;
    }
    let mut ymax = t0.1;
    if t1.1 > ymax {
        ymax = t1.1;
    }
    if t2.1 > ymax {
        ymax = t2.1;
    }
    let x_lo: i64 = if xmin < 0 {
        0
    } else {
        xmin as i64
    };
    let x_hi: i64 = if (xmax as i64) < (w as i64) - 1 {
        xmax as i64
    } else {
        (w as i64) - 1
    };
    let y_lo: i64 = if ymin < 0 {
        0
    } else {
        ymin as i64
    };
    let y_hi: i64 = if (ymax as i64) < (h as i64) - 1 {
        ymax as i64
    } else {
        (h as i64) - 1
    };
    if x_lo > x_hi || y_lo > y_hi {
        return ;
    }
    let mut y: i64 = y_lo;
    loop
        invariant_except_break
            forall|q: (int, int)|
                in_canvas(*old(canvas), q.0, q.1) ==> canvas_pixels(*canvas)[q] == (
                if in_tri_bbox(g0, g1, g2, q) && tri_contains(g0, g1, g2, q) && q.1 < y {
                    color@
                } else {
                    p[q]
                }),
        invariant
            y_lo <= y <= y_hi,
            y_lo == if min3(g0.1, g1.1, g2.1) < 0 {
                0
            } else {
                min3(g0.1, g1.1, g2.1)
            },
            y_hi == if max3(g0.1, g1.1, g2.1) < canvas_height(*old(canvas)) - 1 {
                max3(g0.1, g1.1, g2.1)
            } else {
                canvas_height(*old(canvas)) - 1
            },
            x_lo == if min3(g0.0, g1.0, g2.0) < 0 {
                0
            } else {
                min3(g0.0, g1.0, g2.0)
            },
            x_hi == if max3(g0.0, g1.0, g2.0) < canvas_width(*old(canvas)) - 1 {
                max3(g0.0, g1.0, g2.0)
            } else {
                canvas_width(*old(canvas)) - 1
            },
            x_lo <= x_hi,
            y_lo <= y_hi,
            g0 == (t0.0 as int, t0.1 as int),
            g1 == (t1.0 as int, t1.1 as int),
            g2 == (t2.0 as int, t2.1 as int),
            d == edge_fn(g0, g1, g2),
            d != 0,
            canvas_dims(*canvas) == canvas_dims(*old(canvas)),
            canvas_wf(*canvas),
            p == canvas_pixels(*old(canvas)),
        ensures
            canvas_dims(*canvas) == canvas_dims(*old(canvas)),
            canvas_wf(*canvas),
            forall|q: (int, int)|
                in_canvas(*old(canvas), q.0, q.1) ==> canvas_pixels(*canvas)[q] == (
                if in_tri_bbox(g0, g1, g2, q) && tri_contains(g0, g1, g2, q) {
                    color@
                } else {
                    p[q]
                }),
        decreases y_hi + 1 - y,
    {
        let mut x: i64 = x_lo;
        loop
            invariant_except_break
                forall|q: (int, int)|
                    in_canvas(*old(canvas), q.0, q.1) ==> canvas_pixels(*canvas)[q] == (
                    if in_tri_bbox(g0, g1, g2, q) && tri_contains(g0, g1, g2, q) && (q.1 < y || (
                    q.1 == y && q.0 < x)) {
                        color@
                    } else {
                        p[q]
                    }),
            invariant
                x_lo <= x <= x_hi,
                y_lo <= y <= y_hi,
                y_lo == if min3(g0.1, g1.1, g2.1) < 0 {
                    0
                } else {
                    min3(g0.1, g1.1, g2.1)
                },
                y_hi == if max3(g0.1, g1.1, g2.1) < canvas_height(*old(canvas)) - 1 {
                    max3(g0.1, g1.1, g2.1)
                } else {
                    canvas_height(*old(canvas)) - 1
                },
                x_lo == if min3(g0.0, g1.0, g2.0) < 0 {
                    0
                } else {
                    min3(g0.0, g1.0, g2.0)
                },
                x_hi == if max3(g0.0, g1.0, g2.0) < canvas_width(*old(canvas)) - 1 {
                    max3(g0.0, g1.0, g2.0)
                } else {
                    canvas_width(*old(canvas)) - 1
                },
                x_lo <= x_hi,
                g0 == (t0.0 as int, t0.1 as int),
                g1 == (t1.0 as int, t1.1 as int),
                g2 == (t2.0 as int, t2.1 as int),
                d == edge_fn(g0, g1, g2),
                d != 0,
                canvas_dims(*canvas) == canvas_dims(*old(canvas)),
                canvas_wf(*canvas),
                p == canvas_pixels(*old(canvas)),
            ensures
                y_lo <= y <= y_hi,
                canvas_dims(*canvas) == canvas_dims(*old(canvas)),
                canvas_wf(*canvas),
                forall|q: (int, int)|
                    in_canvas(*old(canvas), q.0, q.1) ==> canvas_pixels(*canvas)[q] == (
                    if in_tri_bbox(g0, g1, g2, q) && tri_contains(g0, g1, g2, q) && q.1 < y + 1 {
                        color@
                    } else {
                        p[q]
                    }),
            decreases x_hi + 1 - x,
        {
            let e01: i128 = edge_val(t0.0 as i64, t0.1 as i64, t1.0 as i64, t1.1 as i64, x, y);
            let e12: i128 = edge_val(t1.0 as i64, t1.1 as i64, t2.0 as i64, t2.1 as i64, x, y);
            let e20: i128 = edge_val(t2.0 as i64, t2.1 as i64, t0.0 as i64, t0.1 as i64, x, y);
            let inside: bool = if d > 0 {
                e01 >= 0 && e12 >= 0 && e20 >= 0
            } else {
                e01 <= 0 && e12 <= 0 && e20 <= 0
            };
            proof {
                assert(inside == tri_contains(g0, g1, g2, (x as int, y as int)));
                assert(in_tri_bbox(g0, g1, g2, (x as int, y as int)));
            }
            if inside {
                canvas.put_pixel(x as u32, y as u32, color);
                proof {
                    assert(canvas_pixels(*canvas).dom() =~= Set::new(
                        |q: (int, int)| in_canvas(*canvas, q.0, q.1),
                    ));
                }
            }
            proof {
                assert forall|q: (int, int)| in_canvas(*old(canvas), q.0, q.1) implies
                    canvas_pixels(*canvas)[q] == (if in_tri_bbox(g0, g1, g2, q) && tri_contains(
                    g0,
                    g1,
                    g2,
                    q,
                ) && (q.1 < y || (q.1 == y && q.0 < x + 1)) {
                    color@
                } else {
                    p[q]
                }) by {};
            }
            if x == x_hi {
                proof {
                    assert forall|q: (int, int)|
                        in_canvas(*old(canvas), q.0, q.1) && in_tri_bbox(g0, g1, g2, q)
                            && tri_contains(g0, g1, g2, q) && q.1 < y + 1 implies (q.1 < y || (
                    q.1 == y && q.0 < x + 1)) by {};
                }
                break ;
            }
            x = x + 1;
        }
        if y == y_hi {
            proof {
                assert forall|q: (int, int)|
                    in_canvas(*old(canvas), q.0, q.1) && in_tri_bbox(g0, g1, g2, q) implies q.1
                    < y + 1 by {};
            }
            break ;
        }
        y = y + 1;
    }
}

/// Swapping two vertices negates the doubled area and every edge
/// function, so the sign-matched containment test is unchanged.
proof fn lemma_contains_swap01(t0: (int, int), t1: (int, int), t2: (int, int), p: (int, int))
    ensures
        tri_contains(t0, t1, t2, p) == tri_contains(t1, t0, t2, p),
{
    let x0 = t0.0;
    let y0 = t0.1;
    let x1 = t1.0;
    let y1 = t1.1;
    let x2 = t2.0;
    let y2 = t2.1;
    let px = p.0;
    let py = p.1;
    assert((x0 - x1) * (y2 - y1) - (y0 - y1) * (x2 - x1) == -((x1 - x0) * (y2 - y0) - (y1 - y0)
        * (x2 - x0))) by (nonlinear_arith);
    assert((x0 - x1) * (py - y1) - (y0 - y1) * (px - x1) == -((x1 - x0) * (py - y0) - (y1 - y0)
        * (px - x0))) by (nonlinear_arith);
    assert((x2 - x0) * (py - y0) - (y2 - y0) * (px - x0) == -((x0 - x2) * (py - y2) - (y0 - y2)
        * (px - x2))) by (nonlinear_arith);
    assert((x1 - x2) * (py - y2) - (y1 - y2) * (px - x2) == -((x2 - x1) * (py - y1) - (y2 - y1)
        * (px - x1))) by (nonlinear_arith);
}

/// Rotating the three vertices keeps the doubled area and permutes the
/// edge functions, so the containment test is unchanged.
proof fn lemma_contains_rotate(t0: (int, int), t1: (int, int), t2: (int, int), p: (int, int))
    ensures
        tri_contains(t0, t1, t2, p) == tri_contains(t1, t2, t0, p),
{
    let x0 = t0.0;
    let y0 = t0.1;
    let x1 = t1.0;
    let y1 = t1.1;
    let x2 = t2.0;
    let y2 = t2.1;
    assert((x2 - x1) * (y0 - y1) - (y2 - y1) * (x0 - x1) == (x1 - x0) * (y2 - y0) - (y1 - y0) * (
    x2 - x0)) by (nonlinear_arith);
}

/// The barycentric containment test does not depend on the order in
/// which the three vertices are given: each coordinate is sign-tested
/// individually against the doubled area's sign.
pub proof fn lemma_winding_independent(t0: (int, int), t1: (int, int), t2: (int, int), p: (int, int))
    ensures
        tri_contains(t0, t1, t2, p) == tri_contains(t1, t2, t0, p),
        tri_contains(t0, t1, t2, p) == tri_contains(t2, t0, t1, p),
        tri_contains(t0, t1, t2, p) == tri_contains(t1, t0, t2, p),
        tri_contains(t0, t1, t2, p) == tri_contains(t0, t2, t1, p),
        tri_contains(t0, t1, t2, p) == tri_contains(t2, t1, t0, p),
{
    lemma_contains_rotate(t0, t1, t2, p);
    lemma_contains_rotate(t1, t2, t0, p);
    lemma_contains_swap01(t0, t1, t2, p);
    lemma_contains_swap01(t1, t2, t0, p);
    lemma_contains_swap01(t2, t0, t1, p);
}

/// The bounding box does not depend on the vertex order either, so the
/// whole filled pixel set is winding independent.
pub proof fn lemma_bbox_winding_independent(t0: (int, int), t1: (int, int), t2: (int, int), p: (int, int))
    ensures
        in_tri_bbox(t0, t1, t2, p) == in_tri_bbox(t1, t2, t0, p),
        in_tri_bbox(t0, t1, t2, p) == in_tri_bbox(t2, t0, t1, p),
        in_tri_bbox(t0, t1, t2, p) == in_tri_bbox(t1, t0, t2, p),
        in_tri_bbox(t0, t1, t2, p) == in_tri_bbox(t0, t2, t1, p),
        in_tri_bbox(t0, t1, t2, p) == in_tri_bbox(t2, t1, t0, p),
{
}

pub open spec fn min2(a: int, b: int) -> int {
    if a <= b {
        a
    } else {
        b
    }
}

pub open spec fn max2(a: int, b: int) -> int {
    if a >= b {
        a
    } else {
        b
    }
}

/// Ceiling of `n / d` for a positive `d`, written with floor division.
pub open spec fn ceil_div(n: int, d: int) -> int {
    (n + d - 1) / d
}

/// The scanline walker after `k` of `dy` steps from `x_from` toward
/// `x_to`: the exact running position `x_from + k * (x_to - x_from) / dy`,
/// rounded up to the next pixel column.
pub open spec fn interp_ceil(x_from: int, x_to: int, dy: int, k: int) -> int {
    ceil_div(x_from * dy + k * (x_to - x_from), dy)
}

/// The walker never leaves the closed interval between its endpoints.
pub proof fn lemma_interp_bounds(x_from: int, x_to: int, dy: int, k: int)
    requires
        0 <= x_from,
        0 <= x_to,
        1 <= dy,
        0 <= k <= dy,
    ensures
        min2(x_from, x_to) <= interp_ceil(x_from, x_to, dy, k) <= max2(x_from, x_to),
{
    {
        let n = x_from * dy + k * (x_to - x_from);
        let lo = min2(x_from, x_to);
        let hi = max2(x_from, x_to);
        assert(dy * lo <= n <= dy * hi) by (nonlinear_arith)
            requires
                1 <= dy,
                0 <= k <= dy,
                lo == min2(x_from, x_to),
                hi == max2(x_from, x_to),
                n == x_from * dy + k * (x_to - x_from),
        ;
        assert(interp_ceil(x_from, x_to, dy, k) >= lo) by {
            vstd::arithmetic::div_mod::lemma_div_is_ordered(dy * lo, n + dy - 1, dy);
            vstd::arithmetic::div_mod::lemma_div_by_multiple(lo, dy);
            assert(dy * lo == lo * dy) by (nonlinear_arith);
        };
        assert(interp_ceil(x_from, x_to, dy, k) <= hi) by {
            assert(n + dy - 1 < (hi + 1) * dy) by (nonlinear_arith)
                requires
                    1 <= dy,
                    n <= dy * hi,
            ;
            vstd::arithmetic::div_mod::lemma_div_by_multiple_is_strongly_ordered(
                n + dy - 1,
                (hi + 1) * dy,
                hi + 1,
                dy,
            );
            vstd::arithmetic::div_mod::lemma_div_by_multiple(hi + 1, dy);
        };
    }
}

/// One scanline walker step, in machine arithmetic.
fn interp_x(x_from: i32, x_to: i32, dy: i32, k: i32) -> (r: i32)
    requires
        0 <= x_from,
        0 <= x_to,
        1 <= dy,
        0 <= k <= dy,
    ensures
        r as int == interp_ceil(x_from as int, x_to as int, dy as int, k as int),
        min2(x_from as int, x_to as int) <= r as int <= max2(x_from as int, x_to as int),
{
    proof {
        lemma_interp_bounds(x_from as int, x_to as int, dy as int, k as int);
        assert(0 <= (x_from as i64) * (dy as i64) <= 0x3fff_ffff_ffff_ffff) by (nonlinear_arith)
            requires
                0 <= x_from as i64 <= 0x7fff_ffff,
                0 <= dy as i64 <= 0x7fff_ffff,
        ;
        assert(-0x3fff_ffff_ffff_ffff <= (k as i64) * (x_to as i64 - x_from as i64)
            <= 0x3fff_ffff_ffff_ffff) by (nonlinear_arith)
            requires
                0 <= k as i64 <= 0x7fff_ffff,
                -0x7fff_ffff <= x_to as i64 - x_from as i64 <= 0x7fff_ffff,
        ;
    }
    let n: i64 = (x_from as i64) * (dy as i64) + (k as i64) * (x_to as i64 - x_from as i64);
    proof {
        assert(n >= (dy as int) * min2(x_from as int, x_to as int)) by (nonlinear_arith)
            requires
                1 <= dy as int,
                0 <= k as int <= dy as int,
                n == (x_from as int) * (dy as int) + (k as int) * ((x_to as int) - (
                x_from as int)),
        ;
        assert((dy as int) * min2(x_from as int, x_to as int) >= 0) by (nonlinear_arith)
            requires
                1 <= dy as int,
                0 <= min2(x_from as int, x_to as int),
        ;
        assert(n <= (dy as int) * max2(x_from as int, x_to as int)) by (nonlinear_arith)
            requires
                1 <= dy as int,
                0 <= k as int <= dy as int,
                n == (x_from as int) * (dy as int) + (k as int) * ((x_to as int) - (
                x_from as int)),
        ;
        assert((dy as int) * max2(x_from as int, x_to as int) <= 0x3fff_ffff_ffff_ffff)
            by (nonlinear_arith)
            requires
                1 <= dy as int <= 0x7fff_ffff,
                0 <= max2(x_from as int, x_to as int) <= 0x7fff_ffff,
        ;
    }
    let r64: i64 = (n + (dy as i64) - 1) / (dy as i64);
    r64 as i32
}

/// The three vertices sorted by ascending y, stably: on a tie the
/// earlier vertex stays first, as a stable sort keyed on y alone.
pub open spec fn ysorted(t0: (int, int), t1: (int, int), t2: (int, int)) -> (
    (int, int),
    (int, int),
    (int, int),
) {
    let a = if t1.1 < t0.1 {
        t1
    } else {
        t0
    };
    let b = if t1.1 < t0.1 {
        t0
    } else {
        t1
    };
    let b2 = if t2.1 < b.1 {
        t2
    } else {
        b
    };
    let c = if t2.1 < b.1 {
        b
    } else {
        t2
    };
    let a3 = if b2.1 < a.1 {
        b2
    } else {
        a
    };
    let b3 = if b2.1 < a.1 {
        a
    } else {
        b2
    };
    (a3, b3, c)
}

proof fn lemma_ysorted_props(t0: (int, int), t1: (int, int), t2: (int, int))
    ensures
        ysorted(t0, t1, t2).0.1 <= ysorted(t0, t1, t2).1.1,
        ysorted(t0, t1, t2).1.1 <= ysorted(t0, t1, t2).2.1,
        ysorted(t0, t1, t2).0 == t0 || ysorted(t0, t1, t2).0 == t1 || ysorted(t0, t1, t2).0 == t2,
        ysorted(t0, t1, t2).1 == t0 || ysorted(t0, t1, t2).1 == t1 || ysorted(t0, t1, t2).1 == t2,
        ysorted(t0, t1, t2).2 == t0 || ysorted(t0, t1, t2).2 == t1 || ysorted(t0, t1, t2).2 == t2,
{
}

/// The left walker's column at scanline `y`: along the lower short edge
/// before the middle vertex, along the upper short edge after it. The
/// sweep starts one slope step past the top vertex, as the walker is
/// advanced before each scanline is drawn.
pub open spec fn scan_xa(v0: (int, int), v1: (int, int), v2: (int, int), y: int) -> int {
    if y < v1.1 {
        interp_ceil(v0.0, v1.0, v1.1 - v0.1, y - v0.1 + 1)
    } else {
        interp_ceil(v1.0, v2.0, v2.1 - v1.1, y - v1.1 + 1)
    }
}

/// The right walker's column at scanline `y`, along the long edge from
/// the top vertex to the bottom vertex.
pub open spec fn scan_xb(v0: (int, int), v1: (int, int), v2: (int, int), y: int) -> int {
    interp_ceil(v0.0, v2.0, v2.1 - v0.1, y - v0.1 + 1)
}

/// Whether `q` lies on a fill scanline of the triangle: its row is
/// strictly between the top and bottom vertex rows, and its column
/// between the two walkers.
pub open spec fn tri_scan_covers(t0: (int, int), t1: (int, int), t2: (int, int), q: (int, int)) -> bool {
    let v0 = ysorted(t0, t1, t2).0;
    let v1 = ysorted(t0, t1, t2).1;
    let v2 = ysorted(t0, t1, t2).2;
    let xa = scan_xa(v0, v1, v2, q.1);
    let xb = scan_xb(v0, v1, v2, q.1);
    v0.1 <= q.1 < v2.1 && min2(xa, xb) <= q.0 <= max2(xa, xb)
}

/// Whether `q` lies on one of the triangle's three edges.
pub open spec fn tri_edges_cover(t0: (int, int), t1: (int, int), t2: (int, int), q: (int, int)) -> bool {
    ||| crate::line::on_segment(t0, t1, q)
    ||| crate::line::on_segment(t1, t2, q)
    ||| crate::line::on_segment(t0, t2, q)
}

/// Scanline edge-interpolation fill: draws the three edges in the edge
/// color, then fills every scanline between the two interpolated edge
/// walkers with the fill color, sweeping from the top vertex to the
/// middle vertex and on to the bottom vertex. A span whose two vertices
/// share a row is skipped, so a degenerate pair never divides by zero;
/// after an empty first sweep the second starts from the middle vertex.
pub fn triangle(
    t0: (i32, i32),
    t1: (i32, i32),
    t2: (i32, i32),
    canvas: &mut Canvas,
    fill: Color,
    edge: Color,
)
    requires
        canvas_wf(*old(canvas)),
        in_canvas(*old(canvas), t0.0 as int, t0.1 as int),
        in_canvas(*old(canvas), t1.0 as int, t1.1 as int),
        in_canvas(*old(canvas), t2.0 as int, t2.1 as int),
    ensures
        canvas_dims(*final(canvas)) == canvas_dims(*old(canvas)),
        canvas_wf(*final(canvas)),
        forall|q: (int, int)|
            in_canvas(*old(canvas), q.0, q.1) ==> canvas_pixels(*final(canvas))[q] == (
            if tri_scan_covers(
                (t0.0 as int, t0.1 as int),
                (t1.0 as int, t1.1 as int),
                (t2.0 as int, t2.1 as int),
                q,
            ) {
                fill@
            } else if tri_edges_cover(
                (t0.0 as int, t0.1 as int),
                (t1.0 as int, t1.1 as int),
                (t2.0 as int, t2.1 as int),
                q,
            ) {
                edge@
            } else {
                canvas_pixels(*old(canvas))[q]
            }),
{
    let ghost g0 = (t0.0 as int, t0.1 as int);
    let ghost g1 = (t1.0 as int, t1.1 as int);
    let ghost g2 = (t2.0 as int, t2.1 as int);
    let ghost p0 = canvas_pixels(*canvas);
    crate::line::draw_line(t0, t1, canvas, edge);
    crate::line::draw_line(t1, t2, canvas, edge);
    crate::line::draw_line(t0, t2, canvas, edge);
    let ghost p1 = canvas_pixels(*canvas);
    proof {
        assert forall|q: (int, int)| in_canvas(*old(canvas), q.0, q.1) implies p1[q] == (
        if tri_edges_cover(g0, g1, g2, q) {
            edge@
        } else {
            p0[q]
        }) by {};
    }
    let mut a = t0;
    let mut b = t1;
    let mut c = t2;
    if b.1 < a.1 {
        let t = a;
        a = b;
        b = t;
    }
    if c.1 < b.1 {
        let t = b;
        b = c;
        c = t;
    }
    if b.1 < a.1 {
        let t = a;
        a = b;
        b = t;
    }
    let ghost v0 = (a.0 as int, a.1 as int);
    let ghost v1 = (b.0 as int, b.1 as int);
    let ghost v2 = (c.0 as int, c.1 as int);
    proof {
        lemma_ysorted_props(g0, g1, g2);
        assert(ysorted(g0, g1, g2) == (v0, v1, v2));
    }
    let (x0, y0) = a;
    let (x1, y1) = b;
    let (x2, y2) = c;
    if y0 < y1 {
        let mut y = y0;
        loop
            invariant_except_break
                forall|q: (int, int)|
                    in_canvas(*old(canvas), q.0, q.1) ==> canvas_pixels(*canvas)[q] == (
                    if tri_scan_covers(g0, g1, g2, q) && q.1 < y {
                        fill@
                    } else {
                        p1[q]
                    }),
            invariant
                y0 <= y <= y1 - 1,
                y0 < y1,
                v0 == (x0 as int, y0 as int),
                v1 == (x1 as int, y1 as int),
                v2 == (x2 as int, y2 as int),
                ysorted(g0, g1, g2) == (v0, v1, v2),
                v0.1 <= v1.1 <= v2.1,
                v0 == g0 || v0 == g1 || v0 == g2,
                v1 == g0 || v1 == g1 || v1 == g2,
                v2 == g0 || v2 == g1 || v2 == g2,
                in_canvas(*old(canvas), g0.0, g0.1),
                in_canvas(*old(canvas), g1.0, g1.1),
                in_canvas(*old(canvas), g2.0, g2.1),
                canvas_dims(*canvas) == canvas_dims(*old(canvas)),
                canvas_wf(*canvas),
            ensures
                canvas_dims(*canvas) == canvas_dims(*old(canvas)),
                canvas_wf(*canvas),
                forall|q: (int, int)|
                    in_canvas(*old(canvas), q.0, q.1) ==> canvas_pixels(*canvas)[q] == (
                    if tri_scan_covers(g0, g1, g2, q) && q.1 < y1 as int {
                        fill@
                    } else {
                        p1[q]
                    }),
            decreases y1 - y,
        {
            let k = y - y0 + 1;
            let xa = interp_x(x0, x1, y1 - y0, k);
            let xb = interp_x(x0, x2, y2 - y0, k);
            let ghost pv = canvas_pixels(*canvas);
            crate::line::draw_line((xa, y), (xb, y), canvas, fill);
            proof {
                assert(scan_xa(v0, v1, v2, y as int) == xa as int);
                assert(scan_xb(v0, v1, v2, y as int) == xb as int);
                assert forall|q: (int, int)| in_canvas(*old(canvas), q.0, q.1) implies
                    canvas_pixels(*canvas)[q] == (if tri_scan_covers(g0, g1, g2, q) && q.1 < y + 1 {
                    fill@
                } else {
                    p1[q]
                }) by {
                    crate::line::lemma_horizontal_segment(
                        (xa as int, y as int),
                        (xb as int, y as int),
                        q,
                    );
                };
            }
            if y == y1 - 1 {
                break ;
            }
            y = y + 1;
        }
    }
    let ghost p2 = canvas_pixels(*canvas);
    proof {
        assert forall|q: (int, int)| in_canvas(*old(canvas), q.0, q.1) implies p2[q] == (
        if tri_scan_covers(g0, g1, g2, q) && q.1 < y1 as int {
            fill@
        } else {
            p1[q]
        }) by {};
    }
    if y1 < y2 {
        let mut y = y1;
        loop
            invariant_except_break
                forall|q: (int, int)|
                    in_canvas(*old(canvas), q.0, q.1) ==> canvas_pixels(*canvas)[q] == (
                    if tri_scan_covers(g0, g1, g2, q) && q.1 < y {
                        fill@
                    } else {
                        p1[q]
                    }),
            invariant
                y1 <= y <= y2 - 1,
                y1 < y2,
                v0 == (x0 as int, y0 as int),
                v1 == (x1 as int, y1 as int),
                v2 == (x2 as int, y2 as int),
                ysorted(g0, g1, g2) == (v0, v1, v2),
                v0.1 <= v1.1 <= v2.1,
                v0 == g0 || v0 == g1 || v0 == g2,
                v1 == g0 || v1 == g1 || v1 == g2,
                v2 == g0 || v2 == g1 || v2 == g2,
                in_canvas(*old(canvas), g0.0, g0.1),
                in_canvas(*old(canvas), g1.0, g1.1),
                in_canvas(*old(canvas), g2.0, g2.1),
                canvas_dims(*canvas) == canvas_dims(*old(canvas)),
                canvas_wf(*canvas),
            ensures
                canvas_dims(*canvas) == canvas_dims(*old(canvas)),
                canvas_wf(*canvas),
                forall|q: (int, int)|
                    in_canvas(*old(canvas), q.0, q.1) ==> canvas_pixels(*canvas)[q] == (
                    if tri_scan_covers(g0, g1, g2, q) && q.1 < y2 as int {
                        fill@
                    } else {
                        p1[q]
                    }),
            decreases y2 - y,
        {
            let j = y - y1 + 1;
            let xa = interp_x(x1, x2, y2 - y1, j);
            let xb = interp_x(x0, x2, y2 - y0, y - y0 + 1);
            crate::line::draw_line((xa, y), (xb, y), canvas, fill);
            proof {
                assert(scan_xa(v0, v1, v2, y as int) == xa as int);
                assert(scan_xb(v0, v1, v2, y as int) == xb as int);
                assert forall|q: (int, int)| in_canvas(*old(canvas), q.0, q.1) implies
                    canvas_pixels(*canvas)[q] == (if tri_scan_covers(g0, g1, g2, q) && q.1 < y + 1 {
                    fill@
                } else {
                    p1[q]
                }) by {
                    crate::line::lemma_horizontal_segment(
                        (xa as int, y as int),
                        (xb as int, y as int),
                        q,
                    );
                };
            }
            if y == y2 - 1 {
                break ;
            }
            y = y + 1;
        }
    }
    proof {
        assert forall|q: (int, int)| in_canvas(*old(canvas), q.0, q.1) implies canvas_pixels(
            *canvas,
        )[q] == (if tri_scan_covers(g0, g1, g2, q) {
            fill@
        } else if tri_edges_cover(g0, g1, g2, q) {
            edge@
        } else {
            p0[q]
        }) by {};
    }
}

} // verus!
