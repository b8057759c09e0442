//! The line rasterizer: walks the dominant axis of a segment in unit
//! steps with an integer accumulated-error term, writing exactly one
//! pixel per step, for every slope.

use vstd::prelude::*;
use crate::canvas::{Canvas, Color, canvas_dims, canvas_pixels, canvas_wf, in_canvas};

verus! {

pub open spec fn abs_val(a: int) -> int {
    if a < 0 {
        -a
    } else {
        a
    }
}

pub open spec fn sign(a: int) -> int {
    if a > 0 {
        1
    } else if a < 0 {
        -1
    } else {
        0
    }
}

/// The coordinates of a pixel pair, as mathematical integers.
pub open spec fn ipt(p: (i32, i32)) -> (int, int) {
    (p.0 as int, p.1 as int)
}

/// A segment is steep when its vertical extent exceeds its horizontal
/// extent; its pixels are then walked along y instead of x.
pub open spec fn steep(p0: (int, int), p1: (int, int)) -> bool {
    abs_val(p0.0 - p1.0) < abs_val(p0.1 - p1.1)
}

/// The endpoints after the steep axis swap and after ordering by the
/// dominant coordinate, so the walk always proceeds left to right.
pub open spec fn canon(p0: (int, int), p1: (int, int)) -> ((int, int), (int, int)) {
    let a = if steep(p0, p1) {
        (p0.1, p0.0)
    } else {
        p0
    };
    let b = if steep(p0, p1) {
        (p1.1, p1.0)
    } else {
        p1
    };
    if a.0 > b.0 {
        (b, a)
    } else {
        (a, b)
    }
}

/// How often the secondary coordinate has advanced after `k` unit steps
/// along the dominant axis: the error term gains `2 * ady` per step and
/// loses `2 * adx` per advance, staying in `(-adx, adx]`.
pub open spec fn advances(adx: int, ady: int, k: int) -> int {
    if adx <= 0 {
        0
    } else {
        (2 * k * ady + adx - 1) / (2 * adx)
    }
}

/// One pixel per unit step along the dominant axis.
pub open spec fn line_span(p0: (int, int), p1: (int, int)) -> int {
    if abs_val(p0.0 - p1.0) < abs_val(p0.1 - p1.1) {
        abs_val(p0.1 - p1.1)
    } else {
        abs_val(p0.0 - p1.0)
    }
}

/// The `k`-th pixel of the segment, counted along the dominant axis of
/// the canonical orientation.
pub open spec fn line_pixel(p0: (int, int), p1: (int, int), k: int) -> (int, int) {
    let a = canon(p0, p1).0;
    let b = canon(p0, p1).1;
    let cx = a.0 + k;
    let cy = a.1 + sign(b.1 - a.1) * advances(b.0 - a.0, abs_val(b.1 - a.1), k);
    if steep(p0, p1) {
        (cy, cx)
    } else {
        (cx, cy)
    }
}

/// Whether `q` is among the first `n` pixels of the segment.
pub open spec fn on_segment_prefix(p0: (int, int), p1: (int, int), n: int, q: (int, int)) -> bool {
    exists|k: int| 0 <= k < n && line_pixel(p0, p1, k) == q
}

/// Whether `q` is one of the segment's pixels.
pub open spec fn on_segment(p0: (int, int), p1: (int, int), q: (int, int)) -> bool {
    on_segment_prefix(p0, p1, line_span(p0, p1) + 1, q)
}

/// The accumulated-error characterization pins the advance count down:
/// any count whose error term lies in `(-adx, adx]` is the closed form.
proof fn lemma_advances_value(adx: int, ady: int, k: int, a: int)
    requires
        adx >= 1,
        -adx < 2 * k * ady - 2 * adx * a <= adx,
    ensures
        a == advances(adx, ady, k),
{
    let r = 2 * k * ady - 2 * adx * a + adx - 1;
    assert(0 <= r < 2 * adx);
    assert(2 * k * ady + adx - 1 == a * (2 * adx) + (2 * k * ady - 2 * adx * a + adx - 1))
        by (nonlinear_arith);
    vstd::arithmetic::div_mod::lemma_fundamental_div_mod_converse_div(
        2 * k * ady + adx - 1,
        2 * adx,
        a,
        r,
    );
}

/// After at most `adx` steps the secondary coordinate has advanced at
/// most `ady` times.
proof fn lemma_advances_bounds(adx: int, ady: int, k: int)
    requires
        0 <= ady <= adx,
        0 <= k <= adx,
    ensures
        0 <= advances(adx, ady, k) <= ady,
        advances(adx, ady, 0) == 0,
        k == adx ==> advances(adx, ady, k) == ady,
{
    if adx == 0 {
    } else {
        let a = advances(adx, ady, k);
        assert(a == (2 * k * ady + adx - 1) / (2 * adx));
        vstd::arithmetic::div_mod::lemma_div_pos_is_pos(2 * k * ady + adx - 1, 2 * adx);
        assert(2 * k * ady + adx - 1 >= 0) by (nonlinear_arith)
            requires
                k >= 0,
                ady >= 0,
                adx >= 1,
        ;
        assert(a <= ady) by {
            assert(2 * k * ady + adx - 1 < (ady + 1) * (2 * adx)) by (nonlinear_arith)
                requires
                    0 <= ady <= adx,
                    0 <= k <= adx,
                    adx >= 1,
            ;
            vstd::arithmetic::div_mod::lemma_div_by_multiple_is_strongly_ordered(
                2 * k * ady + adx - 1,
                (ady + 1) * (2 * adx),
                ady + 1,
                2 * adx,
            );
            vstd::arithmetic::div_mod::lemma_div_by_multiple(ady + 1, 2 * adx);
        };
        vstd::arithmetic::div_mod::lemma_basic_div(adx - 1, 2 * adx);
        assert(2 * 0 * ady == 0) by (nonlinear_arith);
        assert(advances(adx, ady, 0) == (adx - 1) / (2 * adx));
        if k == adx {
            lemma_advances_value(adx, ady, k, ady);
        }
    }
}

/// Draws the segment from `p0` to `p1` inclusive: exactly the pixels
/// `line_pixel(k)` for `0 <= k <= line_span` receive the color, and
/// every other pixel keeps its old value. Both endpoints must lie on
/// the canvas; the walk never leaves their bounding rectangle.
pub fn draw_line(p0: (i32, i32), p1: (i32, i32), canvas: &mut Canvas, color: Color)
    requires
        canvas_wf(*old(canvas)),
        in_canvas(*old(canvas), p0.0 as int, p0.1 as int),
        in_canvas(*old(canvas), p1.0 as int, p1.1 as int),
    ensures
        canvas_dims(*final(canvas)) == canvas_dims(*old(canvas)),
        canvas_wf(*final(canvas)),
        forall|q: (int, int)|
            in_canvas(*old(canvas), q.0, q.1) ==> canvas_pixels(*final(canvas))[q] == (
            if on_segment(ipt(p0), ipt(p1), q) {
                color@
            } else {
                canvas_pixels(*old(canvas))[q]
            }),
{
    let ghost gp0 = ipt(p0);
    let ghost gp1 = ipt(p1);
    let (mut x0, mut y0) = p0;
    let (mut x1, mut y1) = p1;
    let adx0 = if x0 < x1 {
        x1 - x0
    } else {
        x0 - x1
    };
    let ady0 = if y0 < y1 {
        y1 - y0
    } else {
        y0 - y1
    };
    let is_steep = adx0 < ady0;
    if is_steep {
        let t0 = x0;
        x0 = y0;
        y0 = t0;
        let t1 = x1;
        x1 = y1;
        y1 = t1;
    }
    if x0 > x1 {
        let tx = x0;
        x0 = x1;
        x1 = tx;
        let ty = y0;
        y0 = y1;
        y1 = ty;
    }
    proof {
        assert(is_steep == steep(gp0, gp1));
        assert(canon(gp0, gp1) == ((x0 as int, y0 as int), (x1 as int, y1 as int)));
        assert(line_span(gp0, gp1) == x1 - x0);
    }
    let dx = x1 - x0;
    let dy = y1 - y0;
    let ady = if dy < 0 {
        -dy
    } else {
        dy
    };
    let derror2: i64 = 2 * (ady as i64);
    let step: i32 = if dy > 0 {
        1
    } else if dy < 0 {
        -1
    } else {
        0
    };
    let mut error2: i64 = 0;
    let mut y = y0;
    let mut x = x0;
    let ghost p = canvas_pixels(*canvas);
    proof {
        lemma_advances_bounds(dx as int, ady as int, 0);
        assert(2 * 0 * (ady as int) == 0) by (nonlinear_arith);
        assert(2 * (dx as int) * 0 == 0) by (nonlinear_arith);
    }
    loop
        invariant_except_break
            forall|q: (int, int)|
                in_canvas(*old(canvas), q.0, q.1) ==> canvas_pixels(*canvas)[q] == (
                if on_segment_prefix(gp0, gp1, x - x0, q) {
                    color@
                } else {
                    p[q]
                }),
        invariant
            x0 <= x <= x1,
            dx == x1 - x0,
            dy == y1 - y0,
            ady == abs_val(dy as int),
            0 <= ady <= dx,
            derror2 == 2 * (ady as int),
            step as int == sign(dy as int),
            is_steep == steep(gp0, gp1),
            canon(gp0, gp1) == ((x0 as int, y0 as int), (x1 as int, y1 as int)),
            line_span(gp0, gp1) == dx,
            y as int == y0 + sign(dy as int) * advances(dx as int, ady as int, x - x0),
            error2 == 2 * (x - x0) * (ady as int) - 2 * (dx as int) * advances(
                dx as int,
                ady as int,
                x - x0,
            ),
            dx > 0 ==> -(dx as int) < error2 <= dx as int,
            dx == 0 ==> error2 == 0,
            canvas_dims(*canvas) == canvas_dims(*old(canvas)),
            canvas_wf(*canvas),
            p == canvas_pixels(*old(canvas)),
            !is_steep ==> in_canvas(*old(canvas), x0 as int, y0 as int) && in_canvas(
                *old(canvas),
                x1 as int,
                y1 as int,
            ),
            is_steep ==> in_canvas(*old(canvas), y0 as int, x0 as int) && in_canvas(
                *old(canvas),
                y1 as int,
                x1 as int,
            ),
        ensures
            canvas_dims(*canvas) == canvas_dims(*old(canvas)),
            canvas_wf(*canvas),
            forall|q: (int, int)|
                in_canvas(*old(canvas), q.0, q.1) ==> canvas_pixels(*canvas)[q] == (
                if on_segment(gp0, gp1, q) {
                    color@
                } else {
                    p[q]
                }),
        decreases dx - (x - x0),
    {
        let ghost k = x - x0;
        proof {
            lemma_advances_bounds(dx as int, ady as int, k);
            if dy as int >= 0 {
                assert(y0 <= y as int <= y1);
            } else {
                assert(y1 <= y as int <= y0);
            }
            assert(line_pixel(gp0, gp1, k) == if is_steep {
                (y as int, x as int)
            } else {
                (x as int, y as int)
            });
        }
        if is_steep {
            canvas.put_pixel(y as u32, x as u32, color);
        } else {
            canvas.put_pixel(x as u32, y as u32, color);
        }
        proof {
            let qk = line_pixel(gp0, gp1, k);
            assert forall|q: (int, int)| in_canvas(*old(canvas), q.0, q.1) implies canvas_pixels(
                *canvas,
            )[q] == (if on_segment_prefix(gp0, gp1, k + 1, q) {
                color@
            } else {
                p[q]
            }) by {
                if q == qk {
                    assert(on_segment_prefix(gp0, gp1, k + 1, q));
                } else {
                    if on_segment_prefix(gp0, gp1, k + 1, q) {
                        let j = choose|j: int|
                            0 <= j < k + 1 && line_pixel(gp0, gp1, j) == q;
                        assert(j < k && line_pixel(gp0, gp1, j) == q);
                        assert(on_segment_prefix(gp0, gp1, k, q));
                    } else {
                        assert(!on_segment_prefix(gp0, gp1, k, q));
                    }
                }
            };
            assert(canvas_pixels(*canvas).dom() =~= Set::new(
                |q: (int, int)| in_canvas(*canvas, q.0, q.1),
            ));
        }
        if x == x1 {
            proof {
                assert forall|q: (int, int)| in_canvas(*old(canvas), q.0, q.1) implies
                    canvas_pixels(*canvas)[q] == (if on_segment(gp0, gp1, q) {
                    color@
                } else {
                    p[q]
                }) by {
                    assert(on_segment(gp0, gp1, q) == on_segment_prefix(
                        gp0,
                        gp1,
                        dx as int + 1,
                        q,
                    ));
                };
            }
            break ;
        }
        error2 = error2 + derror2;
        proof {
            assert(dx > 0);
            let a = advances(dx as int, ady as int, k);
            assert(2 * (k + 1) * (ady as int) == 2 * k * (ady as int) + 2 * (ady as int))
                by (nonlinear_arith);
            assert(2 * (dx as int) * (a + 1) == 2 * (dx as int) * a + 2 * (dx as int))
                by (nonlinear_arith);
            if error2 > dx as i64 {
                lemma_advances_value(dx as int, ady as int, k + 1, a + 1);
            } else {
                lemma_advances_value(dx as int, ady as int, k + 1, a);
            }
            lemma_advances_bounds(dx as int, ady as int, k + 1);
            assert(sign(dy as int) * (a + 1) == sign(dy as int) * a + sign(dy as int))
                by (nonlinear_arith);
        }
        if error2 > dx as i64 {
            y = y + step;
            error2 = error2 - 2 * (dx as i64);
        }
        x = x + 1;
    }
}

/// The set of pixels a segment covers.
pub open spec fn segment_set(p0: (int, int), p1: (int, int)) -> Set<(int, int)> {
    Set::new(|q: (int, int)| on_segment(p0, p1, q))
}

/// The canonical orientation keeps the two endpoints, up to the axis
/// swap, orders them by the dominant coordinate, and its secondary
/// extent never exceeds its dominant extent, which is the span.
proof fn lemma_canon_props(p0: (int, int), p1: (int, int))
    ensures
        canon(p0, p1).0.0 <= canon(p0, p1).1.0,
        canon(p0, p1).1.0 - canon(p0, p1).0.0 == line_span(p0, p1),
        abs_val(canon(p0, p1).1.1 - canon(p0, p1).0.1) <= line_span(p0, p1),
        !steep(p0, p1) ==> (canon(p0, p1) == (p0, p1) || canon(p0, p1) == (p1, p0)),
        steep(p0, p1) ==> (canon(p0, p1) == ((p0.1, p0.0), (p1.1, p1.0)) || canon(p0, p1) == (
            (p1.1, p1.0),
            (p0.1, p0.0),
        )),
{
}

/// Two distinct steps along the dominant axis give two distinct pixels.
pub proof fn lemma_line_pixel_injective(p0: (int, int), p1: (int, int), j: int, k: int)
    requires
        j != k,
    ensures
        line_pixel(p0, p1, j) != line_pixel(p0, p1, k),
{
    let a = canon(p0, p1).0;
    if steep(p0, p1) {
        assert(line_pixel(p0, p1, j).1 == a.0 + j);
        assert(line_pixel(p0, p1, k).1 == a.0 + k);
    } else {
        assert(line_pixel(p0, p1, j).0 == a.0 + j);
        assert(line_pixel(p0, p1, k).0 == a.0 + k);
    }
}

/// A segment's first and last pixels are its two endpoints: the walk
/// covers both, whatever their order.
pub proof fn lemma_line_endpoints(p0: (int, int), p1: (int, int))
    ensures
        on_segment(p0, p1, p0),
        on_segment(p0, p1, p1),
{
    lemma_canon_props(p0, p1);
    let a = canon(p0, p1).0;
    let b = canon(p0, p1).1;
    let adx = b.0 - a.0;
    let ady = abs_val(b.1 - a.1);
    lemma_advances_bounds(adx, ady, 0);
    lemma_advances_bounds(adx, ady, adx);
    assert(line_pixel(p0, p1, 0) == if steep(p0, p1) {
        (a.1, a.0)
    } else {
        a
    });
    assert(sign(b.1 - a.1) * ady == b.1 - a.1) by {
        if b.1 - a.1 < 0 {
            assert(sign(b.1 - a.1) == -1);
        }
    };
    assert(line_pixel(p0, p1, adx) == if steep(p0, p1) {
        (b.1, b.0)
    } else {
        b
    });
    assert(0 <= adx <= line_span(p0, p1));
}

/// The pixels of a prefix of the walk are exactly as many as its steps.
proof fn lemma_prefix_count(p0: (int, int), p1: (int, int), n: int)
    requires
        0 <= n,
    ensures
        Set::new(|q: (int, int)| on_segment_prefix(p0, p1, n, q)).finite(),
        Set::new(|q: (int, int)| on_segment_prefix(p0, p1, n, q)).len() == n,
    decreases n,
{
    broadcast use vstd::set::group_set_axioms;

    let pre = Set::new(|q: (int, int)| on_segment_prefix(p0, p1, n, q));
    if n == 0 {
        assert(pre =~= Set::empty());
    } else {
        lemma_prefix_count(p0, p1, n - 1);
        let prev = Set::new(|q: (int, int)| on_segment_prefix(p0, p1, n - 1, q));
        let px = line_pixel(p0, p1, n - 1);
        assert forall|j: int| 0 <= j < n - 1 implies line_pixel(p0, p1, j) != px by {
            lemma_line_pixel_injective(p0, p1, j, n - 1);
        };
        assert(!prev.contains(px));
        assert(pre =~= prev.insert(px)) by {
            assert forall|q: (int, int)| pre.contains(q) implies prev.insert(px).contains(q) by {
                let j = choose|j: int| 0 <= j < n && line_pixel(p0, p1, j) == q;
                if j < n - 1 {
                    assert(on_segment_prefix(p0, p1, n - 1, q));
                }
            };
            assert forall|q: (int, int)| prev.insert(px).contains(q) implies pre.contains(q) by {
                if q == px {
                    assert(on_segment_prefix(p0, p1, n, q));
                } else {
                    let j = choose|j: int| 0 <= j < n - 1 && line_pixel(p0, p1, j) == q;
                    assert(on_segment_prefix(p0, p1, n, q));
                }
            };
        };
    }
}

/// A segment covers exactly `max(|dx|, |dy|) + 1` pixels, one per unit
/// step along its dominant axis.
pub proof fn lemma_line_pixel_count(p0: (int, int), p1: (int, int))
    ensures
        segment_set(p0, p1).finite(),
        segment_set(p0, p1).len() == line_span(p0, p1) + 1,
{
    lemma_prefix_count(p0, p1, line_span(p0, p1) + 1);
    assert(segment_set(p0, p1) =~= Set::new(
        |q: (int, int)| on_segment_prefix(p0, p1, line_span(p0, p1) + 1, q),
    ));
}

/// Drawing from `p0` to `p1` and from `p1` to `p0` covers the same
/// pixel set.
pub proof fn lemma_line_symmetric(p0: (int, int), p1: (int, int))
    ensures
        segment_set(p0, p1) == segment_set(p1, p0),
{
    assert(steep(p0, p1) == steep(p1, p0));
    assert(line_span(p0, p1) == line_span(p1, p0));
    assert(canon(p0, p1) == canon(p1, p0)) by {
        if !steep(p0, p1) {
            if p0.0 == p1.0 {
                assert(abs_val(p0.1 - p1.1) <= abs_val(p0.0 - p1.0));
                assert(p0 == p1);
            }
        } else {
            if p0.1 == p1.1 {
                assert(p0 == p1);
            }
        }
    };
    assert forall|k: int| line_pixel(p0, p1, k) == line_pixel(p1, p0, k) by {};
    assert(segment_set(p0, p1) =~= segment_set(p1, p0)) by {
        assert forall|q: (int, int)| on_segment(p0, p1, q) implies on_segment(p1, p0, q) by {
            let k = choose|k: int|
                0 <= k < line_span(p0, p1) + 1 && line_pixel(p0, p1, k) == q;
            assert(line_pixel(p1, p0, k) == q);
        };
        assert forall|q: (int, int)| on_segment(p1, p0, q) implies on_segment(p0, p1, q) by {
            let k = choose|k: int|
                0 <= k < line_span(p1, p0) + 1 && line_pixel(p1, p0, k) == q;
            assert(line_pixel(p0, p1, k) == q);
        };
    };
}

/// A zero-length segment covers exactly its one endpoint.
pub proof fn lemma_degenerate_line(p: (int, int))
    ensures
        forall|q: (int, int)| on_segment(p, p, q) <==> q == p,
        segment_set(p, p).len() == 1,
{
    lemma_line_endpoints(p, p);
    assert(line_span(p, p) == 0);
    assert forall|q: (int, int)| on_segment(p, p, q) implies q == p by {
        let k = choose|k: int| 0 <= k < 1 && line_pixel(p, p, k) == q;
        assert(k == 0);
    };
    lemma_line_pixel_count(p, p);
}

/// A horizontal segment's pixels are exactly the integer points between
/// its endpoints on their common row.
pub proof fn lemma_horizontal_segment(a: (int, int), b: (int, int), q: (int, int))
    requires
        a.1 == b.1,
    ensures
        on_segment(a, b, q) <==> (q.1 == a.1 && (if a.0 <= b.0 {
            a.0 <= q.0 <= b.0
        } else {
            b.0 <= q.0 <= a.0
        })),
{
    assert(!steep(a, b));
    let l = canon(a, b).0;
    let r = canon(a, b).1;
    let adx = r.0 - l.0;
    assert(abs_val(r.1 - l.1) == 0);
    assert forall|k: int| 0 <= k <= adx implies line_pixel(a, b, k) == (l.0 + k, a.1) by {
        assert(advances(adx, 0, k) == 0) by {
            if adx > 0 {
                vstd::arithmetic::div_mod::lemma_basic_div(2 * k * 0 + adx - 1, 2 * adx);
            }
        };
    };
    if on_segment(a, b, q) {
        let k = choose|k: int| 0 <= k < line_span(a, b) + 1 && line_pixel(a, b, k) == q;
        assert(q == (l.0 + k, a.1));
    }
    if q.1 == a.1 && l.0 <= q.0 <= r.0 {
        let k = q.0 - l.0;
        assert(line_pixel(a, b, k) == q);
        assert(on_segment(a, b, q));
    }
}

} // verus!
