//! The pixel surface: a width x height grid of RGBA colors backed by an
//! `image` frame buffer, created once, mutated by draw calls, and read
//! out pixel by pixel.
//!
//! The buffer itself is opaque to verification. Its dimensions and its
//! contents are named by `canvas_dims` and `canvas_pixels`, and every
//! access goes through the contracted wrappers below; each wrapper's
//! contract states what the `image` crate's source shows of the call.

use vstd::prelude::*;

verus! {

/// An RGBA color, four byte components written verbatim into the surface.
#[derive(Clone, Copy, Debug, PartialEq, Eq, Structural)]
pub struct Color {
    pub r: u8,
    pub g: u8,
    pub b: u8,
    pub a: u8,
}

impl View for Color {
    type V = (u8, u8, u8, u8);

    open spec fn view(&self) -> (u8, u8, u8, u8) {
        (self.r, self.g, self.b, self.a)
    }
}

impl Color {
    pub fn new(r: u8, g: u8, b: u8, a: u8) -> (c: Color)
        ensures
            c@ == (r, g, b, a),
    {
        Color { r, g, b, a }
    }
}

/// The width and height a canvas was created with.
pub uninterp spec fn canvas_dims(c: Canvas) -> (int, int);

/// The colors the canvas holds, keyed by pixel coordinate; the domain is
/// exactly the coordinates under the canvas's width and height.
pub uninterp spec fn canvas_pixels(c: Canvas) -> Map<(int, int), (u8, u8, u8, u8)>;

pub open spec fn canvas_width(c: Canvas) -> int {
    canvas_dims(c).0
}

pub open spec fn canvas_height(c: Canvas) -> int {
    canvas_dims(c).1
}

/// Whether a coordinate lies on the canvas.
pub open spec fn in_canvas(c: Canvas, x: int, y: int) -> bool {
    0 <= x < canvas_width(c) && 0 <= y < canvas_height(c)
}

/// The map that assigns one color to every coordinate of a w x h grid.
pub open spec fn uniform_pixels(w: int, h: int, col: (u8, u8, u8, u8)) -> Map<
    (int, int),
    (u8, u8, u8, u8),
> {
    Map::new(|p: (int, int)| 0 <= p.0 < w && 0 <= p.1 < h, |p: (int, int)| col)
}

/// A canvas is well formed when its contents are keyed by exactly the
/// coordinates under its width and height; creation establishes this
/// and every draw call preserves it.
pub open spec fn canvas_wf(c: Canvas) -> bool {
    canvas_pixels(c).dom() == Set::new(|q: (int, int)| in_canvas(c, q.0, q.1))
}

/// A freshly created canvas is well formed.
pub proof fn lemma_uniform_wf(c: Canvas, w: int, h: int, col: (u8, u8, u8, u8))
    requires
        canvas_dims(c) == (w, h),
        canvas_pixels(c) == uniform_pixels(w, h, col),
    ensures
        canvas_wf(c),
{
    assert(canvas_pixels(c).dom() =~= Set::new(|q: (int, int)| in_canvas(c, q.0, q.1)));
}


/// How many of the first `x` pixels of row `y` hold the color.
pub open spec fn count_in_row(
    m: Map<(int, int), (u8, u8, u8, u8)>,
    col: (u8, u8, u8, u8),
    y: int,
    x: int,
) -> int
    decreases x,
{
    if x <= 0 {
        0
    } else {
        count_in_row(m, col, y, x - 1) + if m[(x - 1, y)] == col {
            1int
        } else {
            0int
        }
    }
}

/// How many pixels of the first `y` rows of width `w` hold the color.
pub open spec fn count_rows(
    m: Map<(int, int), (u8, u8, u8, u8)>,
    col: (u8, u8, u8, u8),
    w: int,
    y: int,
) -> int
    decreases y,
{
    if y <= 0 {
        0
    } else {
        count_rows(m, col, w, y - 1) + count_in_row(m, col, y - 1, w)
    }
}

proof fn lemma_count_in_row_bound(
    m: Map<(int, int), (u8, u8, u8, u8)>,
    col: (u8, u8, u8, u8),
    y: int,
    x: int,
)
    requires
        x >= 0,
    ensures
        0 <= count_in_row(m, col, y, x) <= x,
    decreases x,
{
    if x > 0 {
        lemma_count_in_row_bound(m, col, y, x - 1);
    }
}

proof fn lemma_count_rows_bound(
    m: Map<(int, int), (u8, u8, u8, u8)>,
    col: (u8, u8, u8, u8),
    w: int,
    y: int,
)
    requires
        y >= 0,
        w >= 0,
    ensures
        0 <= count_rows(m, col, w, y) <= y * w,
    decreases y,
{
    if y > 0 {
        lemma_count_rows_bound(m, col, w, y - 1);
        lemma_count_in_row_bound(m, col, y - 1, w);
        assert(y * w == (y - 1) * w + w) by (nonlinear_arith);
    } else {
        assert(y * w == 0) by (nonlinear_arith)
            requires
                y == 0,
        ;
    }
}

/// A mutable pixel surface of fixed dimensions.
#[verifier::external_body]
pub struct Canvas {
    img: image::ImageBuffer<image::Rgba<u8>, Vec<u8>>,
}

impl Canvas {
    /// Relies on `image::ImageBuffer::from_pixel`: a `width` x `height`
    /// buffer with every pixel set to the given color. The allocation
    /// size `4 * width * height` must fit in `usize`, else the call
    /// panics.
    #[verifier::external_body]
    fn new_buffer(width: u32, height: u32, background: Color) -> (c: Canvas)
        requires
            4 * (width as int) * (height as int) <= usize::MAX as int,
        ensures
            canvas_dims(c) == (width as int, height as int),
            canvas_pixels(c) == uniform_pixels(width as int, height as int, background@),
    {
        Canvas {
            img: image::ImageBuffer::from_pixel(
                width,
                height,
                image::Rgba([background.r, background.g, background.b, background.a]),
            ),
        }
    }

    /// A fresh canvas: every pixel holds the background color, and the
    /// contents are keyed by exactly the on-canvas coordinates.
    pub fn new(width: u32, height: u32, background: Color) -> (c: Canvas)
        requires
            4 * (width as int) * (height as int) <= usize::MAX as int,
        ensures
            canvas_dims(c) == (width as int, height as int),
            canvas_pixels(c) == uniform_pixels(width as int, height as int, background@),
            canvas_wf(c),
    {
        let c = Self::new_buffer(width, height, background);
        proof {
            lemma_uniform_wf(c, width as int, height as int, background@);
        }
        c
    }

    /// Relies on `image::ImageBuffer::width`.
    #[verifier::external_body]
    pub fn width(&self) -> (w: u32)
        ensures
            w as int == canvas_width(*self),
    {
        self.img.width()
    }

    /// Relies on `image::ImageBuffer::height`.
    #[verifier::external_body]
    pub fn height(&self) -> (h: u32)
        ensures
            h as int == canvas_height(*self),
    {
        self.img.height()
    }

    /// Relies on `image::ImageBuffer::get_pixel`, which panics outside
    /// the `width` x `height` bounds and returns the stored pixel.
    #[verifier::external_body]
    pub fn get_pixel(&self, x: u32, y: u32) -> (c: Color)
        requires
            in_canvas(*self, x as int, y as int),
        ensures
            c@ == canvas_pixels(*self)[(x as int, y as int)],
    {
        let p = self.img.get_pixel(x, y);
        Color { r: p.0[0], g: p.0[1], b: p.0[2], a: p.0[3] }
    }

    /// Relies on `image::ImageBuffer::put_pixel`, which panics outside
    /// the `width` x `height` bounds and overwrites exactly one pixel.
    #[verifier::external_body]
    pub fn put_pixel(&mut self, x: u32, y: u32, color: Color)
        requires
            in_canvas(*old(self), x as int, y as int),
        ensures
            canvas_dims(*final(self)) == canvas_dims(*old(self)),
            canvas_pixels(*final(self)) == canvas_pixels(*old(self)).insert(
                (x as int, y as int),
                color@,
            ),
    {
        self.img.put_pixel(x, y, image::Rgba([color.r, color.g, color.b, color.a]));
    }

    /// Counts the pixels that hold exactly the given color, scanning
    /// the canvas row by row.
    pub fn count_pixels(&self, color: Color) -> (n: u64)
        requires
            canvas_wf(*self),
            canvas_width(*self) * canvas_height(*self) <= 0xffff_ffff_ffff_ffff,
        ensures
            n as int == count_rows(
                canvas_pixels(*self),
                color@,
                canvas_width(*self),
                canvas_height(*self),
            ),
    {
        let w = self.width();
        let h = self.height();
        let ghost m = canvas_pixels(*self);
        let mut n: u64 = 0;
        let mut y: u32 = 0;
        proof {
            lemma_count_rows_bound(m, color@, w as int, h as int);
        }
        while y < h
            invariant
                0 <= y <= h,
                w as int == canvas_width(*self),
                h as int == canvas_height(*self),
                m == canvas_pixels(*self),
                canvas_wf(*self),
                (w as int) * (h as int) <= 0xffff_ffff_ffff_ffff,
                n as int == count_rows(m, color@, w as int, y as int),
                n as int <= (y as int) * (w as int),
            decreases h - y,
        {
            let mut x: u32 = 0;
            proof {
                lemma_count_rows_bound(m, color@, w as int, y as int);
            }
            while x < w
                invariant
                    0 <= x <= w,
                    0 <= y < h,
                    w as int == canvas_width(*self),
                    h as int == canvas_height(*self),
                    m == canvas_pixels(*self),
                    canvas_wf(*self),
                    (w as int) * (h as int) <= 0xffff_ffff_ffff_ffff,
                    n as int == count_rows(m, color@, w as int, y as int) + count_in_row(
                        m,
                        color@,
                        y as int,
                        x as int,
                    ),
                    n as int <= (y as int) * (w as int) + (x as int),
                decreases w - x,
            {
                proof {
                    assert((y as int) * (w as int) + (w as int) <= (h as int) * (w as int))
                        by (nonlinear_arith)
                        requires
                            0 <= y as int,
                            (y as int) + 1 <= h as int,
                            0 <= w as int,
                    ;
                    assert((h as int) * (w as int) == (w as int) * (h as int))
                        by (nonlinear_arith);
                }
                let c = self.get_pixel(x, y);
                if c.r == color.r && c.g == color.g && c.b == color.b && c.a == color.a {
                    n = n + 1;
                }
                x = x + 1;
            }
            proof {
                assert((y as int + 1) * (w as int) == (y as int) * (w as int) + (w as int))
                    by (nonlinear_arith);
            }
            y = y + 1;
        }
        n
    }
}


} // verus!
