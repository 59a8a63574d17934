//! Image assembly: from the grid of escape counts and the palette to a
//! raster of RGB bytes.
//!
//! The pixels are set on an image buffer of the `image` crate, which is
//! trusted to keep them as its documentation says. The finished buffer is
//! handed out as its raw bytes, row by row from the top, three bytes per
//! pixel.

use crate::fractal::{Fractal, FractalModel};
use crate::palette::{color_for, det_px_col, Colour};
use vstd::arithmetic::div_mod::{lemma_fundamental_div_mod, lemma_mod_bound};
use vstd::arithmetic::mul::lemma_mul_is_commutative;
use vstd::prelude::*;

verus! {

/// An RGB image buffer of the `image` crate, eight bits per channel.
#[verifier::external_body]
pub struct Canvas {
    img: image::RgbImage,
}

/// Width and height of a canvas, in pixels.
pub uninterp spec fn canvas_size(canvas: Canvas) -> (u32, u32);

/// The pixels of a canvas, each under its position `(x, y)`: `x` counts
/// columns from the left, `y` rows from the top.
pub uninterp spec fn canvas_pixels(canvas: Canvas) -> Map<(u32, u32), (u8, u8, u8)>;

/// The pixel at column `x` of row `y` in a raster of rows of `width` pixels.
pub open spec fn raster_pixel(raster: Seq<u8>, width: int, x: int, y: int) -> Colour {
    let at = 3 * (y * width + x);
    (raster[at], raster[at + 1], raster[at + 2])
}

/// Channel `c` of a colour: red, green, blue are 0, 1, 2.
pub open spec fn channel(colour: Colour, c: int) -> u8 {
    if c == 0 {
        colour.0
    } else if c == 1 {
        colour.1
    } else {
        colour.2
    }
}

/// The raster of a session: byte `i` is channel `i % 3` of the colour that
/// the palette gives to the escape count of sample `i / 3`, the samples
/// being numbered along the rows, from the top row down.
pub open spec fn raster_of(session: FractalModel) -> Seq<u8> {
    Seq::new(
        (3 * session.rows * session.cols) as nat,
        |i: int|
            {
                let sample = i / 3;
                let row = sample / (session.cols as int);
                let col = sample % (session.cols as int);
                channel(color_for(session.escape_its[row][col], session.col_palete), i % 3)
            },
    )
}

/// `ImageBuffer::new` for `Rgb<u8>` pixels: a canvas of the given size whose
/// pixels are all zero. The buffer holds three bytes per pixel and must not
/// be longer than a vector can be.
#[verifier::external_body]
fn blank_canvas(width: u32, height: u32) -> (canvas: Canvas)
    requires
        3 * width * height <= isize::MAX,
    ensures
        canvas_size(canvas) == (width, height),
        canvas_pixels(canvas) == Map::new(
            |p: (u32, u32)| p.0 < width && p.1 < height,
            |p: (u32, u32)| (0u8, 0u8, 0u8),
        ),
{
    Canvas { img: image::RgbImage::new(width, height) }
}

/// `ImageBuffer::put_pixel`: the pixel at `(x, y)`, which must lie on the
/// canvas, becomes `colour`; the size and the other pixels stay.
#[verifier::external_body]
fn put_pixel(canvas: &mut Canvas, x: u32, y: u32, colour: Colour)
    requires
        x < canvas_size(*old(canvas)).0,
        y < canvas_size(*old(canvas)).1,
    ensures
        canvas_size(*final(canvas)) == canvas_size(*old(canvas)),
        canvas_pixels(*final(canvas)) == canvas_pixels(*old(canvas)).insert((x, y), colour),
{
    canvas.img.put_pixel(x, y, image::Rgb([colour.0, colour.1, colour.2]));
}

/// `ImageBuffer::into_raw`: the bytes of the canvas. The pixel at `(x, y)`
/// takes the three bytes from `3 * (y * width + x)` on, red first.
#[verifier::external_body]
fn into_raster(canvas: Canvas) -> (raster: Vec<u8>)
    ensures
        raster@.len() == 3 * canvas_size(canvas).0 * canvas_size(canvas).1,
        forall|x: u32, y: u32|
            x < canvas_size(canvas).0 && y < canvas_size(canvas).1 ==> #[trigger] raster_pixel(
                raster@,
                canvas_size(canvas).0 as int,
                x as int,
                y as int,
            ) == canvas_pixels(canvas)[(x, y)],
{
    canvas.img.into_raw()
}

/// Byte `i` of a raster of `rows` rows of `cols` pixels belongs to the pixel
/// at column `(i / 3) % cols` of row `(i / 3) / cols`, and is its channel
/// `i % 3`.
pub proof fn lemma_raster_position(i: int, rows: int, cols: int)
    requires
        0 <= i < 3 * rows * cols,
        0 <= rows,
        0 <= cols,
    ensures
        0 <= (i / 3) / cols < rows,
        0 <= (i / 3) % cols < cols,
        0 <= i % 3 < 3,
        i == 3 * (((i / 3) / cols) * cols + (i / 3) % cols) + i % 3,
{
    let q = i / 3;
    assert(0 < cols) by (nonlinear_arith)
        requires
            0 <= i < 3 * rows * cols,
            0 <= rows,
            0 <= cols,
    ;
    assert(q < rows * cols) by (nonlinear_arith)
        requires
            q == i / 3,
            0 <= i < 3 * rows * cols,
    ;
    lemma_fundamental_div_mod(q, cols);
    lemma_mod_bound(q, cols);
    let y = q / cols;
    let x = q % cols;
    assert(q == cols * y + x);
    lemma_mul_is_commutative(cols, y);
    assert(0 <= y < rows) by (nonlinear_arith)
        requires
            q == y * cols + x,
            0 <= x < cols,
            0 <= q < rows * cols,
    ;
}

impl Fractal {
    /// Says whether the raster of this session is short enough for a vector.
    pub fn raster_fits(&self) -> (fits: bool)
        ensures
            fits == (3 * self.rows * self.cols <= isize::MAX),
    {
        let rows: u64 = self.rows as u64;
        let cols: u64 = self.cols as u64;
        assert(rows * cols <= 0xffff_ffff * 0xffff_ffff) by (nonlinear_arith)
            requires
                rows <= 0xffff_ffff,
                cols <= 0xffff_ffff,
        ;
        let samples: u64 = rows * cols;
        assert(3 * self.rows * self.cols == 3 * samples) by (nonlinear_arith)
            requires
                samples == self.rows * self.cols,
        ;
        samples <= (isize::MAX as u64) / 3
    }
}

/// Renders the grid of escape counts through the palette.
///
/// The result is the raster of the image, `cols` pixels wide and `rows`
/// pixels high, three bytes per pixel: the pixel at column `x` of row `y` has
/// the colour that the palette gives to the escape count of that sample.
pub fn render_image(fractals: &Fractal) -> (raster: Vec<u8>)
    requires
        fractals@.wf(),
        3 * fractals.rows * fractals.cols <= isize::MAX,
    ensures
        raster@ == raster_of(fractals@),
        forall|x: int, y: int|
            0 <= x < fractals.cols && 0 <= y < fractals.rows ==> #[trigger] raster_pixel(
                raster@,
                fractals.cols as int,
                x,
                y,
            ) == color_for(fractals@.escape_its[y][x], fractals@.col_palete),
{
    let rows: u32 = fractals.rows;
    let cols: u32 = fractals.cols;
    proof {
        lemma_mul_is_commutative(rows as int, cols as int);
        assert(3 * cols * rows == 3 * rows * cols) by (nonlinear_arith);
    }
    let mut canvas: Canvas = blank_canvas(cols, rows);
    let mut y: u32 = 0;
    while y < rows
        invariant
            y <= rows,
            rows == fractals.rows,
            cols == fractals.cols,
            fractals@.wf(),
            canvas_size(canvas) == (cols, rows),
            forall|px: u32, py: u32|
                px < cols && py < y ==> #[trigger] canvas_pixels(canvas)[(px, py)] == color_for(
                    fractals@.escape_its[py as int][px as int],
                    fractals@.col_palete,
                ),
        decreases rows - y,
    {
        let mut x: u32 = 0;
        while x < cols
            invariant
                x <= cols,
                y < rows,
                rows == fractals.rows,
                cols == fractals.cols,
                fractals@.wf(),
                canvas_size(canvas) == (cols, rows),
                forall|px: u32, py: u32|
                    px < cols && py < y ==> #[trigger] canvas_pixels(canvas)[(px, py)]
                        == color_for(
                        fractals@.escape_its[py as int][px as int],
                        fractals@.col_palete,
                    ),
                forall|px: u32|
                    px < x ==> #[trigger] canvas_pixels(canvas)[(px, y)] == color_for(
                        fractals@.escape_its[y as int][px as int],
                        fractals@.col_palete,
                    ),
            decreases cols - x,
        {
            assert(fractals@.escape_its[y as int].len() == cols);
            let pt_its: u32 = fractals.escape_its[y as usize][x as usize];
            let px_col: Colour = det_px_col(pt_its, &fractals.col_palete);
            put_pixel(&mut canvas, x, y, px_col);
            x += 1;
        }
        y += 1;
    }
    let ghost pixels = canvas_pixels(canvas);
    let raster: Vec<u8> = into_raster(canvas);
    proof {
        assert forall|x: int, y: int| 0 <= x < cols && 0 <= y < rows implies #[trigger] raster_pixel(
            raster@,
            cols as int,
            x,
            y,
        ) == color_for(fractals@.escape_its[y][x], fractals@.col_palete) by {
            let px = x as u32;
            let py = y as u32;
            assert(raster_pixel(raster@, cols as int, px as int, py as int) == pixels[(px, py)]);
        }
        assert(3 * cols * rows == 3 * rows * cols) by (nonlinear_arith);
        assert forall|i: int| 0 <= i < raster@.len() implies raster@[i] == raster_of(fractals@)[i] by {
            lemma_raster_position(i, rows as int, cols as int);
            let px = (i / 3) % (cols as int);
            let py = (i / 3) / (cols as int);
            let shown = raster_pixel(raster@, cols as int, px, py);
            assert(shown == color_for(fractals@.escape_its[py][px], fractals@.col_palete));
            assert(raster@[i] == channel(shown, i % 3));
        }
        assert(raster@ =~= raster_of(fractals@));
    }
    raster
}

} // verus!
