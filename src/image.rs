use vstd::prelude::*;
use vstd::arithmetic::div_mod::{lemma_fundamental_div_mod, lemma_fundamental_div_mod_converse};

use crate::decimal::{decimal, push_decimal};
use crate::geometry::{bounding_box, covered, triangle_orientation, triangle_pixels, Position};
use crate::line::{
    abs, high_pixels, high_prefix, lemma_offset_bounds, lemma_offset_step, lemma_offset_zero,
    line_pixels, low_pixels, low_prefix, step_offset,
};
use crate::pixel::Pixel;

verus! {

/// Why an image could not be made.
#[derive(Copy, Clone, Debug, PartialEq, Eq, Structural)]
pub enum ImageError {
    /// A width or a height of zero.
    InvalidDimension,
}

/// A dense, row-major grid of pixels. Position `(x, y)` is stored at
/// `y * width + x`, and `y == 0` is the top row. Writes outside the grid are
/// clipped: they leave the image unchanged.
pub struct Image {
    width: usize,
    height: usize,
    data: Vec<Pixel>,
}

/// What an image holds: its size and its pixels in row-major order.
pub struct ImageView {
    pub width: nat,
    pub height: nat,
    pub pixels: Seq<Pixel>,
}

impl ImageView {
    /// Both dimensions are positive and there is one pixel per position.
    pub open spec fn wf(self) -> bool {
        &&& self.width > 0
        &&& self.height > 0
        &&& self.pixels.len() == self.width * self.height
    }

    /// `p` names a pixel of the image.
    pub open spec fn in_bounds(self, p: (int, int)) -> bool {
        0 <= p.0 < self.width && 0 <= p.1 < self.height
    }

    /// The slot of position `p`.
    pub open spec fn index_of(self, p: (int, int)) -> int {
        p.1 * self.width + p.0
    }

    /// The pixel at position `p`.
    pub open spec fn pixel_at(self, p: (int, int)) -> Pixel {
        self.pixels[self.index_of(p)]
    }

    /// The image with `colour` written at every in-bounds position of `points`;
    /// points outside the grid are ignored.
    pub open spec fn paint(self, points: Set<(int, int)>, colour: Pixel) -> ImageView {
        ImageView {
            width: self.width,
            height: self.height,
            pixels: Seq::new(
                self.pixels.len(),
                |i: int|
                    if points.contains((i % (self.width as int), i / (self.width as int))) {
                        colour
                    } else {
                        self.pixels[i]
                    },
            ),
        }
    }
}

/// Painting two sets of points in one colour, one after the other, paints
/// their union.
pub proof fn lemma_paint_union(v: ImageView, s: Set<(int, int)>, t: Set<(int, int)>, colour: Pixel)
    ensures
        v.paint(s, colour).paint(t, colour) == v.paint(s.union(t), colour),
{
    assert(v.paint(s, colour).paint(t, colour).pixels =~= v.paint(s.union(t), colour).pixels);
}

/// Slot `i` of a well-formed image holds the position `(x, y)` exactly when
/// `i == y * width + x`; no slot holds a position outside the grid.
proof fn lemma_slot(v: ImageView, i: int, p: (int, int))
    requires
        v.wf(),
        0 <= i < v.pixels.len(),
    ensures
        (i % (v.width as int), i / (v.width as int)) == p <==> (v.in_bounds(p) && i == v.index_of(p)),
{
    let w = v.width as int;
    let h = v.height as int;
    lemma_fundamental_div_mod(i, w);
    let q = i / w;
    let r = i % w;
    assert(0 <= r < w);
    assert(0 <= q < h) by (nonlinear_arith)
        requires
            i == w * q + r,
            0 <= r < w,
            0 <= i < w * h,
    ;
    if v.in_bounds(p) && i == v.index_of(p) {
        lemma_fundamental_div_mod_converse(i, w, p.1, p.0);
    }
}

/// The pixels of a well-formed image after a write at one position.
pub proof fn lemma_paint_one(v: ImageView, p: (int, int), colour: Pixel)
    requires
        v.wf(),
    ensures
        v.in_bounds(p) ==> 0 <= v.index_of(p) < v.pixels.len(),
        v.in_bounds(p) ==> v.paint(set![p], colour).pixels == v.pixels.update(v.index_of(p), colour),
        !v.in_bounds(p) ==> v.paint(set![p], colour) == v,
{
    if v.in_bounds(p) {
        assert(0 <= v.index_of(p) < v.pixels.len()) by (nonlinear_arith)
            requires
                0 <= p.0 < v.width,
                0 <= p.1 < v.height,
                v.index_of(p) == p.1 * v.width + p.0,
                v.pixels.len() == v.width * v.height,
        ;
    }
    assert forall|i: int| 0 <= i < v.pixels.len() implies v.paint(set![p], colour).pixels[i] == (
    if v.in_bounds(p) && i == v.index_of(p) {
        colour
    } else {
        v.pixels[i]
    }) by {
        lemma_slot(v, i, p);
    }
    if v.in_bounds(p) {
        assert(v.paint(set![p], colour).pixels =~= v.pixels.update(v.index_of(p), colour));
    } else {
        assert(v.paint(set![p], colour).pixels =~= v.pixels);
    }
}

pub const ASCII_P: u8 = 0x50;

pub const ASCII_2: u8 = 0x32;

pub const ASCII_5: u8 = 0x35;

pub const ASCII_6: u8 = 0x36;

pub const ASCII_SPACE: u8 = 0x20;

pub const ASCII_NEWLINE: u8 = 0x0a;

/// The three bytes of a pixel, red first.
pub open spec fn channel(p: Pixel, i: int) -> u8 {
    if i == 0 {
        p.red
    } else if i == 1 {
        p.green
    } else {
        p.blue
    }
}

/// The pixels as consecutive red, green and blue bytes.
pub open spec fn pixel_bytes(pixels: Seq<Pixel>) -> Seq<u8> {
    Seq::new(3 * pixels.len(), |i: int| channel(pixels[i / 3], i % 3))
}

/// `P6`, the width and the height in decimal, and the largest channel value
/// `255`, each field followed by a newline but the width, followed by a space.
pub open spec fn ppm_header(width: nat, height: nat) -> Seq<u8> {
    seq![ASCII_P, ASCII_6, ASCII_NEWLINE] + decimal(width) + seq![ASCII_SPACE] + decimal(height) + seq![ASCII_NEWLINE] + seq![
        ASCII_2,
        ASCII_5,
        ASCII_5,
        ASCII_NEWLINE,
    ]
}

/// The binary raster dump of an image: the header, then its pixels in
/// row-major order from the top row.
pub open spec fn ppm_bytes(v: ImageView) -> Seq<u8> {
    ppm_header(v.width, v.height) + pixel_bytes(v.pixels)
}

impl View for Image {
    type V = ImageView;

    closed spec fn view(&self) -> ImageView {
        ImageView { width: self.width as nat, height: self.height as nat, pixels: self.data@ }
    }
}

impl Image {
    /// An all-black image of the given size; a zero dimension is refused.
    pub fn blank(width: usize, height: usize) -> (r: Result<Image, ImageError>)
        requires
            width * height <= usize::MAX,
        ensures
            (width == 0 || height == 0) <==> r is Err,
            r is Err ==> r == Err::<Image, ImageError>(ImageError::InvalidDimension),
            r matches Ok(img) ==> {
                &&& img@.wf()
                &&& img@.width == width
                &&& img@.height == height
                &&& forall|i: int| 0 <= i < img@.pixels.len() ==> img@.pixels[i] == Pixel { red: 0, green: 0, blue: 0 }
            },
    {
        if width == 0 || height == 0 {
            return Err(ImageError::InvalidDimension);
        }
        let data = vec![Pixel { red: 0, green: 0, blue: 0 }; width * height];
        Ok(Image { width, height, data })
    }

    /// The number of columns.
    pub fn width(&self) -> (r: usize)
        ensures
            r == self@.width,
    {
        self.width
    }

    /// The number of rows.
    pub fn height(&self) -> (r: usize)
        ensures
            r == self@.height,
    {
        self.height
    }

    /// Writes `pixel` at `position`; a position outside the image is ignored.
    pub fn set(&mut self, pixel: Pixel, position: &Position)
        requires
            old(self)@.wf(),
        ensures
            final(self)@ == old(self)@.paint(set![position@], pixel),
    {
        proof {
            lemma_paint_one(self@, position@, pixel);
            if self@.in_bounds(position@) {
                assert(position.y * self.width + position.x < self.data.len());
            }
        }
        if position.x < self.width && position.y < self.height {
            let i = position.y * self.width + position.x;
            self.data.set(i, pixel);
            proof {
                assert(self@.pixels =~= old(self)@.paint(set![position@], pixel).pixels);
            }
        }
    }

    /// Draws the line from `start` to `end` in `colour` (Bresenham): one pixel
    /// per step along the dominant axis, the same pixels whichever endpoint
    /// comes first. Pixels outside the image are clipped.
    pub fn line(&mut self, colour: Pixel, start: &Position, end: &Position)
        requires
            old(self)@.wf(),
        ensures
            final(self)@ == old(self)@.paint(line_pixels(start@, end@), colour),
    {
        let diff_x: usize = if start.x < end.x { end.x - start.x } else { start.x - end.x };
        let diff_y: usize = if start.y < end.y { end.y - start.y } else { start.y - end.y };
        if diff_y < diff_x {
            if start.x > end.x {
                self.line_low(colour, end, start);
            } else {
                self.line_low(colour, start, end);
            }
        } else if start.y > end.y {
            self.line_high(colour, end, start);
        } else {
            self.line_high(colour, start, end);
        }
    }

    /// Draws a line that advances along x, from left to right.
    fn line_low(&mut self, colour: Pixel, start: &Position, end: &Position)
        requires
            old(self)@.wf(),
            start.x <= end.x,
            abs(end.y - start.y) <= end.x - start.x,
        ensures
            final(self)@ == old(self)@.paint(low_pixels(start@, end@), colour),
    {
        let dx: usize = end.x - start.x;
        let down = end.y < start.y;
        let dy: usize = if down { start.y - end.y } else { end.y - start.y };
        let mut err: i128 = 2 * (dy as i128) - dx as i128;
        let mut m: usize = 0;
        let mut k: usize = 0;
        proof {
            assert(old(self)@.paint(low_prefix(start@, end@, 0), colour).pixels =~= old(self)@.pixels);
            lemma_offset_zero(dy as int, dx as int);
            assert(2 * dy * (0int + 1) - dx - 2 * dx * 0int == 2 * dy - dx) by (nonlinear_arith);
        }
        while k < dx
            invariant
                old(self)@.wf(),
                self@ == old(self)@.paint(low_prefix(start@, end@, k as int), colour),
                dx == end.x - start.x,
                dy == abs(end.y - start.y),
                down == (end.y < start.y),
                dy <= dx,
                k <= dx,
                m == step_offset(k as int, dy as int, dx as int),
                m <= dy,
                err == 2 * dy * (k + 1) - dx - 2 * dx * m,
            decreases dx - k,
        {
            let ghost e0 = err as int;
            let ghost m0 = m as int;
            self.plot_low(colour, start, end, k, m, down, Ghost(old(self)@));
            proof {
                lemma_offset_step(k as int, dy as int, dx as int);
                lemma_offset_bounds(k + 1, dy as int, dx as int);
            }
            if err > 0 {
                m = m + 1;
                err = err + 2 * (dy as i128 - dx as i128);
            } else {
                err = err + 2 * (dy as i128);
            }
            k = k + 1;
            proof {
                let (n, d, kk, mm, e) = (dy as int, dx as int, k as int, m as int, err as int);
                assert(e == 2 * n * (kk + 1) - d - 2 * d * mm) by (nonlinear_arith)
                    requires
                        e0 == 2 * n * kk - d - 2 * d * m0,
                        mm == m0 || mm == m0 + 1,
                        mm == m0 + 1 ==> e == e0 + 2 * n - 2 * d,
                        mm == m0 ==> e == e0 + 2 * n,
                ;
            }
        }
        self.plot_low(colour, start, end, k, m, down, Ghost(old(self)@));
    }

    /// Writes the pixel of step `k` of a walk along x, `m` rows away from the
    /// start, which extends the walk's prefix by one.
    fn plot_low(
        &mut self,
        colour: Pixel,
        start: &Position,
        end: &Position,
        k: usize,
        m: usize,
        down: bool,
        Ghost(base): Ghost<ImageView>,
    )
        requires
            base.wf(),
            old(self)@ == base.paint(low_prefix(start@, end@, k as int), colour),
            start.x <= end.x,
            k <= end.x - start.x,
            m == step_offset(k as int, abs(end.y - start.y), end.x - start.x),
            m <= abs(end.y - start.y),
            down == (end.y < start.y),
        ensures
            final(self)@ == base.paint(low_prefix(start@, end@, k + 1), colour),
    {
        let y: usize = if down { start.y - m } else { start.y + m };
        let p = Position { x: start.x + k, y };
        self.set(colour, &p);
        proof {
            lemma_paint_union(base, low_prefix(start@, end@, k as int), set![p@], colour);
            assert(low_prefix(start@, end@, k as int).union(set![p@]) =~= low_prefix(start@, end@, k + 1));
        }
    }

    /// Draws a line that advances along y, from top to bottom.
    fn line_high(&mut self, colour: Pixel, start: &Position, end: &Position)
        requires
            old(self)@.wf(),
            start.y <= end.y,
            abs(end.x - start.x) <= end.y - start.y,
        ensures
            final(self)@ == old(self)@.paint(high_pixels(start@, end@), colour),
    {
        let dy: usize = end.y - start.y;
        let left = end.x < start.x;
        let dx: usize = if left { start.x - end.x } else { end.x - start.x };
        let mut err: i128 = 2 * (dx as i128) - dy as i128;
        let mut m: usize = 0;
        let mut k: usize = 0;
        proof {
            assert(old(self)@.paint(high_prefix(start@, end@, 0), colour).pixels =~= old(self)@.pixels);
            lemma_offset_zero(dx as int, dy as int);
            assert(2 * dx * (0int + 1) - dy - 2 * dy * 0int == 2 * dx - dy) by (nonlinear_arith);
        }
        while k < dy
            invariant
                old(self)@.wf(),
                self@ == old(self)@.paint(high_prefix(start@, end@, k as int), colour),
                dy == end.y - start.y,
                dx == abs(end.x - start.x),
                left == (end.x < start.x),
                dx <= dy,
                k <= dy,
                m == step_offset(k as int, dx as int, dy as int),
                m <= dx,
                err == 2 * dx * (k + 1) - dy - 2 * dy * m,
            decreases dy - k,
        {
            let ghost e0 = err as int;
            let ghost m0 = m as int;
            self.plot_high(colour, start, end, k, m, left, Ghost(old(self)@));
            proof {
                lemma_offset_step(k as int, dx as int, dy as int);
                lemma_offset_bounds(k + 1, dx as int, dy as int);
            }
            if err > 0 {
                m = m + 1;
                err = err + 2 * (dx as i128 - dy as i128);
            } else {
                err = err + 2 * (dx as i128);
            }
            k = k + 1;
            proof {
                let (n, d, kk, mm, e) = (dx as int, dy as int, k as int, m as int, err as int);
                assert(e == 2 * n * (kk + 1) - d - 2 * d * mm) by (nonlinear_arith)
                    requires
                        e0 == 2 * n * kk - d - 2 * d * m0,
                        mm == m0 || mm == m0 + 1,
                        mm == m0 + 1 ==> e == e0 + 2 * n - 2 * d,
                        mm == m0 ==> e == e0 + 2 * n,
                ;
            }
        }
        self.plot_high(colour, start, end, k, m, left, Ghost(old(self)@));
    }

    /// Writes the pixel of step `k` of a walk along y, `m` columns away from
    /// the start, which extends the walk's prefix by one.
    fn plot_high(
        &mut self,
        colour: Pixel,
        start: &Position,
        end: &Position,
        k: usize,
        m: usize,
        left: bool,
        Ghost(base): Ghost<ImageView>,
    )
        requires
            base.wf(),
            old(self)@ == base.paint(high_prefix(start@, end@, k as int), colour),
            start.y <= end.y,
            k <= end.y - start.y,
            m == step_offset(k as int, abs(end.x - start.x), end.y - start.y),
            m <= abs(end.x - start.x),
            left == (end.x < start.x),
        ensures
            final(self)@ == base.paint(high_prefix(start@, end@, k + 1), colour),
    {
        let x: usize = if left { start.x - m } else { start.x + m };
        let p = Position { x, y: start.y + k };
        self.set(colour, &p);
        proof {
            lemma_paint_union(base, high_prefix(start@, end@, k as int), set![p@], colour);
            assert(high_prefix(start@, end@, k as int).union(set![p@]) =~= high_prefix(start@, end@, k + 1));
        }
    }

    /// Fills the triangle `a b c` in `colour`, edges included. A back-facing
    /// or degenerate triangle (signed area not positive) draws nothing; else
    /// each point of the bounding box whose barycentric weights are all
    /// non-negative is written. Pixels outside the image are clipped.
    pub fn triangle(&mut self, colour: Pixel, a: &Position, b: &Position, c: &Position)
        requires
            old(self)@.wf(),
        ensures
            final(self)@ == old(self)@.paint(triangle_pixels(a@, b@, c@), colour),
    {
        if triangle_orientation(a, b, c) <= 0 {
            proof {
                assert(old(self)@.paint(triangle_pixels(a@, b@, c@), colour).pixels =~= old(self)@.pixels);
            }
            return;
        }
        let (lo, hi) = bounding_box(a, b, c);
        let mut x: usize = lo.x;
        proof {
            let empty = covered(a@, b@, c@, lo.x as int, lo.x as int, lo.y as int, hi.y + 1);
            assert(old(self)@.paint(empty, colour).pixels =~= old(self)@.pixels);
        }
        while x < hi.x
            invariant
                old(self)@.wf(),
                lo.x <= x <= hi.x,
                lo.y <= hi.y,
                self@ == old(self)@.paint(covered(a@, b@, c@, lo.x as int, x as int, lo.y as int, hi.y + 1), colour),
            decreases hi.x - x,
        {
            self.fill_column(colour, a, b, c, x, lo.x, lo.y, hi.y, Ghost(old(self)@));
            x = x + 1;
        }
        self.fill_column(colour, a, b, c, x, lo.x, lo.y, hi.y, Ghost(old(self)@));
        proof {
            assert(covered(a@, b@, c@, lo.x as int, hi.x + 1, lo.y as int, hi.y + 1) =~= triangle_pixels(a@, b@, c@));
        }
    }

    /// Fills the part of column `x` between rows `y0` and `y1` that lies in
    /// the triangle, after the columns from `x0` up to `x`.
    fn fill_column(
        &mut self,
        colour: Pixel,
        a: &Position,
        b: &Position,
        c: &Position,
        x: usize,
        x0: usize,
        y0: usize,
        y1: usize,
        Ghost(base): Ghost<ImageView>,
    )
        requires
            base.wf(),
            x0 <= x,
            y0 <= y1,
            old(self)@ == base.paint(covered(a@, b@, c@, x0 as int, x as int, y0 as int, y1 + 1), colour),
        ensures
            final(self)@ == base.paint(covered(a@, b@, c@, x0 as int, x + 1, y0 as int, y1 + 1), colour),
    {
        let ghost done = covered(a@, b@, c@, x0 as int, x as int, y0 as int, y1 + 1);
        let mut y: usize = y0;
        proof {
            assert(done.union(covered(a@, b@, c@, x as int, x + 1, y0 as int, y0 as int)) =~= done);
        }
        while y < y1
            invariant
                base.wf(),
                y0 <= y <= y1,
                done == covered(a@, b@, c@, x0 as int, x as int, y0 as int, y1 + 1),
                self@ == base.paint(done.union(covered(a@, b@, c@, x as int, x + 1, y0 as int, y as int)), colour),
            decreases y1 - y,
        {
            self.plot_inside(colour, a, b, c, x, y, Ghost(base), Ghost(done), y0);
            y = y + 1;
        }
        self.plot_inside(colour, a, b, c, x, y, Ghost(base), Ghost(done), y0);
        proof {
            assert(done.union(covered(a@, b@, c@, x as int, x + 1, y0 as int, y1 + 1)) =~= covered(
                a@,
                b@,
                c@,
                x0 as int,
                x + 1,
                y0 as int,
                y1 + 1,
            ));
        }
    }

    /// Writes position `(x, y)` when it lies in the triangle, which extends
    /// the column filled so far by one row.
    fn plot_inside(
        &mut self,
        colour: Pixel,
        a: &Position,
        b: &Position,
        c: &Position,
        x: usize,
        y: usize,
        Ghost(base): Ghost<ImageView>,
        Ghost(done): Ghost<Set<(int, int)>>,
        y0: usize,
    )
        requires
            base.wf(),
            y0 <= y,
            old(self)@ == base.paint(done.union(covered(a@, b@, c@, x as int, x + 1, y0 as int, y as int)), colour),
        ensures
            final(self)@ == base.paint(done.union(covered(a@, b@, c@, x as int, x + 1, y0 as int, y + 1)), colour),
    {
        let p = Position { x, y };
        let ghost column = covered(a@, b@, c@, x as int, x + 1, y0 as int, y as int);
        if p.is_inside_triangle(a, b, c) {
            self.set(colour, &p);
            proof {
                lemma_paint_union(base, done.union(column), set![p@], colour);
                assert(done.union(column).union(set![p@]) =~= done.union(
                    covered(a@, b@, c@, x as int, x + 1, y0 as int, y + 1),
                ));
            }
        } else {
            proof {
                assert(done.union(column) =~= done.union(
                    covered(a@, b@, c@, x as int, x + 1, y0 as int, y + 1),
                ));
            }
        }
    }

    /// The image as a binary `P6` raster dump.
    pub fn ppm(&self) -> (r: Vec<u8>)
        requires
            self@.wf(),
        ensures
            r@ == ppm_bytes(self@),
    {
        let mut out: Vec<u8> = Vec::new();
        out.push(ASCII_P);
        out.push(ASCII_6);
        out.push(ASCII_NEWLINE);
        push_decimal(&mut out, self.width);
        out.push(ASCII_SPACE);
        push_decimal(&mut out, self.height);
        out.push(ASCII_NEWLINE);
        out.push(ASCII_2);
        out.push(ASCII_5);
        out.push(ASCII_5);
        out.push(ASCII_NEWLINE);
        let ghost header = out@;
        proof {
            assert(header =~= ppm_header(self@.width, self@.height));
            assert(out@ =~= header + pixel_bytes(self.data@.take(0)));
        }
        let mut i: usize = 0;
        while i < self.data.len()
            invariant
                i <= self.data.len(),
                header == ppm_header(self@.width, self@.height),
                out@ == header + pixel_bytes(self.data@.take(i as int)),
            decreases self.data.len() - i,
        {
            let p = self.data[i];
            out.push(p.red);
            out.push(p.green);
            out.push(p.blue);
            i = i + 1;
            proof {
                assert(pixel_bytes(self.data@.take(i as int)) =~= pixel_bytes(self.data@.take(i - 1))
                    + seq![p.red, p.green, p.blue]);
                assert(out@ =~= header + pixel_bytes(self.data@.take(i as int)));
            }
        }
        proof {
            assert(self.data@.take(i as int) =~= self.data@);
        }
        out
    }

    /// The pixel at `position`, or `None` outside the image.
    pub fn get(&self, position: &Position) -> (r: Option<Pixel>)
        requires
            self@.wf(),
        ensures
            r == if self@.in_bounds(position@) {
                Some(self@.pixel_at(position@))
            } else {
                None::<Pixel>
            },
    {
        if position.x < self.width && position.y < self.height {
            proof {
                lemma_paint_one(self@, position@, Pixel { red: 0, green: 0, blue: 0 });
                assert(position.y * self.width + position.x < self.data.len());
            }
            Some(self.data[position.y * self.width + position.x])
        } else {
            None
        }
    }
}

} // verus!
