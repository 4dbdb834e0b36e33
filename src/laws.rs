use vstd::prelude::*;

use crate::decimal::decimal;
use crate::geometry::{signed_area, triangle_pixels};
use crate::image::{lemma_paint_one, ppm_bytes, ImageView};
use crate::line::line_pixels;
use crate::pixel::Pixel;

verus! {

/// A write inside the image is read back at once, and leaves every other
/// position as it was; a write outside the image changes nothing, so the
/// serialized bytes stay the same.
pub proof fn lemma_write_then_read(v: ImageView, p: (int, int), colour: Pixel)
    requires
        v.wf(),
    ensures
        v.in_bounds(p) ==> v.paint(set![p], colour).pixel_at(p) == colour,
        v.in_bounds(p) ==> forall|q: (int, int)|
            v.in_bounds(q) && q != p ==> #[trigger] v.paint(set![p], colour).pixel_at(q) == v.pixel_at(q),
        !v.in_bounds(p) ==> v.paint(set![p], colour) == v,
        !v.in_bounds(p) ==> ppm_bytes(v.paint(set![p], colour)) == ppm_bytes(v),
{
    lemma_paint_one(v, p, colour);
    if v.in_bounds(p) {
        assert forall|q: (int, int)|
            v.in_bounds(q) && q != p implies #[trigger] v.paint(set![p], colour).pixel_at(q) == v.pixel_at(q) by {
            lemma_paint_one(v, q, colour);
            assert(v.index_of(q) != v.index_of(p)) by (nonlinear_arith)
                requires
                    v.index_of(q) == q.1 * v.width + q.0,
                    v.index_of(p) == p.1 * v.width + p.0,
                    0 <= p.0 < v.width,
                    0 <= q.0 < v.width,
                    q != p,
            ;
        }
    }
}

/// A line from a point to itself covers exactly that point.
pub proof fn lemma_line_single_point(p: (int, int))
    ensures
        line_pixels(p, p) == set![p],
{
    assert(line_pixels(p, p) =~= set![p]);
}

/// A line covers the same pixels whichever endpoint comes first.
pub proof fn lemma_line_symmetric(a: (int, int), b: (int, int))
    ensures
        line_pixels(a, b) == line_pixels(b, a),
{
}

/// Swapping two vertices of a front-facing triangle negates its signed area,
/// and filling it then draws nothing, wherever it lies.
pub proof fn lemma_swap_culls(a: (int, int), b: (int, int), c: (int, int), v: ImageView, colour: Pixel)
    requires
        signed_area(a, b, c) > 0,
    ensures
        signed_area(b, a, c) == -signed_area(a, b, c),
        triangle_pixels(b, a, c) == Set::<(int, int)>::empty(),
        v.paint(triangle_pixels(b, a, c), colour) == v,
{
    assert(signed_area(b, a, c) == -signed_area(a, b, c)) by (nonlinear_arith);
    assert(v.paint(triangle_pixels(b, a, c), colour).pixels =~= v.pixels);
}

/// The dump holds a header of `9` bytes plus the digits of both dimensions,
/// then three bytes per pixel: `15 + 3 * width * height` bytes when both
/// dimensions have three digits.
pub proof fn lemma_ppm_length(v: ImageView)
    requires
        v.wf(),
    ensures
        ppm_bytes(v).len() == 9 + decimal(v.width).len() + decimal(v.height).len() + 3 * v.width * v.height,
        100 <= v.width < 1000 && 100 <= v.height < 1000 ==> ppm_bytes(v).len() == 15 + 3 * v.width * v.height,
{
    assert(3 * v.pixels.len() == 3 * v.width * v.height) by (nonlinear_arith)
        requires
            v.pixels.len() == v.width * v.height,
    ;
    if 100 <= v.width < 1000 && 100 <= v.height < 1000 {
        lemma_three_digits(v.width);
        lemma_three_digits(v.height);
    }
}

proof fn lemma_three_digits(n: nat)
    requires
        100 <= n < 1000,
    ensures
        decimal(n).len() == 3,
{
    assert(decimal((n / 10) / 10).len() == 1);
    assert(decimal(n / 10).len() == 2);
}

} // verus!
