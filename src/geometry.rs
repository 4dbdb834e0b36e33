use vstd::prelude::*;

verus! {

/// An integer pixel position; `y == 0` is the top row.
#[derive(Copy, Clone, Debug, PartialEq, Eq, Structural)]
pub struct Position {
    pub x: usize,
    pub y: usize,
}

/// A face of a mesh: three indices into its vertex list.
#[derive(Copy, Clone, Debug, PartialEq, Eq, Structural)]
pub struct Triangle(pub usize, pub usize, pub usize);

impl View for Position {
    type V = (int, int);

    open spec fn view(&self) -> (int, int) {
        (self.x as int, self.y as int)
    }
}

/// Twice the signed area of the triangle `a b c` (shoelace formula).
/// It is positive when the triangle is front-facing.
pub open spec fn signed_area(a: (int, int), b: (int, int), c: (int, int)) -> int {
    a.0 * (b.1 - c.1) + b.0 * (c.1 - a.1) + c.0 * (a.1 - b.1)
}

pub open spec fn sign(v: int) -> i8 {
    if v > 0 {
        1
    } else if v < 0 {
        -1i8
    } else {
        0
    }
}

/// `p` lies inside the triangle `a b c` or on its boundary, for a front-facing
/// triangle: each barycentric weight, a sub-triangle's signed area over the
/// whole one, is non-negative.
pub open spec fn inside(p: (int, int), a: (int, int), b: (int, int), c: (int, int)) -> bool {
    &&& signed_area(p, a, b) >= 0
    &&& signed_area(p, b, c) >= 0
    &&& signed_area(p, c, a) >= 0
}

pub open spec fn min3(a: int, b: int, c: int) -> int {
    if a <= b && a <= c {
        a
    } else if b <= c {
        b
    } else {
        c
    }
}

pub open spec fn max3(a: int, b: int, c: int) -> int {
    if a >= b && a >= c {
        a
    } else if b >= c {
        b
    } else {
        c
    }
}

/// `p` lies in the axis-aligned bounding box of `a`, `b` and `c`.
pub open spec fn in_box(p: (int, int), a: (int, int), b: (int, int), c: (int, int)) -> bool {
    &&& min3(a.0, b.0, c.0) <= p.0 <= max3(a.0, b.0, c.0)
    &&& min3(a.1, b.1, c.1) <= p.1 <= max3(a.1, b.1, c.1)
}

/// The pixels that filling the triangle `a b c` covers: none for a back-facing
/// or degenerate triangle, else each point of the bounding box whose barycentric
/// weights are all non-negative.
pub open spec fn triangle_pixels(a: (int, int), b: (int, int), c: (int, int)) -> Set<(int, int)> {
    if signed_area(a, b, c) <= 0 {
        Set::empty()
    } else {
        Set::new(|p: (int, int)| in_box(p, a, b, c) && inside(p, a, b, c))
    }
}

/// The points of the half-open box `x0..x1` by `y0..y1` that lie inside the
/// triangle `a b c`.
pub open spec fn covered(
    a: (int, int),
    b: (int, int),
    c: (int, int),
    x0: int,
    x1: int,
    y0: int,
    y1: int,
) -> Set<(int, int)> {
    Set::new(|p: (int, int)| x0 <= p.0 < x1 && y0 <= p.1 < y1 && inside(p, a, b, c))
}

/// The value of a sign and a magnitude.
pub open spec fn signed(negative: bool, magnitude: u128) -> int {
    if negative {
        -(magnitude as int)
    } else {
        magnitude as int
    }
}

/// `a - b` as a sign and a magnitude.
fn signed_diff(a: usize, b: usize) -> (r: (bool, u128))
    ensures
        r.1 <= usize::MAX,
        signed(r.0, r.1) == a - b,
{
    if a < b {
        (true, (b - a) as u128)
    } else {
        (false, (a - b) as u128)
    }
}

/// `u * v` as a sign and a magnitude, where `u` and `v` are differences of two
/// coordinates.
fn signed_product(u: (bool, u128), v: (bool, u128)) -> (r: (bool, u128))
    requires
        u.1 <= usize::MAX,
        v.1 <= usize::MAX,
    ensures
        signed(r.0, r.1) == signed(u.0, u.1) * signed(v.0, v.1),
{
    let (mu, mv) = (u.1, v.1);
    assert(mu * mv <= usize::MAX * usize::MAX) by (nonlinear_arith)
        requires
            mu <= usize::MAX,
            mv <= usize::MAX,
    ;
    let m = mu * mv;
    proof {
        assert((mu as int) * (mv as int) == m as int);
        assert((-(mu as int)) * (mv as int) == -(m as int)) by (nonlinear_arith)
            requires
                (mu as int) * (mv as int) == m as int,
        ;
        assert((mu as int) * (-(mv as int)) == -(m as int)) by (nonlinear_arith)
            requires
                (mu as int) * (mv as int) == m as int,
        ;
        assert((-(mu as int)) * (-(mv as int)) == m as int) by (nonlinear_arith)
            requires
                (mu as int) * (mv as int) == m as int,
        ;
    }
    (u.0 != v.0, m)
}

/// The sign of `p - q` for two signed magnitudes.
fn compare_signed(p: (bool, u128), q: (bool, u128)) -> (r: i8)
    ensures
        r == sign(signed(p.0, p.1) - signed(q.0, q.1)),
{
    if p.0 == q.0 {
        if p.1 == q.1 {
            0
        } else if (p.1 > q.1) != p.0 {
            1
        } else {
            -1
        }
    } else if p.1 == 0 && q.1 == 0 {
        0
    } else if p.0 {
        -1i8
    } else {
        1
    }
}

/// The orientation of the triangle `a b c`: the sign of its signed area,
/// computed exactly for any coordinates.
pub fn triangle_orientation(a: &Position, b: &Position, c: &Position) -> (r: i8)
    ensures
        r == sign(signed_area(a@, b@, c@)),
{
    let p = signed_product(signed_diff(b.x, a.x), signed_diff(c.y, a.y));
    let q = signed_product(signed_diff(b.y, a.y), signed_diff(c.x, a.x));
    proof {
        let (ax, ay, bx, by, cx, cy) = (a.x as int, a.y as int, b.x as int, b.y as int, c.x as int, c.y as int);
        assert((bx - ax) * (cy - ay) - (by - ay) * (cx - ax) == ax * (by - cy) + bx * (cy - ay) + cx * (ay - by))
            by (nonlinear_arith);
    }
    compare_signed(p, q)
}

impl Position {
    /// Whether this position is inside the triangle `a b c` or on its boundary,
    /// by the signs of its barycentric weights for a front-facing triangle.
    pub fn is_inside_triangle(&self, a: &Position, b: &Position, c: &Position) -> (r: bool)
        ensures
            r == inside(self@, a@, b@, c@),
    {
        triangle_orientation(self, a, b) >= 0 && triangle_orientation(self, b, c) >= 0
            && triangle_orientation(self, c, a) >= 0
    }
}

/// The corners of the axis-aligned bounding box of three positions.
pub fn bounding_box(a: &Position, b: &Position, c: &Position) -> (r: (Position, Position))
    ensures
        r.0.x == min3(a.x as int, b.x as int, c.x as int),
        r.0.y == min3(a.y as int, b.y as int, c.y as int),
        r.1.x == max3(a.x as int, b.x as int, c.x as int),
        r.1.y == max3(a.y as int, b.y as int, c.y as int),
{
    let min = Position { x: min_of(a.x, b.x, c.x), y: min_of(a.y, b.y, c.y) };
    let max = Position { x: max_of(a.x, b.x, c.x), y: max_of(a.y, b.y, c.y) };
    (min, max)
}

fn min_of(a: usize, b: usize, c: usize) -> (r: usize)
    ensures
        r == min3(a as int, b as int, c as int),
{
    if a <= b && a <= c {
        a
    } else if b <= c {
        b
    } else {
        c
    }
}

fn max_of(a: usize, b: usize, c: usize) -> (r: usize)
    ensures
        r == max3(a as int, b as int, c as int),
{
    if a >= b && a >= c {
        a
    } else if b >= c {
        b
    } else {
        c
    }
}

} // verus!
