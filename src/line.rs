use vstd::prelude::*;
use vstd::arithmetic::div_mod::{lemma_fundamental_div_mod, lemma_fundamental_div_mod_converse};

verus! {

pub open spec fn abs(v: int) -> int {
    if v < 0 {
        -v
    } else {
        v
    }
}

/// `-1` when the walk from `from` to `to` goes down, else `1`.
pub open spec fn direction(from: int, to: int) -> int {
    if to < from {
        -1
    } else {
        1
    }
}

/// How far a Bresenham walk has moved along its minor axis after `k` steps
/// along its major axis, for a segment that spans `major` steps along the
/// major axis and `minor` along the other (`minor <= major`): `minor * k /
/// major` rounded to the nearest integer, halves rounded down.
pub open spec fn step_offset(k: int, minor: int, major: int) -> int {
    if major == 0 {
        0
    } else {
        (2 * minor * k + major - 1) / (2 * major)
    }
}

/// The first `n` pixels of a walk from `s` towards `e` that steps along x.
pub open spec fn low_prefix(s: (int, int), e: (int, int), n: int) -> Set<(int, int)> {
    Set::new(
        |p: (int, int)|
            0 <= p.0 - s.0 < n && p.1 == s.1 + direction(s.1, e.1) * step_offset(
                p.0 - s.0,
                abs(e.1 - s.1),
                e.0 - s.0,
            ),
    )
}

/// The first `n` pixels of a walk from `s` towards `e` that steps along y.
pub open spec fn high_prefix(s: (int, int), e: (int, int), n: int) -> Set<(int, int)> {
    Set::new(
        |p: (int, int)|
            0 <= p.1 - s.1 < n && p.0 == s.0 + direction(s.0, e.0) * step_offset(
                p.1 - s.1,
                abs(e.0 - s.0),
                e.1 - s.1,
            ),
    )
}

/// The pixels of the segment from `s` to `e`, one per column, for
/// `s.0 <= e.0` and a slope of at most one.
pub open spec fn low_pixels(s: (int, int), e: (int, int)) -> Set<(int, int)> {
    low_prefix(s, e, e.0 - s.0 + 1)
}

/// The pixels of the segment from `s` to `e`, one per row, for
/// `s.1 <= e.1` and a slope of at least one.
pub open spec fn high_pixels(s: (int, int), e: (int, int)) -> Set<(int, int)> {
    high_prefix(s, e, e.1 - s.1 + 1)
}

/// The pixels that drawing a line from `a` to `b` covers: the endpoints are
/// put in increasing order along the dominant axis (y when the two spans are
/// equal), then each step along it moves the other coordinate by `step_offset`.
pub open spec fn line_pixels(a: (int, int), b: (int, int)) -> Set<(int, int)> {
    if abs(b.1 - a.1) < abs(b.0 - a.0) {
        if a.0 > b.0 {
            low_pixels(b, a)
        } else {
            low_pixels(a, b)
        }
    } else if a.1 > b.1 {
        high_pixels(b, a)
    } else {
        high_pixels(a, b)
    }
}

/// `step_offset(k)` is the quotient of `2 * minor * k + major - 1` by
/// `2 * major`, and stays within `0..=minor` over the segment.
pub proof fn lemma_offset_bounds(k: int, minor: int, major: int)
    requires
        0 < major,
        0 <= minor <= major,
        0 <= k,
    ensures
        2 * major * step_offset(k, minor, major) <= 2 * minor * k + major - 1,
        2 * minor * k + major - 1 < 2 * major * step_offset(k, minor, major) + 2 * major,
        0 <= step_offset(k, minor, major),
        k <= major ==> step_offset(k, minor, major) <= minor,
{
    let x = 2 * minor * k + major - 1;
    let d = 2 * major;
    lemma_fundamental_div_mod(x, d);
    let q = x / d;
    let r = x % d;
    assert(0 <= r < d);
    assert(x >= 0) by (nonlinear_arith)
        requires
            x == 2 * minor * k + major - 1,
            minor >= 0,
            k >= 0,
            major > 0,
    ;
    assert(q >= 0) by (nonlinear_arith)
        requires
            x == d * q + r,
            x >= 0,
            r < d,
            d > 0,
    ;
    if k <= major {
        assert(q <= minor) by (nonlinear_arith)
            requires
                x == 2 * minor * k + major - 1,
                d == 2 * major,
                x == d * q + r,
                0 <= r,
                0 <= k <= major,
                0 <= minor,
                major > 0,
        ;
    }
}

/// A walk starts on its first pixel.
pub proof fn lemma_offset_zero(minor: int, major: int)
    requires
        0 <= major,
    ensures
        step_offset(0, minor, major) == 0,
{
    if major > 0 {
        assert(2 * minor * 0 == 0);
        lemma_fundamental_div_mod_converse(major - 1, 2 * major, 0, major - 1);
    }
}

/// One Bresenham step: with the error term
/// `2 * minor * (k + 1) - major - 2 * major * step_offset(k)`, the walk moves
/// along the minor axis exactly when that term is positive; the term stays
/// within `2 * minor - 2 * major + 1 ..= 2 * minor`.
pub proof fn lemma_offset_step(k: int, minor: int, major: int)
    requires
        0 < major,
        0 <= minor <= major,
        0 <= k,
    ensures
        ({
            let m = step_offset(k, minor, major);
            let e = 2 * minor * (k + 1) - major - 2 * major * m;
            &&& 2 * minor - 2 * major + 1 <= e <= 2 * minor
            &&& step_offset(k + 1, minor, major) == if e > 0 {
                m + 1
            } else {
                m
            }
        }),
{
    lemma_offset_bounds(k, minor, major);
    let m = step_offset(k, minor, major);
    let e = 2 * minor * (k + 1) - major - 2 * major * m;
    let x = 2 * minor * (k + 1) + major - 1;
    let d = 2 * major;
    assert(2 * minor * (k + 1) == 2 * minor * k + 2 * minor) by (nonlinear_arith);
    assert(2 * major * (m + 1) == 2 * major * m + 2 * major) by (nonlinear_arith);
    assert(m * d == 2 * major * m) by (nonlinear_arith)
        requires
            d == 2 * major,
    ;
    assert((m + 1) * d == 2 * major * (m + 1)) by (nonlinear_arith)
        requires
            d == 2 * major,
    ;
    if e > 0 {
        lemma_fundamental_div_mod_converse(x, d, m + 1, x - (m + 1) * d);
    } else {
        lemma_fundamental_div_mod_converse(x, d, m, x - m * d);
    }
}

} // verus!
