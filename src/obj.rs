use vstd::prelude::*;

use crate::decimal::ASCII_0;
use crate::geometry::Triangle;

verus! {

pub const ASCII_NINE: u8 = 0x39;

pub const ASCII_SLASH: u8 = 0x2f;

/// ASCII whitespace: space, tab, line feed, vertical tab, form feed, carriage return.
pub open spec fn is_space(b: u8) -> bool {
    b == 0x20 || (0x09 <= b && b <= 0x0d)
}

pub open spec fn is_digit(b: u8) -> bool {
    ASCII_0 <= b && b <= ASCII_NINE
}

/// The maximal runs of non-whitespace bytes of `s`, in order.
pub open spec fn fields(s: Seq<u8>) -> Seq<Seq<u8>>
    decreases s.len(),
{
    if s.len() == 0 {
        seq![]
    } else {
        let rest = fields(s.drop_last());
        let b = s.last();
        if is_space(b) {
            rest
        } else if s.len() >= 2 && !is_space(s[s.len() - 2]) {
            rest.drop_last().push(rest.last().push(b))
        } else {
            rest.push(seq![b])
        }
    }
}

/// The number of leading decimal digits of `t`.
pub open spec fn digit_run(t: Seq<u8>) -> nat
    decreases t.len(),
{
    if t.len() == 0 || !is_digit(t[0]) {
        0
    } else {
        1 + digit_run(t.drop_first())
    }
}

/// The value of a run of decimal digits.
pub open spec fn digits_value(d: Seq<u8>) -> nat
    decreases d.len(),
{
    if d.len() == 0 {
        0
    } else {
        digits_value(d.drop_last()) * 10 + (d.last() - ASCII_0) as nat
    }
}

/// The 0-based vertex index of a face field such as `3/3/1`: its part before
/// the first `/` must be a 1-based index, all digits, that fits in `usize`.
pub open spec fn face_index(t: Seq<u8>) -> Option<usize> {
    let n = digit_run(t);
    let v = digits_value(t.take(n as int));
    if n >= 1 && (n == t.len() || t[n as int] == ASCII_SLASH) && 1 <= v && v <= usize::MAX {
        Some((v - 1) as usize)
    } else {
        None
    }
}

/// The face of an OBJ face line such as `f 3/3/1 2/2/1 1/1/1`: after its
/// marker field, exactly three fields, each a valid vertex index.
pub open spec fn face_of(s: Seq<u8>) -> Option<Triangle> {
    let f = fields(s);
    if f.len() == 4 && face_index(f[1]) is Some && face_index(f[2]) is Some && face_index(f[3]) is Some {
        Some(Triangle(face_index(f[1])->0, face_index(f[2])->0, face_index(f[3])->0))
    } else {
        None
    }
}

proof fn lemma_digit_run(t: Seq<u8>, k: int)
    requires
        0 <= k <= t.len(),
        forall|j: int| 0 <= j < k ==> is_digit(#[trigger] t[j]),
        k == t.len() || !is_digit(t[k]),
    ensures
        digit_run(t) == k,
    decreases k,
{
    if k > 0 {
        lemma_digit_run(t.drop_first(), k - 1);
    }
}

/// Appending digits never lowers the value.
proof fn lemma_digits_grow(d: Seq<u8>, n: int)
    requires
        0 <= n <= d.len(),
    ensures
        digits_value(d.take(n)) <= digits_value(d),
    decreases d.len(),
{
    if n < d.len() {
        lemma_digits_grow(d.drop_last(), n);
        assert(d.drop_last().take(n) =~= d.take(n));
    } else {
        assert(d.take(n) =~= d);
    }
}

/// The ranges of the whitespace-separated fields of `s`.
fn field_ranges(s: &[u8]) -> (r: Vec<(usize, usize)>)
    ensures
        r@.len() == fields(s@).len(),
        forall|j: int| 0 <= j < r@.len() ==> #[trigger] r@[j].0 <= r@[j].1 <= s@.len(),
        forall|j: int|
            0 <= j < r@.len() ==> #[trigger] fields(s@)[j] == s@.subrange(r@[j].0 as int, r@[j].1 as int),
{
    let mut r: Vec<(usize, usize)> = Vec::new();
    let mut i: usize = 0;
    proof {
        assert(s@.take(0) =~= Seq::<u8>::empty());
    }
    while i < s.len()
        invariant
            i <= s@.len(),
            r@.len() == fields(s@.take(i as int)).len(),
            forall|j: int| 0 <= j < r@.len() ==> #[trigger] r@[j].0 < r@[j].1 <= i,
            forall|j: int|
                0 <= j < r@.len() ==> #[trigger] fields(s@.take(i as int))[j] == s@.subrange(
                    r@[j].0 as int,
                    r@[j].1 as int,
                ),
            i > 0 && !is_space(s@[i - 1]) ==> r@.len() > 0 && r@.last().1 == i,
        decreases s.len() - i,
    {
        let b = s[i];
        let ghost prev = fields(s@.take(i as int));
        let ghost next = fields(s@.take(i + 1));
        proof {
            assert(s@.take(i + 1).drop_last() =~= s@.take(i as int));
            assert(s@.take(i + 1).last() == b);
            if i >= 1 {
                assert(s@.take(i + 1)[i - 1] == s@[i - 1]);
            }
        }
        if b == 0x20 || (0x09 <= b && b <= 0x0d) {
            proof {
                assert(next == prev);
            }
        } else if i >= 1 && !(s[i - 1] == 0x20 || (0x09 <= s[i - 1] && s[i - 1] <= 0x0d)) {
            let last = r.len() - 1;
            let (start, _) = r[last];
            r.set(last, (start, i + 1));
            proof {
                assert(next == prev.drop_last().push(prev.last().push(b)));
                assert(prev.last() == s@.subrange(start as int, i as int));
                assert(prev.last().push(b) =~= s@.subrange(start as int, i + 1));
                assert forall|j: int| 0 <= j < r@.len() implies #[trigger] next[j] == s@.subrange(
                    r@[j].0 as int,
                    r@[j].1 as int,
                ) by {
                    if j < last {
                        assert(prev[j] == s@.subrange(r@[j].0 as int, r@[j].1 as int));
                    }
                }
            }
        } else {
            r.push((i, i + 1));
            proof {
                assert(next == prev.push(seq![b]));
                assert(seq![b] =~= s@.subrange(i as int, i + 1));
                assert forall|j: int| 0 <= j < r@.len() implies #[trigger] next[j] == s@.subrange(
                    r@[j].0 as int,
                    r@[j].1 as int,
                ) by {
                    if j < prev.len() {
                        assert(prev[j] == s@.subrange(r@[j].0 as int, r@[j].1 as int));
                    }
                }
            }
        }
        i = i + 1;
    }
    proof {
        assert(s@.take(i as int) =~= s@);
        assert forall|j: int| 0 <= j < r@.len() implies #[trigger] fields(s@)[j] == s@.subrange(
            r@[j].0 as int,
            r@[j].1 as int,
        ) by {
            assert(fields(s@.take(i as int))[j] == s@.subrange(r@[j].0 as int, r@[j].1 as int));
        }
    }
    r
}

/// The vertex index of the field `s[start..end]`, as `face_index` states.
fn parse_index(s: &[u8], start: usize, end: usize) -> (r: Option<usize>)
    requires
        start <= end <= s@.len(),
    ensures
        r == face_index(s@.subrange(start as int, end as int)),
{
    let ghost t = s@.subrange(start as int, end as int);
    let mut i: usize = start;
    let mut v: usize = 0;
    proof {
        assert(t.take(0) =~= Seq::<u8>::empty());
    }
    while i < end && ASCII_0 <= s[i] && s[i] <= ASCII_NINE
        invariant
            start <= i <= end <= s@.len(),
            t == s@.subrange(start as int, end as int),
            forall|j: int| 0 <= j < i - start ==> is_digit(#[trigger] t[j]),
            v == digits_value(t.take(i - start)),
        decreases end - i,
    {
        let d: usize = (s[i] - ASCII_0) as usize;
        proof {
            assert(t.take(i - start + 1).drop_last() =~= t.take(i - start));
        }
        if v > (usize::MAX - d) / 10 {
            proof {
                lemma_run_to_end(t, i - start + 1);
                lemma_digits_grow(t.take(digit_run(t) as int), i - start + 1);
                assert(t.take(digit_run(t) as int).take(i - start + 1) =~= t.take(i - start + 1));
            }
            return None;
        }
        v = v * 10 + d;
        i = i + 1;
    }
    proof {
        lemma_digit_run(t, i - start);
    }
    if i == start || (i < end && s[i] != ASCII_SLASH) || v == 0 {
        None
    } else {
        Some(v - 1)
    }
}

/// A run of `k` leading digits lies within the whole leading run.
proof fn lemma_run_to_end(t: Seq<u8>, k: int)
    requires
        0 <= k <= t.len(),
        forall|j: int| 0 <= j < k ==> is_digit(#[trigger] t[j]),
    ensures
        k <= digit_run(t) <= t.len(),
    decreases k,
{
    lemma_run_bound(t);
    if k > 0 {
        lemma_run_to_end(t.drop_first(), k - 1);
    }
}

proof fn lemma_run_bound(t: Seq<u8>)
    ensures
        digit_run(t) <= t.len(),
    decreases t.len(),
{
    if t.len() > 0 {
        lemma_run_bound(t.drop_first());
    }
}

/// Reads the face of an OBJ face line such as `f 3/3/1 2/2/1 1/1/1`, with its
/// 1-based vertex indices made 0-based; `None` when the line does not hold
/// exactly three valid indices after its marker.
pub fn parse_face(line: &[u8]) -> (r: Option<Triangle>)
    ensures
        r == face_of(line@),
{
    let ranges = field_ranges(line);
    if ranges.len() != 4 {
        return None;
    }
    let first = parse_index(line, ranges[1].0, ranges[1].1);
    let second = parse_index(line, ranges[2].0, ranges[2].1);
    let third = parse_index(line, ranges[3].0, ranges[3].1);
    match (first, second, third) {
        (Some(i), Some(j), Some(k)) => Some(Triangle(i, j, k)),
        _ => None,
    }
}

} // verus!
