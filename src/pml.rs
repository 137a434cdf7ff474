//! Geometry of the absorbing boundary band along one axis.
//!
//! An axis of `n` cells carries a band of `t` cells at each end. The grading
//! of the absorbing profile is driven by the penetration depth of a cell into
//! the band, counted in cells: `t` at the outer boundary, falling by one per
//! cell towards the interior, and 0 outside the band. The normalized depth
//! `rho = depth / t` lies in `[0, 1]`.
use vstd::prelude::*;

verus! {

/// Cell `i` of an axis of `n` cells lies in a band of `t` cells at either end.
pub open spec fn in_band_spec(n: int, t: int, i: int) -> bool {
    i < t || i + t >= n
}

/// Penetration depth of cell `i` into the band, in cells. The lower band is
/// taken first where the two bands overlap.
pub open spec fn band_depth(n: int, t: int, i: int) -> int {
    if i < t {
        t - i
    } else if i + t >= n {
        i + t + 1 - n
    } else {
        0
    }
}

/// Whether cell `i` of an axis of `n` cells lies in the absorbing band of
/// `t` cells at either end.
pub fn in_band(n: usize, t: usize, i: usize) -> (r: bool)
    ensures
        r == in_band_spec(n as int, t as int, i as int),
{
    i < t || (n <= t || i >= n - t)
}

/// Penetration depth of cell `i` into the band.
pub fn depth(n: usize, t: usize, i: usize) -> (r: usize)
    requires
        i < n,
    ensures
        r == band_depth(n as int, t as int, i as int),
        r <= t,
{
    if i < t {
        t - i
    } else if n <= t || i >= n - t {
        i + 1 - (n - t)
    } else {
        0
    }
}

/// Depth of every cell of an axis of `n` cells, in order.
pub fn band_depths(n: usize, t: usize) -> (r: Vec<usize>)
    ensures
        r@.len() == n,
        forall|i: int| 0 <= i < n ==> #[trigger] r@[i] == band_depth(n as int, t as int, i),
{
    let mut r: Vec<usize> = Vec::with_capacity(n);
    let mut i: usize = 0;
    while i < n
        invariant
            i <= n,
            r@.len() == i,
            forall|q: int| 0 <= q < i ==> #[trigger] r@[q] == band_depth(n as int, t as int, q),
        decreases n - i,
    {
        r.push(depth(n, t, i));
        i = i + 1;
    }
    r
}

/// Shape of the band along an axis of `n` cells with bands of `t` cells at
/// each end: cells more than `t` cells from both boundaries have depth 0, and
/// so no absorption; every cell of the band has a depth from 1 to `t`; the
/// depth is 1 in the band cells next to the interior and `t` at the outer
/// boundary; and the depth is 0 exactly outside the band.
pub proof fn lemma_band_profile(n: int, t: int, i: int)
    requires
        0 <= t,
        2 * t <= n,
        0 <= i < n,
    ensures
        t <= i && i < n - t ==> band_depth(n, t, i) == 0,
        in_band_spec(n, t, i) ==> 1 <= band_depth(n, t, i) <= t,
        band_depth(n, t, i) == 0 <==> !in_band_spec(n, t, i),
        t > 0 && (i == t - 1 || i == n - t) ==> band_depth(n, t, i) == 1,
        t > 0 && (i == 0 || i == n - 1) ==> band_depth(n, t, i) == t,
{
}

} // verus!
