//! Index-level steps of the spectral post-processing: the padded transform
//! length, the band of bins that is searched, local-maximum picking, the
//! half-power walk that measures a peak's width, and the ranking of peaks.
//!
//! Magnitudes are handed in as order keys: unsigned integers that order as
//! the (non-negative) magnitudes they stand for.
use vstd::arithmetic::power2::{lemma2_to64, lemma_pow2_unfold, pow2};
use vstd::prelude::*;

verus! {

/// Fewest time samples that resonance and reflection analysis work on.
pub const MIN_ANALYSIS_LEN: usize = 64;

/// `p` is the smallest power of two that is at least `n`.
pub open spec fn is_padded_len(n: int, p: int) -> bool {
    p >= n && exists|e: nat| #[trigger] pow2(e) == p && (e == 0 || pow2((e - 1) as nat) < n)
}

/// No power of two that is at least `n` fits in `usize`.
pub open spec fn padding_overflows(n: int) -> bool {
    exists|e: nat| #[trigger] pow2(e) < n && 2 * pow2(e) > usize::MAX
}

/// Transform length for `n` samples: the smallest power of two that is at
/// least `n`. `None` when no such power of two fits in `usize`.
pub fn padded_len(n: usize) -> (r: Option<usize>)
    ensures
        r matches Some(p) ==> is_padded_len(n as int, p as int),
        r is None ==> padding_overflows(n as int),
{
    let mut p: usize = 1;
    let ghost mut e: nat = 0;
    proof {
        lemma2_to64();
    }
    while p < n
        invariant
            1 <= p,
            p == pow2(e),
            e == 0 || pow2((e - 1) as nat) < n,
        decreases usize::MAX - p,
    {
        if p > usize::MAX / 2 {
            return None;
        }
        proof {
            lemma_pow2_unfold(e + 1);
        }
        p = p * 2;
        proof {
            e = e + 1;
        }
    }
    Some(p)
}

/// Transform length for resonance analysis of `len` samples: `None` when
/// there are fewer than `MIN_ANALYSIS_LEN` samples, else the padded length.
pub fn analysis_len(len: usize) -> (r: Option<usize>)
    ensures
        len < MIN_ANALYSIS_LEN ==> r is None,
        len >= MIN_ANALYSIS_LEN ==> (r matches Some(p) ==> is_padded_len(len as int, p as int)),
        len >= MIN_ANALYSIS_LEN ==> (r is None ==> padding_overflows(len as int)),
{
    if len < MIN_ANALYSIS_LEN {
        None
    } else {
        padded_len(len)
    }
}

/// Transform length for a reflection analysis of an incident and a
/// reflected record: `None` unless both have the same length and that length
/// is enough for analysis; else the padded length.
pub fn reflection_analysis_len(incident_len: usize, reflected_len: usize) -> (r: Option<usize>)
    ensures
        incident_len != reflected_len ==> r is None,
        incident_len < MIN_ANALYSIS_LEN ==> r is None,
        incident_len == reflected_len && incident_len >= MIN_ANALYSIS_LEN ==> (r matches Some(p)
            ==> is_padded_len(incident_len as int, p as int)),
        incident_len == reflected_len && incident_len >= MIN_ANALYSIS_LEN ==> (r is None
            ==> padding_overflows(incident_len as int)),
{
    if incident_len != reflected_len {
        None
    } else {
        analysis_len(incident_len)
    }
}

/// Bins searched for resonances: from `lo` up to `hi_ceil`, but never at or
/// above the Nyquist bin `n / 2`. Empty when `lo` is not below that bound.
pub fn bin_window(lo: usize, hi_ceil: usize, n: usize) -> (r: (usize, usize))
    ensures
        r.1 == if hi_ceil < n / 2 {
            hi_ceil
        } else {
            n / 2
        },
        r.0 == if lo < r.1 {
            lo
        } else {
            r.1
        },
        r.0 <= r.1,
{
    let hi = if hi_ceil < n / 2 {
        hi_ceil
    } else {
        n / 2
    };
    let lo = if lo < hi {
        lo
    } else {
        hi
    };
    (lo, hi)
}

/// Largest of the keys, and 0 for none.
pub fn max_key(m: &Vec<u64>) -> (r: u64)
    ensures
        forall|q: int| 0 <= q < m@.len() ==> #[trigger] m@[q] <= r,
        r == 0 || exists|q: int| 0 <= q < m@.len() && #[trigger] m@[q] == r,
{
    let mut best: u64 = 0;
    let mut q: usize = 0;
    while q < m.len()
        invariant
            q <= m@.len(),
            forall|x: int| 0 <= x < q ==> #[trigger] m@[x] <= best,
            best == 0 || exists|x: int| 0 <= x < q && #[trigger] m@[x] == best,
        decreases m@.len() - q,
    {
        if m[q] > best {
            best = m[q];
        }
        q = q + 1;
    }
    best
}

/// Bin `i` is a local maximum above the threshold: strictly greater than
/// both neighbours and than `threshold`.
pub open spec fn is_peak(m: Seq<u64>, threshold: u64, i: int) -> bool {
    &&& 1 <= i
    &&& i + 1 < m.len()
    &&& m[i] > m[i - 1]
    &&& m[i] > m[i + 1]
    &&& m[i] > threshold
}

/// All peaks of `m` above `threshold`, in increasing bin order.
pub fn find_peaks(m: &Vec<u64>, threshold: u64) -> (r: Vec<usize>)
    ensures
        forall|q: int| 0 <= q < r@.len() ==> is_peak(m@, threshold, #[trigger] r@[q] as int),
        forall|q1: int, q2: int| 0 <= q1 < q2 < r@.len() ==> r@[q1] < r@[q2],
        forall|i: int| is_peak(m@, threshold, i) ==> exists|q: int| 0 <= q < r@.len() && #[trigger] r@[q] == i,
{
    let mut r: Vec<usize> = Vec::new();
    let n = m.len();
    if n < 3 {
        return r;
    }
    let mut i: usize = 1;
    while i + 1 < n
        invariant
            n == m@.len(),
            1 <= i <= n - 1,
            forall|q: int| 0 <= q < r@.len() ==> is_peak(m@, threshold, #[trigger] r@[q] as int),
            forall|q: int| 0 <= q < r@.len() ==> #[trigger] r@[q] < i,
            forall|q1: int, q2: int| 0 <= q1 < q2 < r@.len() ==> r@[q1] < r@[q2],
            forall|x: int|
                #![trigger is_peak(m@, threshold, x)]
                x < i && is_peak(m@, threshold, x) ==> exists|q: int| 0 <= q < r@.len() && #[trigger] r@[q] == x,
        decreases n - i,
    {
        if m[i] > m[i - 1] && m[i] > m[i + 1] && m[i] > threshold {
            let ghost old_r = r@;
            r.push(i);
            proof {
                assert forall|x: int|
                    #![trigger is_peak(m@, threshold, x)]
                    x < i + 1 && is_peak(m@, threshold, x) implies exists|q: int| 0 <= q < r@.len() && #[trigger] r@[q] == x by {
                    if x < i {
                        let q = choose|q: int| 0 <= q < old_r.len() && #[trigger] old_r[q] == x;
                        assert(r@[q] == x);
                    } else {
                        assert(r@[old_r.len() as int] == x);
                    }
                }
            }
        }
        i = i + 1;
    }
    r
}

/// `[lo, hi]` is where the half-power walks from bin `i` stop: downwards at
/// the first bin below `half` (or at bin 0), upwards at the first bin below
/// `half` (or at the last bin).
pub open spec fn half_power_bounds(m: Seq<u64>, half: u64, i: int, lo: int, hi: int) -> bool {
    &&& 0 <= lo <= i <= hi < m.len()
    &&& (lo == 0 || m[lo] < half)
    &&& forall|q: int| lo < q <= i ==> #[trigger] m[q] >= half
    &&& (hi == m.len() - 1 || m[hi] < half)
    &&& forall|q: int| i <= q < hi ==> #[trigger] m[q] >= half
}

/// Bins bounding the peak at bin `i` at the level `half`.
pub fn half_power_span(m: &Vec<u64>, i: usize, half: u64) -> (r: (usize, usize))
    requires
        i < m@.len(),
    ensures
        half_power_bounds(m@, half, i as int, r.0 as int, r.1 as int),
{
    let mut lo: usize = i;
    while lo > 0 && m[lo] >= half
        invariant
            lo <= i < m@.len(),
            forall|q: int| lo < q <= i ==> #[trigger] m@[q] >= half,
        decreases lo,
    {
        lo = lo - 1;
    }
    let mut hi: usize = i;
    while hi < m.len() - 1 && m[hi] >= half
        invariant
            i <= hi < m@.len(),
            forall|q: int| i <= q < hi ==> #[trigger] m@[q] >= half,
        decreases m@.len() - hi,
    {
        hi = hi + 1;
    }
    (lo, hi)
}


/// `j` is an entry of `s`.
pub open spec fn occurs(s: Seq<usize>, j: int) -> bool {
    exists|q: int| 0 <= q < s.len() && s[q] == j
}

/// Entry `a` ranks before entry `b`: a larger key, or an equal key and an
/// earlier position.
pub open spec fn ranks_before(keys: Seq<u64>, a: int, b: int) -> bool {
    keys[a] > keys[b] || (keys[a] == keys[b] && a < b)
}

/// Positions of `keys` ordered by descending key, equal keys keeping their
/// input order: a permutation of `0..keys.len()` (every position occurs,
/// and each entry ranks strictly before the next).
pub fn rank_by_key(keys: &Vec<u64>) -> (r: Vec<usize>)
    ensures
        r@.len() == keys@.len(),
        forall|q: int| 0 <= q < r@.len() ==> #[trigger] r@[q] < keys@.len(),
        forall|j: int| 0 <= j < keys@.len() ==> #[trigger] occurs(r@, j),
        forall|q1: int, q2: int|
            0 <= q1 < q2 < r@.len() ==> ranks_before(keys@, #[trigger] r@[q1] as int, #[trigger] r@[q2] as int),
{
    let n = keys.len();
    let mut r: Vec<usize> = Vec::new();
    let mut x: usize = 0;
    while x < n
        invariant
            n == keys@.len(),
            x <= n,
            r@.len() == x,
            forall|q: int| 0 <= q < r@.len() ==> #[trigger] r@[q] < x,
            forall|j: int| 0 <= j < x ==> #[trigger] occurs(r@, j),
            forall|q1: int, q2: int|
                0 <= q1 < q2 < r@.len() ==> ranks_before(keys@, #[trigger] r@[q1] as int, #[trigger] r@[q2] as int),
        decreases n - x,
    {
        let mut pos: usize = 0;
        while pos < r.len() && keys[r[pos]] >= keys[x]
            invariant
                n == keys@.len(),
                x < n,
                pos <= r@.len(),
                forall|q: int| 0 <= q < r@.len() ==> #[trigger] r@[q] < x,
                forall|q: int| 0 <= q < pos ==> ranks_before(keys@, #[trigger] r@[q] as int, x as int),
            decreases r@.len() - pos,
        {
            pos = pos + 1;
        }
        let ghost old_r = r@;
        r.insert(pos, x);
        proof {
            assert forall|j: int| 0 <= j < x + 1 implies #[trigger] occurs(r@, j) by {
                if j == x {
                    assert(r@[pos as int] == x);
                } else {
                    assert(occurs(old_r, j));
                    let q0 = choose|q: int| 0 <= q < old_r.len() && #[trigger] old_r[q] == j;
                    if q0 < pos {
                        assert(r@[q0] == j);
                    } else {
                        assert(r@[q0 + 1] == j);
                    }
                }
            }
            assert forall|q: int| 0 <= q < r@.len() implies #[trigger] r@[q] < x + 1 by {
                if q < pos {
                    assert(r@[q] == old_r[q]);
                } else if q > pos {
                    assert(r@[q] == old_r[q - 1]);
                }
            }
            assert forall|q1: int, q2: int|
                0 <= q1 < q2 < r@.len() implies ranks_before(keys@, #[trigger] r@[q1] as int, #[trigger] r@[q2] as int) by {
                if pos < old_r.len() {
                    assert(ranks_before(keys@, x as int, old_r[pos as int] as int));
                }
                if q2 < pos {
                    assert(r@[q1] == old_r[q1] && r@[q2] == old_r[q2]);
                } else if q2 == pos {
                    assert(r@[q1] == old_r[q1]);
                } else if q1 < pos {
                    assert(r@[q1] == old_r[q1] && r@[q2] == old_r[q2 - 1]);
                    assert(ranks_before(keys@, old_r[q1] as int, x as int));
                    if q2 - 1 > pos {
                        assert(ranks_before(keys@, old_r[pos as int] as int, old_r[q2 - 1] as int));
                    }
                } else if q1 == pos {
                    assert(r@[q2] == old_r[q2 - 1]);
                    if q2 - 1 > pos {
                        assert(ranks_before(keys@, old_r[pos as int] as int, old_r[q2 - 1] as int));
                    }
                } else {
                    assert(r@[q1] == old_r[q1 - 1] && r@[q2] == old_r[q2 - 1]);
                }
            }
        }
        x = x + 1;
    }
    r
}


/// A resonance located by bins: its peak bin and the bins where the
/// half-power walks stopped below and above it.
#[derive(Clone, Copy, Debug, PartialEq, Eq, Structural)]
pub struct PeakSpan {
    pub bin: usize,
    pub lo: usize,
    pub hi: usize,
}

/// Resonances of a magnitude spectrum `m`: every peak above `threshold`,
/// with its half-power bounds at level `halves[bin]`, strongest first and
/// lower bins first among equally strong peaks.
pub fn resonance_peaks(m: &Vec<u64>, halves: &Vec<u64>, threshold: u64) -> (r: Vec<PeakSpan>)
    requires
        halves@.len() == m@.len(),
    ensures
        forall|q: int|
            0 <= q < r@.len() ==> is_peak(m@, threshold, #[trigger] r@[q].bin as int)
                && half_power_bounds(
                m@,
                halves@[r@[q].bin as int],
                r@[q].bin as int,
                r@[q].lo as int,
                r@[q].hi as int,
            ),
        forall|i: int|
            #![trigger is_peak(m@, threshold, i)]
            is_peak(m@, threshold, i) ==> exists|q: int| 0 <= q < r@.len() && #[trigger] r@[q].bin == i,
        forall|q1: int, q2: int|
            0 <= q1 < q2 < r@.len() ==> ranks_before(m@, #[trigger] r@[q1].bin as int, #[trigger] r@[q2].bin as int),
{
    let peaks = find_peaks(m, threshold);
    let mut keys: Vec<u64> = Vec::with_capacity(peaks.len());
    let mut q: usize = 0;
    while q < peaks.len()
        invariant
            q <= peaks@.len(),
            keys@.len() == q,
            forall|x: int| 0 <= x < peaks@.len() ==> is_peak(m@, threshold, #[trigger] peaks@[x] as int),
            forall|x: int| 0 <= x < q ==> #[trigger] keys@[x] == m@[peaks@[x] as int],
        decreases peaks@.len() - q,
    {
        keys.push(m[peaks[q]]);
        q = q + 1;
    }
    let order = rank_by_key(&keys);
    let mut r: Vec<PeakSpan> = Vec::with_capacity(order.len());
    let mut q: usize = 0;
    while q < order.len()
        invariant
            halves@.len() == m@.len(),
            keys@.len() == peaks@.len(),
            order@.len() == keys@.len(),
            q <= order@.len(),
            r@.len() == q,
            forall|x: int| 0 <= x < peaks@.len() ==> is_peak(m@, threshold, #[trigger] peaks@[x] as int),
            forall|x: int| 0 <= x < order@.len() ==> #[trigger] order@[x] < keys@.len(),
            forall|x: int| 0 <= x < q ==> #[trigger] r@[x].bin == peaks@[order@[x] as int],
            forall|x: int|
                0 <= x < q ==> half_power_bounds(
                    m@,
                    halves@[r@[x].bin as int],
                    r@[x].bin as int,
                    #[trigger] r@[x].lo as int,
                    r@[x].hi as int,
                ),
        decreases order@.len() - q,
    {
        let b = peaks[order[q]];
        assert(is_peak(m@, threshold, peaks@[order@[q as int] as int] as int));
        let (lo, hi) = half_power_span(m, b, halves[b]);
        r.push(PeakSpan { bin: b, lo, hi });
        q = q + 1;
    }
    proof {
        assert forall|x: int| 0 <= x < r@.len() implies is_peak(m@, threshold, #[trigger] r@[x].bin as int)
            && half_power_bounds(
            m@,
            halves@[r@[x].bin as int],
            r@[x].bin as int,
            r@[x].lo as int,
            r@[x].hi as int,
        ) by {
            assert(r@[x].bin == peaks@[order@[x] as int]);
            assert(is_peak(m@, threshold, peaks@[order@[x] as int] as int));
            assert(half_power_bounds(
                m@,
                halves@[r@[x].bin as int],
                r@[x].bin as int,
                r@[x].lo as int,
                r@[x].hi as int,
            ));
        }
        assert forall|i: int|
            #![trigger is_peak(m@, threshold, i)]
            is_peak(m@, threshold, i) implies exists|x: int| 0 <= x < r@.len() && #[trigger] r@[x].bin == i by {
            let j = choose|j: int| 0 <= j < peaks@.len() && #[trigger] peaks@[j] == i;
            assert(occurs(order@, j));
            let x = choose|x: int| 0 <= x < order@.len() && #[trigger] order@[x] == j;
            assert(r@[x].bin == peaks@[order@[x] as int]);
        }
        assert forall|q1: int, q2: int| 0 <= q1 < q2 < r@.len() implies ranks_before(
            m@,
            #[trigger] r@[q1].bin as int,
            #[trigger] r@[q2].bin as int,
        ) by {
            let a = order@[q1] as int;
            let b = order@[q2] as int;
            assert(r@[q1].bin == peaks@[a] && r@[q2].bin == peaks@[b]);
            assert(ranks_before(keys@, a, b));
            assert(keys@[a] == m@[peaks@[a] as int] && keys@[b] == m@[peaks@[b] as int]);
            if keys@[a] == keys@[b] {
                assert(peaks@[a] < peaks@[b]);
            }
        }
    }
    r
}

} // verus!
