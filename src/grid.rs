use vstd::prelude::*;

verus! {

/// Cell counts of a grid along x, y and z.
#[derive(Clone, Copy, Debug, PartialEq, Eq, Structural)]
pub struct Dims {
    pub nx: usize,
    pub ny: usize,
    pub nz: usize,
}

impl Dims {
    /// Number of cells in the grid.
    pub open spec fn cells(self) -> int {
        self.nx * self.ny * self.nz
    }

    /// Every axis has at least one cell and the cell count fits in `usize`.
    pub open spec fn wf(self) -> bool {
        &&& self.nx >= 1
        &&& self.ny >= 1
        &&& self.nz >= 1
        &&& self.cells() <= usize::MAX
    }

    pub open spec fn contains(self, i: int, j: int, k: int) -> bool {
        0 <= i < self.nx && 0 <= j < self.ny && 0 <= k < self.nz
    }

    /// Flattened position of cell (i, j, k): x varies fastest, then y, then z.
    pub open spec fn index_of(self, i: int, j: int, k: int) -> int {
        k * self.ny * self.nx + j * self.nx + i
    }

    /// Validated construction: `None` when an axis is empty or the cell count
    /// does not fit in `usize`.
    pub fn new(nx: usize, ny: usize, nz: usize) -> (r: Option<Dims>)
        ensures
            r matches Some(d) ==> d == (Dims { nx, ny, nz }) && d.wf(),
            r is None <==> !(Dims { nx, ny, nz }).wf(),
    {
        let d = Dims { nx, ny, nz };
        if nx == 0 || ny == 0 || nz == 0 {
            return None;
        }
        match nx.checked_mul(ny) {
            None => {
                proof {
                    assert(nx * ny <= nx * ny * nz) by (nonlinear_arith)
                        requires
                            nz >= 1,
                            nx >= 0,
                            ny >= 0,
                    ;
                }
                None
            },
            Some(p) => match p.checked_mul(nz) {
                None => None,
                Some(_) => Some(d),
            },
        }
    }

    /// Cell count as a machine integer.
    pub fn count(&self) -> (r: usize)
        requires
            self.wf(),
        ensures
            r == self.cells(),
    {
        proof {
            assert(self.nx * self.ny <= self.nx * self.ny * self.nz) by (nonlinear_arith)
                requires
                    self.nz >= 1,
            ;
        }
        self.nx * self.ny * self.nz
    }

    /// Flattened position of an in-bounds cell.
    pub fn index(&self, i: usize, j: usize, k: usize) -> (r: usize)
        requires
            self.wf(),
            self.contains(i as int, j as int, k as int),
        ensures
            r == self.index_of(i as int, j as int, k as int),
            r < self.cells(),
    {
        proof {
            self.lemma_index_bounds(i as int, j as int, k as int);
        }
        k * self.ny * self.nx + j * self.nx + i
    }

    /// The flattened position of an in-bounds cell lies in `[0, cells)`, and
    /// so do its partial products.
    pub proof fn lemma_index_bounds(self, i: int, j: int, k: int)
        requires
            self.contains(i, j, k),
        ensures
            0 <= k * self.ny * self.nx,
            0 <= k * self.ny <= k * self.ny * self.nx,
            0 <= j * self.nx,
            k * self.ny * self.nx + j * self.nx + i < self.cells(),
            0 <= self.index_of(i, j, k),
    {
        let (nx, ny, nz) = (self.nx as int, self.ny as int, self.nz as int);
        assert(j * nx + i < ny * nx) by (nonlinear_arith)
            requires
                0 <= i < nx,
                0 <= j < ny,
        ;
        assert(k * ny * nx + ny * nx <= nx * ny * nz) by (nonlinear_arith)
            requires
                0 <= k < nz,
                0 <= nx,
                0 <= ny,
        ;
        assert(0 <= k * ny <= k * ny * nx && 0 <= j * nx) by (nonlinear_arith)
            requires
                0 <= k,
                0 <= j,
                1 <= nx,
                0 <= ny,
        ;
    }

    /// Two in-bounds cells share a flattened position only if they are the same cell.
    pub proof fn lemma_index_injective(self, i1: int, j1: int, k1: int, i2: int, j2: int, k2: int)
        requires
            self.contains(i1, j1, k1),
            self.contains(i2, j2, k2),
            self.index_of(i1, j1, k1) == self.index_of(i2, j2, k2),
        ensures
            i1 == i2 && j1 == j2 && k1 == k2,
    {
        let (nx, ny) = (self.nx as int, self.ny as int);
        assert(k1 * ny * nx == (k1 * ny) * nx);
        assert(k2 * ny * nx == (k2 * ny) * nx);
        let r1 = j1 * nx + i1;
        let r2 = j2 * nx + i2;
        assert(0 <= r1 < ny * nx) by (nonlinear_arith)
            requires
                r1 == j1 * nx + i1,
                0 <= i1 < nx,
                0 <= j1 < ny,
        ;
        assert(0 <= r2 < ny * nx) by (nonlinear_arith)
            requires
                r2 == j2 * nx + i2,
                0 <= i2 < nx,
                0 <= j2 < ny,
        ;
        assert(k1 == k2) by (nonlinear_arith)
            requires
                k1 * ny * nx + r1 == k2 * ny * nx + r2,
                0 <= r1 < ny * nx,
                0 <= r2 < ny * nx,
                0 <= k1,
                0 <= k2,
        ;
        assert(j1 == j2) by (nonlinear_arith)
            requires
                j1 * nx + i1 == j2 * nx + i2,
                0 <= i1 < nx,
                0 <= i2 < nx,
                0 <= j1,
                0 <= j2,
        ;
    }
}


/// A plane of cells, for 2D slices of a field: `XY(k)` is the plane z = k,
/// `XZ(j)` the plane y = j, `YZ(i)` the plane x = i.
#[derive(Clone, Copy, Debug, PartialEq, Eq, Structural)]
pub enum FieldPlane {
    XY(usize),
    XZ(usize),
    YZ(usize),
}

/// Width and height of a slice: the cell counts of the two in-plane axes.
pub open spec fn plane_extent(d: Dims, plane: FieldPlane) -> (int, int) {
    match plane {
        FieldPlane::XY(_) => (d.nx as int, d.ny as int),
        FieldPlane::XZ(_) => (d.nx as int, d.nz as int),
        FieldPlane::YZ(_) => (d.ny as int, d.nz as int),
    }
}

/// The plane's fixed coordinate lies inside the grid.
pub open spec fn plane_in_grid(d: Dims, plane: FieldPlane) -> bool {
    match plane {
        FieldPlane::XY(k) => k < d.nz,
        FieldPlane::XZ(j) => j < d.ny,
        FieldPlane::YZ(i) => i < d.nx,
    }
}

/// The cell at in-plane position (a, b): `a` runs along the first in-plane
/// axis, `b` along the second.
pub open spec fn plane_cell(plane: FieldPlane, a: int, b: int) -> (int, int, int) {
    match plane {
        FieldPlane::XY(k) => (a, b, k as int),
        FieldPlane::XZ(j) => (a, j as int, b),
        FieldPlane::YZ(i) => (i as int, a, b),
    }
}

/// Cell (i, j, k) lies in the box `lo <= (i, j, k) < hi`.
pub open spec fn in_box(lo: [usize; 3], hi: [usize; 3], i: int, j: int, k: int) -> bool {
    lo[0] <= i < hi[0] && lo[1] <= j < hi[1] && lo[2] <= k < hi[2]
}

/// Width and height of a slice along `plane`.
pub fn slice_dims(d: &Dims, plane: FieldPlane) -> (r: (usize, usize))
    ensures
        (r.0 as int, r.1 as int) == plane_extent(*d, plane),
{
    match plane {
        FieldPlane::XY(_) => (d.nx, d.ny),
        FieldPlane::XZ(_) => (d.nx, d.nz),
        FieldPlane::YZ(_) => (d.ny, d.nz),
    }
}

/// The plane of the same orientation through the centre cell of the grid.
pub fn centered(d: &Dims, plane: FieldPlane) -> (r: FieldPlane)
    ensures
        r == match plane {
            FieldPlane::XY(_) => FieldPlane::XY(d.nz / 2),
            FieldPlane::XZ(_) => FieldPlane::XZ(d.ny / 2),
            FieldPlane::YZ(_) => FieldPlane::YZ(d.nx / 2),
        },
        d.wf() ==> plane_in_grid(*d, r),
{
    match plane {
        FieldPlane::XY(_) => FieldPlane::XY(d.nz / 2),
        FieldPlane::XZ(_) => FieldPlane::XZ(d.ny / 2),
        FieldPlane::YZ(_) => FieldPlane::YZ(d.nx / 2),
    }
}

/// Dense 3D array of values stored contiguously with x varying fastest.
pub struct Grid3D<T> {
    dims: Dims,
    data: Vec<T>,
}

impl<T> View for Grid3D<T> {
    type V = Seq<T>;

    closed spec fn view(&self) -> Seq<T> {
        self.data@
    }
}

impl<T: Copy> Grid3D<T> {
    pub closed spec fn shape(&self) -> Dims {
        self.dims
    }

    /// Storage holds exactly one value per cell of valid dimensions.
    pub open spec fn wf(&self) -> bool {
        self.shape().wf() && self@.len() == self.shape().cells()
    }

    /// Value at cell (i, j, k).
    pub open spec fn at(&self, i: int, j: int, k: int) -> T {
        self@[self.shape().index_of(i, j, k)]
    }

    /// A grid of the given dimensions with every cell holding `fill`.
    pub fn new(dims: Dims, fill: T) -> (r: Self)
        requires
            dims.wf(),
        ensures
            r.wf(),
            r.shape() == dims,
            forall|p: int| 0 <= p < dims.cells() ==> r@[p] == fill,
    {
        let n = dims.count();
        let mut data: Vec<T> = Vec::with_capacity(n);
        let mut p: usize = 0;
        while p < n
            invariant
                p <= n,
                data@.len() == p,
                forall|q: int| 0 <= q < p ==> data@[q] == fill,
            decreases n - p,
        {
            data.push(fill);
            p = p + 1;
        }
        Grid3D { dims, data }
    }

    /// A grid over existing storage, one value per cell in flattened order.
    pub fn from_vec(dims: Dims, data: Vec<T>) -> (r: Self)
        requires
            dims.wf(),
            data@.len() == dims.cells(),
        ensures
            r.wf(),
            r.shape() == dims,
            r@ == data@,
    {
        Grid3D { dims, data }
    }

    pub fn dims(&self) -> (r: Dims)
        ensures
            r == self.shape(),
    {
        self.dims
    }

    /// Value at flattened position `p`.
    pub fn get_at(&self, p: usize) -> (r: T)
        requires
            self.wf(),
            p < self.shape().cells(),
        ensures
            r == self@[p as int],
    {
        self.data[p]
    }

    /// Overwrites the value at flattened position `p`.
    pub fn set_at(&mut self, p: usize, v: T)
        requires
            old(self).wf(),
            p < old(self).shape().cells(),
        ensures
            final(self).wf(),
            final(self).shape() == old(self).shape(),
            final(self)@ == old(self)@.update(p as int, v),
    {
        self.data.set(p, v);
    }

    /// Value at cell (i, j, k).
    pub fn get(&self, i: usize, j: usize, k: usize) -> (r: T)
        requires
            self.wf(),
            self.shape().contains(i as int, j as int, k as int),
        ensures
            r == self.at(i as int, j as int, k as int),
    {
        let p = self.dims.index(i, j, k);
        self.data[p]
    }

    /// Overwrites the value at cell (i, j, k) and nothing else.
    pub fn set(&mut self, i: usize, j: usize, k: usize, v: T)
        requires
            old(self).wf(),
            old(self).shape().contains(i as int, j as int, k as int),
        ensures
            final(self).wf(),
            final(self).shape() == old(self).shape(),
            final(self)@ == old(self)@.update(
                old(self).shape().index_of(i as int, j as int, k as int),
                v,
            ),
    {
        let p = self.dims.index(i, j, k);
        self.data.set(p, v);
    }

    /// Writes `v` into every cell of the box `lo <= (i, j, k) < hi` that lies
    /// inside the grid (the box is clamped to the grid); other cells keep
    /// their values.
    pub fn fill_region(&mut self, lo: [usize; 3], hi: [usize; 3], v: T)
        requires
            old(self).wf(),
        ensures
            final(self).wf(),
            final(self).shape() == old(self).shape(),
            forall|i: int, j: int, k: int|
                old(self).shape().contains(i, j, k) ==> #[trigger] final(self).at(i, j, k) == if in_box(
                    lo,
                    hi,
                    i,
                    j,
                    k,
                ) {
                    v
                } else {
                    old(self).at(i, j, k)
                },
    {
        let ghost orig = *self;
        let d = self.dims;
        let imax = if hi[0] < d.nx {
            hi[0]
        } else {
            d.nx
        };
        let jmax = if hi[1] < d.ny {
            hi[1]
        } else {
            d.ny
        };
        let kmax = if hi[2] < d.nz {
            hi[2]
        } else {
            d.nz
        };
        let mut k: usize = lo[2];
        while k < kmax
            invariant
                self.wf(),
                self.shape() == d,
                orig.wf(),
                orig.shape() == d,
                imax == if hi[0] < d.nx { hi[0] } else { d.nx },
                jmax == if hi[1] < d.ny { hi[1] } else { d.ny },
                kmax == if hi[2] < d.nz { hi[2] } else { d.nz },
                lo[2] <= k,
                forall|ii: int, jj: int, kk: int|
                    d.contains(ii, jj, kk) ==> #[trigger] self.at(ii, jj, kk) == if in_box(lo, hi, ii, jj, kk)
                        && kk < k {
                        v
                    } else {
                        orig.at(ii, jj, kk)
                    },
            decreases kmax - k,
        {
            let mut j: usize = lo[1];
            while j < jmax
                invariant
                    self.wf(),
                    self.shape() == d,
                    orig.wf(),
                    orig.shape() == d,
                    imax == if hi[0] < d.nx { hi[0] } else { d.nx },
                    jmax == if hi[1] < d.ny { hi[1] } else { d.ny },
                    kmax == if hi[2] < d.nz { hi[2] } else { d.nz },
                    lo[2] <= k < kmax,
                    lo[1] <= j,
                    forall|ii: int, jj: int, kk: int|
                        d.contains(ii, jj, kk) ==> #[trigger] self.at(ii, jj, kk) == if in_box(lo, hi, ii, jj, kk)
                            && (kk < k || (kk == k && jj < j)) {
                            v
                        } else {
                            orig.at(ii, jj, kk)
                        },
                decreases jmax - j,
            {
                let mut i: usize = lo[0];
                while i < imax
                    invariant
                        self.wf(),
                        self.shape() == d,
                        orig.wf(),
                        orig.shape() == d,
                        imax == if hi[0] < d.nx { hi[0] } else { d.nx },
                        jmax == if hi[1] < d.ny { hi[1] } else { d.ny },
                        kmax == if hi[2] < d.nz { hi[2] } else { d.nz },
                        lo[2] <= k < kmax,
                        lo[1] <= j < jmax,
                        lo[0] <= i,
                        forall|ii: int, jj: int, kk: int|
                            d.contains(ii, jj, kk) ==> #[trigger] self.at(ii, jj, kk) == if in_box(
                                lo,
                                hi,
                                ii,
                                jj,
                                kk,
                            ) && (kk < k || (kk == k && (jj < j || (jj == j && ii < i)))) {
                                v
                            } else {
                                orig.at(ii, jj, kk)
                            },
                    decreases imax - i,
                {
                    let ghost prev = *self;
                    self.set(i, j, k, v);
                    proof {
                        d.lemma_index_bounds(i as int, j as int, k as int);
                        assert forall|ii: int, jj: int, kk: int| d.contains(ii, jj, kk) implies #[trigger] self.at(
                            ii,
                            jj,
                            kk,
                        ) == if in_box(lo, hi, ii, jj, kk) && (kk < k || (kk == k && (jj < j || (jj
                            == j && ii < i + 1)))) {
                            v
                        } else {
                            orig.at(ii, jj, kk)
                        } by {
                            d.lemma_index_bounds(ii, jj, kk);
                            if ii == i && jj == j && kk == k {
                            } else {
                                if d.index_of(ii, jj, kk) == d.index_of(i as int, j as int, k as int) {
                                    d.lemma_index_injective(ii, jj, kk, i as int, j as int, k as int);
                                }
                                assert(self.at(ii, jj, kk) == prev.at(ii, jj, kk));
                            }
                        }
                    }
                    i = i + 1;
                }
                j = j + 1;
            }
            k = k + 1;
        }
    }

    /// The values on a plane of cells, row by row: entry `b * width + a` is
    /// the cell at in-plane position (a, b).
    pub fn slice(&self, plane: FieldPlane) -> (r: Vec<T>)
        requires
            self.wf(),
            plane_in_grid(self.shape(), plane),
        ensures
            r@.len() == plane_extent(self.shape(), plane).0 * plane_extent(self.shape(), plane).1,
            forall|a: int, b: int|
                0 <= a < plane_extent(self.shape(), plane).0 && 0 <= b < plane_extent(
                    self.shape(),
                    plane,
                ).1 ==> #[trigger] r@[b * plane_extent(self.shape(), plane).0 + a] == self.at(
                    plane_cell(plane, a, b).0,
                    plane_cell(plane, a, b).1,
                    plane_cell(plane, a, b).2,
                ),
    {
        let d = self.dims;
        let (ni, nj): (usize, usize) = match plane {
            FieldPlane::XY(_) => (d.nx, d.ny),
            FieldPlane::XZ(_) => (d.nx, d.nz),
            FieldPlane::YZ(_) => (d.ny, d.nz),
        };
        proof {
            assert(ni * nj <= d.cells()) by (nonlinear_arith)
                requires
                    d.nx >= 1,
                    d.ny >= 1,
                    d.nz >= 1,
                    (ni == d.nx && nj == d.ny) || (ni == d.nx && nj == d.nz) || (ni == d.ny && nj
                        == d.nz),
            ;
        }
        let mut r: Vec<T> = Vec::with_capacity(ni * nj);
        let mut b: usize = 0;
        while b < nj
            invariant
                self.wf(),
                d == self.shape(),
                plane_in_grid(d, plane),
                (ni as int, nj as int) == plane_extent(d, plane),
                b <= nj,
                r@.len() == b * ni,
                forall|aa: int, bb: int|
                    0 <= aa < ni && 0 <= bb < b ==> #[trigger] r@[bb * ni + aa] == self.at(
                        plane_cell(plane, aa, bb).0,
                        plane_cell(plane, aa, bb).1,
                        plane_cell(plane, aa, bb).2,
                    ),
            decreases nj - b,
        {
            let mut a: usize = 0;
            while a < ni
                invariant
                    self.wf(),
                    d == self.shape(),
                    plane_in_grid(d, plane),
                    (ni as int, nj as int) == plane_extent(d, plane),
                    b < nj,
                    a <= ni,
                    r@.len() == b * ni + a,
                    forall|aa: int, bb: int|
                        0 <= aa < ni && 0 <= bb < b ==> #[trigger] r@[bb * ni + aa] == self.at(
                            plane_cell(plane, aa, bb).0,
                            plane_cell(plane, aa, bb).1,
                            plane_cell(plane, aa, bb).2,
                        ),
                    forall|aa: int|
                        0 <= aa < a ==> #[trigger] r@[b * ni + aa] == self.at(
                            plane_cell(plane, aa, b as int).0,
                            plane_cell(plane, aa, b as int).1,
                            plane_cell(plane, aa, b as int).2,
                        ),
                decreases ni - a,
            {
                let v = match plane {
                    FieldPlane::XY(k) => self.get(a, b, k),
                    FieldPlane::XZ(j) => self.get(a, j, b),
                    FieldPlane::YZ(i) => self.get(i, a, b),
                };
                proof {
                    assert forall|aa: int, bb: int| 0 <= aa < ni && 0 <= bb < b implies #[trigger] (bb
                        * ni + aa) < b * ni by {
                        assert(bb * ni + aa < b * ni) by (nonlinear_arith)
                            requires
                                0 <= aa < ni,
                                0 <= bb < b,
                        ;
                    }
                }
                r.push(v);
                a = a + 1;
            }
            proof {
                assert((b + 1) * ni == b * ni + ni) by (nonlinear_arith);
            }
            b = b + 1;
        }
        proof {
            assert(b * ni == ni * nj) by (nonlinear_arith)
                requires
                    b == nj,
            ;
        }
        r
    }
}

} // verus!
