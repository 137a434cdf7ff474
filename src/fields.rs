//! The six field components of a Yee grid and the index stencils of their
//! finite-difference updates.
use vstd::prelude::*;

use crate::grid::{plane_cell, plane_extent, plane_in_grid, Dims, FieldPlane, Grid3D};

verus! {

/// One of the six field components.
#[derive(Clone, Copy, Debug, PartialEq, Eq, Structural)]
pub enum Component {
    Ex,
    Ey,
    Ez,
    Hx,
    Hy,
    Hz,
}

/// A coordinate axis.
#[derive(Clone, Copy, Debug, PartialEq, Eq, Structural)]
pub enum Axis {
    X,
    Y,
    Z,
}

/// The six components, each a grid of the same dimensions.
pub struct FieldSet<T> {
    ex: Grid3D<T>,
    ey: Grid3D<T>,
    ez: Grid3D<T>,
    hx: Grid3D<T>,
    hy: Grid3D<T>,
    hz: Grid3D<T>,
}

impl<T: Copy> FieldSet<T> {
    /// The grid of one component.
    pub closed spec fn field(&self, c: Component) -> Grid3D<T> {
        match c {
            Component::Ex => self.ex,
            Component::Ey => self.ey,
            Component::Ez => self.ez,
            Component::Hx => self.hx,
            Component::Hy => self.hy,
            Component::Hz => self.hz,
        }
    }

    /// Common dimensions of the six grids.
    pub closed spec fn shape(&self) -> Dims {
        self.ex.shape()
    }

    pub open spec fn wf(&self) -> bool {
        forall|c: Component| (#[trigger] self.field(c)).wf() && self.field(c).shape() == self.shape()
    }

    /// Six grids of the given dimensions with every value `zero`.
    pub fn new(dims: Dims, zero: T) -> (r: Self)
        requires
            dims.wf(),
        ensures
            r.wf(),
            r.shape() == dims,
            forall|c: Component, p: int| 0 <= p < dims.cells() ==> #[trigger] r.field(c)@[p] == zero,
    {
        let r = FieldSet {
            ex: Grid3D::new(dims, zero),
            ey: Grid3D::new(dims, zero),
            ez: Grid3D::new(dims, zero),
            hx: Grid3D::new(dims, zero),
            hy: Grid3D::new(dims, zero),
            hz: Grid3D::new(dims, zero),
        };
        assert forall|c: Component| (#[trigger] r.field(c)).wf() && r.field(c).shape() == r.shape() by {
            match c {
                Component::Ex => {},
                Component::Ey => {},
                Component::Ez => {},
                Component::Hx => {},
                Component::Hy => {},
                Component::Hz => {},
            }
        }
        r
    }

    pub fn dims(&self) -> (r: Dims)
        ensures
            r == self.shape(),
    {
        self.ex.dims()
    }

    /// Value of component `c` at flattened position `p`.
    pub fn get_at(&self, c: Component, p: usize) -> (r: T)
        requires
            self.wf(),
            p < self.shape().cells(),
        ensures
            r == self.field(c)@[p as int],
    {
        assert(self.field(c).wf() && self.field(c).shape() == self.shape());
        match c {
            Component::Ex => self.ex.get_at(p),
            Component::Ey => self.ey.get_at(p),
            Component::Ez => self.ez.get_at(p),
            Component::Hx => self.hx.get_at(p),
            Component::Hy => self.hy.get_at(p),
            Component::Hz => self.hz.get_at(p),
        }
    }

    /// Overwrites component `c` at flattened position `p`; every other value
    /// of every component is kept.
    pub fn set_at(&mut self, c: Component, p: usize, v: T)
        requires
            old(self).wf(),
            p < old(self).shape().cells(),
        ensures
            final(self).wf(),
            final(self).shape() == old(self).shape(),
            final(self).field(c)@ == old(self).field(c)@.update(p as int, v),
            forall|o: Component| o != c ==> #[trigger] final(self).field(o) == old(self).field(o),
    {
        assert(self.field(c).wf() && self.field(c).shape() == self.shape());
        match c {
            Component::Ex => self.ex.set_at(p, v),
            Component::Ey => self.ey.set_at(p, v),
            Component::Ez => self.ez.set_at(p, v),
            Component::Hx => self.hx.set_at(p, v),
            Component::Hy => self.hy.set_at(p, v),
            Component::Hz => self.hz.set_at(p, v),
        }
        assert forall|o: Component| (#[trigger] self.field(o)).wf() && self.field(o).shape()
            == self.shape() by {
            assert(old(self).field(o).wf() && old(self).field(o).shape() == old(self).shape());
        }
    }

    /// Value of component `c` at cell (i, j, k).
    pub fn get_field(&self, i: usize, j: usize, k: usize, c: Component) -> (r: T)
        requires
            self.wf(),
            self.shape().contains(i as int, j as int, k as int),
        ensures
            r == self.field(c).at(i as int, j as int, k as int),
    {
        assert(self.field(c).wf() && self.field(c).shape() == self.shape());
        let p = self.dims().index(i, j, k);
        self.get_at(c, p)
    }

    /// Component `c` on a plane of cells, row by row (see `Grid3D::slice`).
    pub fn get_field_slice(&self, plane: FieldPlane, c: Component) -> (r: Vec<T>)
        requires
            self.wf(),
            plane_in_grid(self.shape(), plane),
        ensures
            r@.len() == plane_extent(self.shape(), plane).0 * plane_extent(self.shape(), plane).1,
            forall|a: int, b: int|
                0 <= a < plane_extent(self.shape(), plane).0 && 0 <= b < plane_extent(
                    self.shape(),
                    plane,
                ).1 ==> #[trigger] r@[b * plane_extent(self.shape(), plane).0 + a] == self.field(
                    c,
                ).at(plane_cell(plane, a, b).0, plane_cell(plane, a, b).1, plane_cell(plane, a, b).2),
    {
        assert(self.field(c).wf() && self.field(c).shape() == self.shape());
        match c {
            Component::Ex => self.ex.slice(plane),
            Component::Ey => self.ey.slice(plane),
            Component::Ez => self.ez.slice(plane),
            Component::Hx => self.hx.slice(plane),
            Component::Hy => self.hy.slice(plane),
            Component::Hz => self.hz.slice(plane),
        }
    }
}


/// Coordinate of cell (i, j, k) along axis `a`.
pub open spec fn coord(i: int, j: int, k: int, a: Axis) -> int {
    match a {
        Axis::X => i,
        Axis::Y => j,
        Axis::Z => k,
    }
}

/// Cell count along axis `a`.
pub open spec fn axis_len(d: Dims, a: Axis) -> int {
    match a {
        Axis::X => d.nx as int,
        Axis::Y => d.ny as int,
        Axis::Z => d.nz as int,
    }
}

/// Flattened position of the cell `delta` cells away from (i, j, k) along `a`.
pub open spec fn shifted_index(d: Dims, i: int, j: int, k: int, a: Axis, delta: int) -> int {
    match a {
        Axis::X => d.index_of(i + delta, j, k),
        Axis::Y => d.index_of(i, j + delta, k),
        Axis::Z => d.index_of(i, j, k + delta),
    }
}

/// Flattened position of the neighbour one cell back along `a`, or of the
/// cell itself on the lower boundary (backward differences of the E update).
pub fn lower_neighbor(d: &Dims, i: usize, j: usize, k: usize, a: Axis) -> (r: usize)
    requires
        d.wf(),
        d.contains(i as int, j as int, k as int),
    ensures
        r == if coord(i as int, j as int, k as int, a) > 0 {
            shifted_index(*d, i as int, j as int, k as int, a, -1)
        } else {
            d.index_of(i as int, j as int, k as int)
        },
        r < d.cells(),
{
    match a {
        Axis::X => if i > 0 {
            d.index(i - 1, j, k)
        } else {
            d.index(i, j, k)
        },
        Axis::Y => if j > 0 {
            d.index(i, j - 1, k)
        } else {
            d.index(i, j, k)
        },
        Axis::Z => if k > 0 {
            d.index(i, j, k - 1)
        } else {
            d.index(i, j, k)
        },
    }
}

/// Flattened position of the neighbour one cell forward along `a`, clamped
/// to the last cell of the axis (forward differences of the H update).
pub fn upper_neighbor(d: &Dims, i: usize, j: usize, k: usize, a: Axis) -> (r: usize)
    requires
        d.wf(),
        d.contains(i as int, j as int, k as int),
    ensures
        r == if coord(i as int, j as int, k as int, a) + 1 < axis_len(*d, a) {
            shifted_index(*d, i as int, j as int, k as int, a, 1)
        } else {
            d.index_of(i as int, j as int, k as int)
        },
        r < d.cells(),
{
    match a {
        Axis::X => if i + 1 < d.nx {
            d.index(i + 1, j, k)
        } else {
            d.index(i, j, k)
        },
        Axis::Y => if j + 1 < d.ny {
            d.index(i, j + 1, k)
        } else {
            d.index(i, j, k)
        },
        Axis::Z => if k + 1 < d.nz {
            d.index(i, j, k + 1)
        } else {
            d.index(i, j, k)
        },
    }
}

/// Cells swept by the update of a component: every cell whose differences
/// along the two curl axes are defined, i.e. all but the last layer along
/// each of the other two axes.
pub open spec fn sweep_extent_spec(d: Dims, c: Component) -> (int, int, int) {
    match c {
        Component::Ex | Component::Hx => (d.nx as int, d.ny - 1, d.nz - 1),
        Component::Ey | Component::Hy => (d.nx - 1, d.ny as int, d.nz - 1),
        Component::Ez | Component::Hz => (d.nx - 1, d.ny - 1, d.nz as int),
    }
}

/// Upper bounds (exclusive) of i, j and k in the update sweep of `c`.
pub fn sweep_extent(d: &Dims, c: Component) -> (r: (usize, usize, usize))
    requires
        d.wf(),
    ensures
        (r.0 as int, r.1 as int, r.2 as int) == sweep_extent_spec(*d, c),
        r.0 <= d.nx && r.1 <= d.ny && r.2 <= d.nz,
{
    match c {
        Component::Ex | Component::Hx => (d.nx, d.ny - 1, d.nz - 1),
        Component::Ey | Component::Hy => (d.nx - 1, d.ny, d.nz - 1),
        Component::Ez | Component::Hz => (d.nx - 1, d.ny - 1, d.nz),
    }
}

} // verus!
