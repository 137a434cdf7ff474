use vstd::prelude::*;

use crate::grid::{Dims, Grid3D};

verus! {

/// Dimensions of a voxel block surrounded by a margin of `t` cells on every side.
pub open spec fn padded(d: Dims, t: int) -> Dims {
    Dims { nx: (d.nx + 2 * t) as usize, ny: (d.ny + 2 * t) as usize, nz: (d.nz + 2 * t) as usize }
}

/// Material id that the padded grid holds at cell (i, j, k): the voxel's id
/// where (i - t, j - t, k - t) is a voxel, air (id 0) in the margin.
pub open spec fn embedded_id(voxels: Grid3D<u8>, t: int, i: int, j: int, k: int) -> u8 {
    if voxels.shape().contains(i - t, j - t, k - t) {
        voxels.at(i - t, j - t, k - t)
    } else {
        0
    }
}

/// Places a grid of voxel material ids inside a margin of `t` air cells on
/// every side (the absorbing band of the simulation domain). `None` when the
/// padded grid's cell count does not fit in `usize`.
pub fn embed_with_margin(voxels: &Grid3D<u8>, t: usize) -> (r: Option<Grid3D<u8>>)
    requires
        voxels.wf(),
    ensures
        r is None <==> !padded(voxels.shape(), t as int).wf() || voxels.shape().nx + 2 * t
            > usize::MAX || voxels.shape().ny + 2 * t > usize::MAX || voxels.shape().nz + 2 * t
            > usize::MAX,
        r matches Some(g) ==> {
            &&& g.wf()
            &&& g.shape() == padded(voxels.shape(), t as int)
            &&& forall|i: int, j: int, k: int|
                g.shape().contains(i, j, k) ==> #[trigger] g.at(i, j, k) == embedded_id(
                    *voxels,
                    t as int,
                    i,
                    j,
                    k,
                )
        },
{
    let vd = voxels.dims();
    let m = match t.checked_mul(2) {
        Some(m) => m,
        None => {
            return None;
        },
    };
    let (nx, ny, nz) = match (vd.nx.checked_add(m), vd.ny.checked_add(m), vd.nz.checked_add(m)) {
        (Some(a), Some(b), Some(c)) => (a, b, c),
        _ => {
            return None;
        },
    };
    let d = match Dims::new(nx, ny, nz) {
        Some(d) => d,
        None => {
            return None;
        },
    };
    let mut data: Vec<u8> = Vec::with_capacity(d.count());
    let mut k: usize = 0;
    assert(0 * ny * nx == 0) by (nonlinear_arith);
    while k < nz
        invariant
            voxels.wf(),
            vd == voxels.shape(),
            d == padded(vd, t as int),
            d.wf(),
            m == 2 * t,
            nx == vd.nx + m,
            ny == vd.ny + m,
            nz == vd.nz + m,
            k <= nz,
            data@.len() == k * ny * nx,
            forall|ii: int, jj: int, kk: int|
                d.contains(ii, jj, kk) && kk < k ==> #[trigger] data@[d.index_of(ii, jj, kk)]
                    == embedded_id(*voxels, t as int, ii, jj, kk),
        decreases nz - k,
    {
        let mut j: usize = 0;
        while j < ny
            invariant
                voxels.wf(),
                vd == voxels.shape(),
                d == padded(vd, t as int),
                d.wf(),
                m == 2 * t,
                nx == vd.nx + m,
                ny == vd.ny + m,
                nz == vd.nz + m,
                k < nz,
                j <= ny,
                data@.len() == k * ny * nx + j * nx,
                forall|ii: int, jj: int, kk: int|
                    d.contains(ii, jj, kk) && (kk < k || (kk == k && jj < j)) ==> #[trigger] data@[d.index_of(
                        ii,
                        jj,
                        kk,
                    )] == embedded_id(*voxels, t as int, ii, jj, kk),
            decreases ny - j,
        {
            let mut i: usize = 0;
            while i < nx
                invariant
                    voxels.wf(),
                    vd == voxels.shape(),
                    d == padded(vd, t as int),
                    d.wf(),
                    m == 2 * t,
                    nx == vd.nx + m,
                    ny == vd.ny + m,
                    nz == vd.nz + m,
                    k < nz,
                    j < ny,
                    i <= nx,
                    data@.len() == k * ny * nx + j * nx + i,
                    forall|ii: int, jj: int, kk: int|
                        d.contains(ii, jj, kk) && (kk < k || (kk == k && jj < j) || (kk == k && jj
                            == j && ii < i)) ==> #[trigger] data@[d.index_of(ii, jj, kk)]
                            == embedded_id(*voxels, t as int, ii, jj, kk),
                decreases nx - i,
            {
                let inside = i >= t && j >= t && k >= t && i - t < vd.nx && j - t < vd.ny && k - t
                    < vd.nz;
                let v: u8 = if inside {
                    voxels.get(i - t, j - t, k - t)
                } else {
                    0
                };
                proof {
                    d.lemma_index_bounds(i as int, j as int, k as int);
                    assert forall|ii: int, jj: int, kk: int|
                        d.contains(ii, jj, kk) && (kk < k || (kk == k && jj < j) || (kk == k && jj
                            == j && ii < i)) implies #[trigger] d.index_of(ii, jj, kk) < d.index_of(
                        i as int,
                        j as int,
                        k as int,
                    ) by {
                        lemma_lex_index_order(d, ii, jj, kk, i as int, j as int, k as int);
                    }
                }
                data.push(v);
                i = i + 1;
            }
            proof {
                assert(j * nx + nx == (j + 1) * nx) by (nonlinear_arith);
            }
            j = j + 1;
        }
        proof {
            assert(k * ny * nx + ny * nx == (k + 1) * ny * nx) by (nonlinear_arith);
        }
        k = k + 1;
    }
    proof {
        assert forall|i: int, j: int, k: int| d.contains(i, j, k) implies data@[d.index_of(i, j, k)]
            == embedded_id(*voxels, t as int, i, j, k) by {}
        assert(k * ny * nx == nx * ny * nz) by (nonlinear_arith)
            requires
                k == nz,
        ;
    }
    Some(Grid3D::from_vec(d, data))
}

/// Voxel mapping: a grid laid out as `embed_with_margin` lays it out has
/// `voxel_dims + 2t` cells on every axis, and holds at `(vx + t, vy + t, vz + t)`
/// the material id of voxel `(vx, vy, vz)`, for every voxel.
pub proof fn lemma_voxel_mapping(voxels: Grid3D<u8>, t: int, g: Grid3D<u8>)
    requires
        voxels.wf(),
        0 <= t,
        g.wf(),
        g.shape() == padded(voxels.shape(), t),
        voxels.shape().nx + 2 * t <= usize::MAX,
        voxels.shape().ny + 2 * t <= usize::MAX,
        voxels.shape().nz + 2 * t <= usize::MAX,
        forall|i: int, j: int, k: int|
            g.shape().contains(i, j, k) ==> #[trigger] g.at(i, j, k) == embedded_id(voxels, t, i, j, k),
    ensures
        g.shape().nx == voxels.shape().nx + 2 * t,
        g.shape().ny == voxels.shape().ny + 2 * t,
        g.shape().nz == voxels.shape().nz + 2 * t,
        forall|vx: int, vy: int, vz: int|
            voxels.shape().contains(vx, vy, vz) ==> #[trigger] g.at(vx + t, vy + t, vz + t)
                == voxels.at(vx, vy, vz),
{
    assert forall|vx: int, vy: int, vz: int| voxels.shape().contains(vx, vy, vz) implies #[trigger] g.at(
        vx + t,
        vy + t,
        vz + t,
    ) == voxels.at(vx, vy, vz) by {
        assert(g.shape().contains(vx + t, vy + t, vz + t));
        assert(g.at(vx + t, vy + t, vz + t) == embedded_id(voxels, t, vx + t, vy + t, vz + t));
    }
}

/// Cells in lexicographic (z, y, x) order have increasing flattened positions.
proof fn lemma_lex_index_order(d: Dims, i1: int, j1: int, k1: int, i2: int, j2: int, k2: int)
    requires
        d.contains(i1, j1, k1),
        d.contains(i2, j2, k2),
        k1 < k2 || (k1 == k2 && j1 < j2) || (k1 == k2 && j1 == j2 && i1 < i2),
    ensures
        d.index_of(i1, j1, k1) < d.index_of(i2, j2, k2),
{
    let (nx, ny) = (d.nx as int, d.ny as int);
    if k1 < k2 {
        assert(k1 * ny * nx + j1 * nx + i1 < k2 * ny * nx + j2 * nx + i2) by (nonlinear_arith)
            requires
                0 <= i1 < nx,
                0 <= j1 < ny,
                0 <= i2,
                0 <= j2,
                0 <= k1 < k2,
        {
            assert(j1 * nx + i1 < ny * nx) by (nonlinear_arith)
                requires
                    0 <= i1 < nx,
                    0 <= j1 < ny,
            ;
            assert(k1 * ny * nx + ny * nx <= k2 * ny * nx) by (nonlinear_arith)
                requires
                    0 <= k1 < k2,
                    0 <= nx,
                    0 <= ny,
            ;
            assert(0 <= j2 * nx) by (nonlinear_arith)
                requires
                    0 <= j2,
                    0 <= nx,
            ;
        }
    } else if j1 < j2 {
        assert(j1 * nx + i1 < j2 * nx + i2) by (nonlinear_arith)
            requires
                0 <= i1 < nx,
                0 <= i2,
                0 <= j1 < j2,
        ;
    }
}

} // verus!
