use fdtd::grid::{Dims, Grid3D};
use fdtd::pml::{band_depths, depth, in_band};
use fdtd::voxel::embed_with_margin;

#[test]
fn band_profile_scenario() {
    let n = 50;
    let t = 10;
    let d = band_depths(n, t);
    assert_eq!(d.len(), 50);
    assert_eq!(d[25], 0);
    assert!(d[2] > 0);
    assert_eq!(d[t], 0);
    assert_eq!(d[0], 10);
    assert_eq!(d[9], 1);
    assert_eq!(d[40], 1);
    assert_eq!(d[49], 10);
    assert!(in_band(n, t, 2));
    assert!(!in_band(n, t, 25));
    assert!(in_band(n, t, 40));
}

#[test]
fn band_without_thickness_is_empty() {
    for i in 0..8 {
        assert_eq!(depth(8, 0, i), 0);
        assert!(!in_band(8, 0, i));
    }
}

#[test]
fn voxel_block_lands_at_offset() {
    let vd = Dims::new(10, 10, 10).unwrap();
    let mut voxels = Grid3D::new(vd, 0u8);
    for z in 3..7 {
        for y in 3..7 {
            for x in 3..7 {
                voxels.set(x, y, z, 1);
            }
        }
    }
    let g = embed_with_margin(&voxels, 5).unwrap();
    let d = g.dims();
    assert_eq!((d.nx, d.ny, d.nz), (20, 20, 20));
    assert_eq!(g.get(10, 10, 10), 1);
    assert_eq!(g.get(8, 8, 8), 1);
    assert_eq!(g.get(12, 11, 9), 0);
    assert_eq!(g.get(2, 2, 2), 0);
    for z in 0..10 {
        for y in 0..10 {
            for x in 0..10 {
                assert_eq!(g.get(x + 5, y + 5, z + 5), voxels.get(x, y, z));
            }
        }
    }
}

#[test]
fn voxel_margin_zero_is_identity() {
    let vd = Dims::new(2, 2, 1).unwrap();
    let voxels = Grid3D::from_vec(vd, vec![1u8, 2, 3, 4]);
    let g = embed_with_margin(&voxels, 0).unwrap();
    assert_eq!(g.dims(), vd);
    assert_eq!(g.get(1, 1, 0), 4);
}

#[test]
fn voxel_margin_overflow_is_rejected() {
    let vd = Dims::new(1, 1, 1).unwrap();
    let voxels = Grid3D::new(vd, 0u8);
    assert!(embed_with_margin(&voxels, usize::MAX / 2).is_none());
}
