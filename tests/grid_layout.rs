use fdtd::fields::{lower_neighbor, sweep_extent, upper_neighbor, Axis, Component, FieldSet};
use fdtd::grid::{centered, slice_dims, Dims, FieldPlane, Grid3D};
use fdtd::probes::{decay_should_stop, Probes, RunState};

#[test]
fn dims_validation() {
    assert!(Dims::new(0, 5, 5).is_none());
    assert!(Dims::new(5, 5, 0).is_none());
    assert!(Dims::new(usize::MAX, 2, 1).is_none());
    let d = Dims::new(4, 3, 2).unwrap();
    assert_eq!(d.count(), 24);
}

#[test]
fn flat_index_layout() {
    let d = Dims::new(4, 3, 2).unwrap();
    assert_eq!(d.index(0, 0, 0), 0);
    assert_eq!(d.index(1, 0, 0), 1);
    assert_eq!(d.index(0, 1, 0), 4);
    assert_eq!(d.index(0, 0, 1), 12);
    assert_eq!(d.index(3, 2, 1), 23);
}

#[test]
fn grid_set_get() {
    let d = Dims::new(3, 3, 3).unwrap();
    let mut g = Grid3D::new(d, 0i32);
    g.set(1, 2, 0, 7);
    assert_eq!(g.get(1, 2, 0), 7);
    assert_eq!(g.get_at(d.index(1, 2, 0)), 7);
    assert_eq!(g.get(2, 1, 0), 0);
    g.set_at(26, -1);
    assert_eq!(g.get(2, 2, 2), -1);
}

#[test]
fn grid_slices_follow_planes() {
    let d = Dims::new(2, 3, 4).unwrap();
    let mut data = Vec::new();
    for p in 0..24 {
        data.push(p as u32);
    }
    let g = Grid3D::from_vec(d, data);
    let xy = g.slice(FieldPlane::XY(1));
    assert_eq!(xy.len(), 6);
    assert_eq!(xy, vec![6, 7, 8, 9, 10, 11]);
    let xz = g.slice(FieldPlane::XZ(2));
    assert_eq!(xz.len(), 8);
    assert_eq!(xz, vec![4, 5, 10, 11, 16, 17, 22, 23]);
    let yz = g.slice(FieldPlane::YZ(1));
    assert_eq!(yz.len(), 12);
    assert_eq!(yz[0], 1);
    assert_eq!(yz[1], 3);
    assert_eq!(yz[3], 7);
    assert_eq!(yz[11], 23);
}

#[test]
fn neighbours_clamp_at_boundaries() {
    let d = Dims::new(4, 4, 4).unwrap();
    assert_eq!(lower_neighbor(&d, 2, 1, 1, Axis::X), d.index(1, 1, 1));
    assert_eq!(lower_neighbor(&d, 0, 1, 1, Axis::X), d.index(0, 1, 1));
    assert_eq!(lower_neighbor(&d, 1, 0, 1, Axis::Y), d.index(1, 0, 1));
    assert_eq!(lower_neighbor(&d, 1, 1, 3, Axis::Z), d.index(1, 1, 2));
    assert_eq!(upper_neighbor(&d, 2, 1, 1, Axis::X), d.index(3, 1, 1));
    assert_eq!(upper_neighbor(&d, 3, 1, 1, Axis::X), d.index(3, 1, 1));
    assert_eq!(upper_neighbor(&d, 1, 3, 1, Axis::Y), d.index(1, 3, 1));
    assert_eq!(upper_neighbor(&d, 1, 1, 0, Axis::Z), d.index(1, 1, 1));
}

#[test]
fn sweep_extents_per_component() {
    let d = Dims::new(5, 6, 7).unwrap();
    assert_eq!(sweep_extent(&d, Component::Ex), (5, 5, 6));
    assert_eq!(sweep_extent(&d, Component::Hy), (4, 6, 6));
    assert_eq!(sweep_extent(&d, Component::Ez), (4, 5, 7));
}

#[test]
fn field_set_components_are_independent() {
    let d = Dims::new(3, 3, 3).unwrap();
    let mut f = FieldSet::new(d, 0.0f64);
    let p = d.index(1, 1, 1);
    f.set_at(Component::Ez, p, 2.5);
    assert_eq!(f.get_field(1, 1, 1, Component::Ez), 2.5);
    assert_eq!(f.get_field(1, 1, 1, Component::Ex), 0.0);
    assert_eq!(f.get_at(Component::Ez, p), 2.5);
    let s = f.get_field_slice(FieldPlane::XY(1), Component::Ez);
    assert_eq!(s.len(), 9);
    assert_eq!(s[4], 2.5);
}

#[test]
fn probes_record_once_per_call() {
    let d = Dims::new(3, 3, 3).unwrap();
    let mut f = FieldSet::new(d, 0.0f64);
    let mut probes = Probes::new();
    let a = probes.add_monitor([1, 1, 1], Component::Ez);
    let b = probes.add_monitor([0, 0, 0], Component::Hx);
    assert_eq!((a, b), (0, 1));
    probes.record(&f);
    f.set_at(Component::Ez, d.index(1, 1, 1), 1.5);
    probes.record(&f);
    assert_eq!(probes.get_monitor_samples(a).unwrap(), &[0.0, 1.5][..]);
    assert_eq!(probes.get_monitor_samples(b).unwrap(), &[0.0, 0.0][..]);
    assert!(probes.get_monitor_samples(2).is_none());
}

#[test]
fn decay_stop_rule() {
    assert!(!decay_should_stop(100, false, true));
    assert!(decay_should_stop(101, false, true));
    assert!(!decay_should_stop(500, true, true));
    assert!(!decay_should_stop(500, false, false));
}

#[test]
fn fill_region_is_clamped_to_grid() {
    let d = Dims::new(4, 4, 4).unwrap();
    let mut g = Grid3D::new(d, 1u8);
    g.fill_region([2, 2, 2], [10, 3, 10], 9);
    assert_eq!(g.get(2, 2, 2), 9);
    assert_eq!(g.get(3, 2, 3), 9);
    assert_eq!(g.get(3, 3, 3), 1);
    assert_eq!(g.get(1, 2, 2), 1);
    let mut count = 0;
    for p in 0..64 {
        if g.get_at(p) == 9 {
            count += 1;
        }
    }
    assert_eq!(count, 4);
    g.fill_region([3, 0, 0], [1, 4, 4], 5);
    assert_eq!(g.get(3, 0, 0), 1);
}

#[test]
fn centred_planes_and_slice_dims() {
    let d = Dims::new(20, 30, 40).unwrap();
    assert_eq!(centered(&d, FieldPlane::XY(0)), FieldPlane::XY(20));
    assert_eq!(centered(&d, FieldPlane::XZ(7)), FieldPlane::XZ(15));
    assert_eq!(centered(&d, FieldPlane::YZ(3)), FieldPlane::YZ(10));
    assert_eq!(slice_dims(&d, FieldPlane::XY(0)), (20, 30));
    assert_eq!(slice_dims(&d, FieldPlane::XZ(0)), (20, 40));
    assert_eq!(slice_dims(&d, FieldPlane::YZ(0)), (30, 40));
}

#[test]
fn run_state_closes_steps() {
    let d = Dims::new(2, 2, 2).unwrap();
    let mut f = FieldSet::new(d, 0i64);
    let mut run = RunState::new();
    let m = run.probes.add_monitor([1, 0, 1], Component::Hy);
    f.set_at(Component::Hy, d.index(1, 0, 1), 4);
    run.finish_step(&f);
    f.set_at(Component::Hy, d.index(1, 0, 1), -2);
    run.finish_step(&f);
    assert_eq!(run.time_step, 2);
    assert_eq!(run.probes.get_monitor_samples(m).unwrap(), &[4, -2][..]);
}
