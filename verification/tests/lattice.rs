use cellauto3d::isizify3;
use cellauto3d::system::{wrap_coord, AutoSystem3d, Automaton, Rules, SysChange, SystemDims};

#[test]
fn clamp_cube_edge() {
    let d = SystemDims::new_cube_clamped(16, 96, 5);
    assert_eq!((d.x(), d.y(), d.z()), (16, 16, 16));
    let d = SystemDims::new_cube_clamped(16, 96, 200);
    assert_eq!((d.x(), d.y(), d.z()), (96, 96, 96));
    let d = SystemDims::new_cube_clamped(16, 96, 64);
    assert_eq!((d.x(), d.y(), d.z()), (64, 64, 64));
    let d = SystemDims::new_cube_clamped(16, 96, 16);
    assert_eq!(d.x(), 16);
    let d = SystemDims::new_cube_clamped(16, 96, 96);
    assert_eq!(d.x(), 96);
}

#[test]
fn periodic_wrap_edges() {
    // wrap(-1) = L-1, wrap(L) = 0, wrap(k) = k for 0 <= k < L
    let l = 16usize;
    assert_eq!(wrap_coord(-1, l), l - 1);
    assert_eq!(wrap_coord(l as isize, l), 0);
    for k in 0..l {
        assert_eq!(wrap_coord(k as isize, l), k);
    }
    assert_eq!(wrap_coord(-17, 16), 15);
    assert_eq!(wrap_coord(33, 16), 1);
}

#[test]
fn dims_ranges() {
    let d = SystemDims::new(4, 5, 6);
    assert_eq!(d.range_x(), 0..4);
    assert_eq!(d.range_y(), 0..5);
    assert_eq!(d.range_z(), 0..6);
    assert_eq!(d.max_amount(), 120);
    let t = SystemDims::new_from_tuple((7, 8, 9));
    assert_eq!((t.x(), t.y(), t.z()), (7, 8, 9));
}

#[test]
fn core_range_is_centered() {
    let d = SystemDims::new(64, 64, 64);
    // size = 64/10 + 1 = 7, start = 32 - 3 = 29, end = 36
    assert_eq!(d.core_range_x(10), 29..36);
    assert_eq!(d.core_range_y(10), 29..36);
    assert_eq!(d.core_range_z(10), 29..36);
}

#[test]
fn isizify3_converts() {
    assert_eq!(isizify3(1, 2, 3), (1, 2, 3));
}

#[test]
fn moore_neighbour_count_on_full_lattice() {
    // in a fully occupied lattice every cell sees all 26 distinct Moore
    // neighbours and all 6 Von Neumann neighbours
    let dims = SystemDims::new(4, 4, 4);
    let mut sys = AutoSystem3d::new_from_dims(&dims);
    for i in 0..4 {
        for j in 0..4 {
            for k in 0..4 {
                sys.set_xyz((i, j, k), Automaton::new_zero(0));
            }
        }
    }
    assert_eq!(sys.count_neighbours_moore((1, 1, 1), &dims), 26);
    assert_eq!(sys.count_neighbours_moore((0, 0, 0), &dims), 26);
    assert_eq!(sys.count_neighbours_von_neumann((2, 3, 0), &dims), 6);
}

#[test]
fn neighbour_count_wraps_around() {
    // a single occupied cell at the far wall is adjacent to the origin
    let dims = SystemDims::new(5, 5, 5);
    let mut sys = AutoSystem3d::new_from_dims(&dims);
    sys.set_xyz((4, 0, 0), Automaton::new_zero(7));
    assert_eq!(sys.count_neighbours_moore((0, 0, 0), &dims), 1);
    assert_eq!(sys.count_neighbours_von_neumann((0, 0, 0), &dims), 1);
    assert_eq!(sys.count_neighbours_moore((2, 0, 0), &dims), 0);
    assert!(sys.rem_euclid_bool((-1, 0, 0), &dims));
    assert!(sys.rem_euclid_bool((-1, 5, -5), &dims));
    assert!(!sys.rem_euclid_bool((-2, 0, 0), &dims));
}

#[test]
fn empty_lattice_counts_zero() {
    let dims = SystemDims::new(4, 4, 4);
    let sys = AutoSystem3d::new_from_dims(&dims);
    assert_eq!(sys.count_neighbours_moore((1, 1, 1), &dims), 0);
    assert_eq!(sys.count_neighbours_von_neumann((1, 1, 1), &dims), 0);
    assert!(sys.get_at_xyz((0, 0, 0)).is_none());
}

#[test]
fn automaton_accessors() {
    let mut a = Automaton::new(42, 3);
    assert_eq!(a.entity(), 42);
    assert_eq!(a.life(), 3);
    a.change_life(-1);
    assert_eq!(a.life(), 2);
    assert_eq!(a.entity(), 42);
    let z = Automaton::new_zero(9);
    assert_eq!(z.life(), 0);
    assert_eq!(z.entity(), 9);
}

#[test]
fn syschange_constructors() {
    let a = Automaton::new(11, 4);
    let s = SysChange::spawn(1, 2, 3, a);
    assert_eq!((s.x(), s.y(), s.z()), (1, 2, 3));
    assert_eq!(s.element(), Some(a));
    let e = SysChange::empty(4, 5, 6);
    assert_eq!((e.x(), e.y(), e.z()), (4, 5, 6));
    assert!(e.element().is_none());
    let c = SysChange::change_life(0, 0, 0, a, -1);
    let inner = c.element().expect("change keeps the cell");
    assert_eq!(inner.entity(), 11);
    assert_eq!(inner.life(), 3);
}

#[test]
fn apply_changes_replaces_occupancy() {
    let dims = SystemDims::new(3, 3, 3);
    let mut sys = AutoSystem3d::new_from_dims(&dims);
    let a = Automaton::new(1, 2);
    let b = Automaton::new(2, 0);
    let changes = vec![
        SysChange::spawn(0, 0, 0, a),
        SysChange::spawn(1, 1, 1, b),
        SysChange::empty(1, 1, 1),
    ];
    sys.apply_changes(&changes);
    assert_eq!(sys.get_at_xyz((0, 0, 0)), Some(a));
    // the later entry at (1,1,1) wins
    assert!(sys.get_at_xyz((1, 1, 1)).is_none());
    sys.set_xyz((2, 2, 2), b);
    assert_eq!(sys.get_at_xyz((2, 2, 2)), Some(b));
    sys.delete_xyz((2, 2, 2));
    assert!(sys.get_at_xyz((2, 2, 2)).is_none());
    sys.access_xyz((2, 1, 0), Some(a));
    assert_eq!(sys.get_at_xyz((2, 1, 0)), Some(a));
}

#[test]
fn legacy_rules_accessors() {
    let r = Rules::new(4, 7, 5, 6, 3);
    assert_eq!(r.spawn_lower(), 4);
    assert_eq!(r.spawn_upper(), 7);
    assert_eq!(r.despawn_lower(), 5);
    assert_eq!(r.despawn_upper(), 6);
    assert_eq!(r.life(), 3);
    let d = Rules::default();
    assert_eq!(
        (
            d.spawn_lower(),
            d.spawn_upper(),
            d.despawn_lower(),
            d.despawn_upper(),
            d.life()
        ),
        (4, 7, 5, 6, 3)
    );
}
