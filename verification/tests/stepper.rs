use cellauto3d::rules::Rules;
use cellauto3d::system::{AutoSystem3d, Automaton, SystemDims};
use cellauto3d::update::{
    advance_generation, advance_seed_full, commit_generation, commit_seed, count_events,
    evaluate_generation, evaluate_slice, realize_changes, seed_plan_core, seed_plan_full,
    StepEvent,
};
use cellauto3d::{GlobalData, GlobalStatic};

fn full_lattice(dims: &SystemDims, life: isize) -> AutoSystem3d {
    let mut sys = AutoSystem3d::new_from_dims(dims);
    let mut id: u64 = 0;
    for i in 0..dims.x() {
        for j in 0..dims.y() {
            for k in 0..dims.z() {
                sys.set_xyz((i, j, k), Automaton::new(id, life));
                id += 1;
            }
        }
    }
    sys
}

#[test]
fn determinism_partitions_agree() {
    // the merged change set of several partitions equals the change set of a
    // single partition over the same snapshot
    let dims = SystemDims::new(6, 6, 6);
    let mut sys = AutoSystem3d::new_from_dims(&dims);
    // an arbitrary deterministic pattern
    let mut id: u64 = 0;
    for i in 0..6 {
        for j in 0..6 {
            for k in 0..6 {
                if (i * 7 + j * 3 + k) % 4 == 0 {
                    sys.set_xyz((i, j, k), Automaton::new(id, (k % 3) as isize));
                    id += 1;
                }
            }
        }
    }
    let rules = Rules::parse_from_str("6-8/7/4/M").expect("rule must parse");
    let whole = evaluate_slice(&sys, &dims, &rules, true, 0, 6);
    let mut merged = evaluate_slice(&sys, &dims, &rules, true, 0, 2);
    merged.extend(evaluate_slice(&sys, &dims, &rules, true, 2, 4));
    merged.extend(evaluate_slice(&sys, &dims, &rules, true, 4, 6));
    assert_eq!(whole, merged);
    let mut halves = evaluate_slice(&sys, &dims, &rules, true, 0, 3);
    halves.extend(evaluate_slice(&sys, &dims, &rules, true, 3, 6));
    assert_eq!(whole, halves);
    assert!(!whole.is_empty());
}

#[test]
fn population_accounting_and_hysteresis() {
    // population_after = population_before + spawned - despawned, and the
    // growth flag moves only past the two thresholds
    let dims = SystemDims::new(4, 4, 4);
    let glstat = GlobalStatic::new(dims, 2, 10, 1);

    // despawn everything: a full lattice at life 0 under 6-8/7/4/M
    let rules = Rules::parse_from_str("6-8/7/4/M").expect("rule must parse");
    let mut sys = full_lattice(&dims, 0);
    let mut data = GlobalData::new(1);
    data.increase(64);
    let events = evaluate_generation(&sys, &dims, &rules, data.growth());
    let (spawned, despawned) = count_events(&events);
    assert_eq!((spawned, despawned), (0, 64));
    commit_generation(&mut sys, &rules, &mut data, &glstat, &events, &vec![]);
    assert_eq!(data.amount(), 0);
    // 0 < minimum: growth switches on
    assert!(data.growth());
    assert_eq!(data.generation(), 1);

    // between the thresholds the flag keeps its prior value
    let sys2 = AutoSystem3d::new_from_dims(&dims);
    let mut data2 = GlobalData::new(1);
    data2.increase(5);
    data2.unset_growth();
    let mut sys2 = sys2;
    let events2 = evaluate_generation(&sys2, &dims, &rules, data2.growth());
    assert!(events2.is_empty());
    commit_generation(&mut sys2, &rules, &mut data2, &glstat, &events2, &vec![]);
    assert_eq!(data2.amount(), 5);
    assert!(!data2.growth());

    // above the maximum the flag switches off
    let mut sys3 = AutoSystem3d::new_from_dims(&dims);
    let mut data3 = GlobalData::new(1);
    data3.increase(11);
    assert!(data3.growth());
    let events3 = evaluate_generation(&sys3, &dims, &rules, data3.growth());
    commit_generation(&mut sys3, &rules, &mut data3, &glstat, &events3, &vec![]);
    assert_eq!(data3.amount(), 11);
    assert!(!data3.growth());
}

#[test]
fn empty_lattice_generation_is_inert() {
    // a 16^3 all-empty lattice under 6-8/7/4/M: no spawns, no despawns, the
    // lattice unchanged, the generation counter advanced
    let dims = SystemDims::new_cube_clamped(16, 96, 16);
    let glstat = GlobalStatic::new(dims, 102, 1024, 4);
    let rules = Rules::parse_from_str("6-8/7/4/M").expect("rule must parse");
    let mut sys = AutoSystem3d::new_from_dims(&dims);
    let mut data = GlobalData::new(111222333444555);
    assert!(data.growth());
    let r = advance_generation(&mut sys, &rules, &mut data, &glstat, false, &vec![]);
    let events = r.expect("handle count matches: the batch commits");
    assert!(events.is_empty());
    assert_eq!(data.amount(), 0);
    assert_eq!(data.generation(), 1);
    for i in 0..16 {
        for j in 0..16 {
            for k in 0..16 {
                assert!(sys.get_at_xyz((i, j, k)).is_none());
            }
        }
    }
}

#[test]
fn full_lattice_generation_clears_everything() {
    // a fully occupied 16^3 lattice at life 0: every cell has 26 neighbours,
    // outside survive 6-8, so everything is cleared and population hits 0
    let dims = SystemDims::new_cube_clamped(16, 96, 16);
    let glstat = GlobalStatic::new(dims, 0, 4096, 4);
    let rules = Rules::parse_from_str("6-8/7/4/M").expect("rule must parse");
    let mut sys = full_lattice(&dims, 0);
    let mut data = GlobalData::new(1);
    data.increase(4096);
    let r = advance_generation(&mut sys, &rules, &mut data, &glstat, false, &vec![]);
    let events = r.expect("no spawns: empty handle list suffices");
    assert_eq!(events.len(), 4096);
    assert!(events
        .iter()
        .all(|e| matches!(e, StepEvent::Clear { .. })));
    assert_eq!(data.amount(), 0);
    assert_eq!(data.generation(), 1);
    for i in 0..16 {
        for j in 0..16 {
            for k in 0..16 {
                assert!(sys.get_at_xyz((i, j, k)).is_none());
            }
        }
    }
}

#[test]
fn full_lattice_with_life_ages_instead() {
    // with remaining life, despawn-consideration decrements instead of
    // clearing, keeping the handle
    let dims = SystemDims::new(4, 4, 4);
    let glstat = GlobalStatic::new(dims, 0, 1000, 1);
    let rules = Rules::parse_from_str("6-8/7/4/M").expect("rule must parse");
    let mut sys = full_lattice(&dims, 2);
    let before = sys.get_at_xyz((1, 2, 3)).expect("occupied");
    let mut data = GlobalData::new(1);
    data.increase(64);
    let r = advance_generation(&mut sys, &rules, &mut data, &glstat, false, &vec![]);
    let events = r.expect("no spawns");
    assert_eq!(events.len(), 64);
    assert!(events
        .iter()
        .all(|e| matches!(e, StepEvent::Shrink { life: 1, .. })));
    // nothing cleared, nothing spawned
    assert_eq!(data.amount(), 64);
    let after = sys.get_at_xyz((1, 2, 3)).expect("still occupied");
    assert_eq!(after.entity(), before.entity());
    assert_eq!(after.life(), 1);
}

#[test]
fn paused_stepper_is_a_no_op() {
    let dims = SystemDims::new(4, 4, 4);
    let glstat = GlobalStatic::new(dims, 0, 10, 1);
    let rules = Rules::parse_from_str("6-8/7/4/M").expect("rule must parse");
    let mut sys = full_lattice(&dims, 0);
    let mut data = GlobalData::new(9);
    data.increase(64);
    let r = advance_generation(&mut sys, &rules, &mut data, &glstat, true, &vec![]);
    assert!(r.is_none());
    assert_eq!(data.amount(), 64);
    assert_eq!(data.generation(), 0);
    assert!(sys.get_at_xyz((0, 0, 0)).is_some());
}

#[test]
fn spawn_uses_fresh_handles_in_order() {
    // a single cell with exactly 7 Moore neighbours spawns under 6-8/7/4/M
    let dims = SystemDims::new(6, 6, 6);
    let glstat = GlobalStatic::new(dims, 0, 1000, 1);
    let rules = Rules::parse_from_str("6-8/7/4/M").expect("rule must parse");
    let mut sys = AutoSystem3d::new_from_dims(&dims);
    // 7 occupied neighbours of (2,2,2), none adjacent to each other's
    // counts mattering: we only check the spawn at (2,2,2)
    let neigh = [
        (1, 1, 1),
        (1, 1, 2),
        (1, 1, 3),
        (1, 2, 1),
        (1, 2, 2),
        (1, 2, 3),
        (1, 3, 1),
    ];
    for (t, &(i, j, k)) in neigh.iter().enumerate() {
        sys.set_xyz((i, j, k), Automaton::new(t as u64, 5));
    }
    let mut data = GlobalData::new(1);
    data.increase(7);
    let events = evaluate_generation(&sys, &dims, &rules, data.growth());
    let spawns: Vec<&StepEvent> = events
        .iter()
        .filter(|e| matches!(e, StepEvent::Spawn { .. }))
        .collect();
    assert!(spawns
        .iter()
        .any(|e| matches!(e, StepEvent::Spawn { x: 2, y: 2, z: 2 })));
    let (spawned, _despawned) = count_events(&events);
    let handles: Vec<u64> = (1000..1000 + spawned as u64).collect();
    let changes = realize_changes(&events, &handles, rules.life());
    assert_eq!(changes.len(), events.len());
    commit_generation(&mut sys, &rules, &mut data, &glstat, &events, &handles);
    // the spawned cell carries a fresh handle and the rule set's extra life
    let spawned_cell = sys.get_at_xyz((2, 2, 2)).expect("cell spawned");
    assert!(spawned_cell.entity() >= 1000);
    assert_eq!(spawned_cell.life(), 2);
}

#[test]
fn growth_disabled_blocks_spawning() {
    let dims = SystemDims::new(6, 6, 6);
    let rules = Rules::parse_from_str("6-8/7/4/M").expect("rule must parse");
    let mut sys = AutoSystem3d::new_from_dims(&dims);
    let neigh = [
        (1, 1, 1),
        (1, 1, 2),
        (1, 1, 3),
        (1, 2, 1),
        (1, 2, 2),
        (1, 2, 3),
        (1, 3, 1),
    ];
    for (t, &(i, j, k)) in neigh.iter().enumerate() {
        sys.set_xyz((i, j, k), Automaton::new(t as u64, 5));
    }
    let with_growth = evaluate_generation(&sys, &dims, &rules, true);
    let without_growth = evaluate_generation(&sys, &dims, &rules, false);
    assert!(with_growth
        .iter()
        .any(|e| matches!(e, StepEvent::Spawn { .. })));
    assert!(!without_growth
        .iter()
        .any(|e| matches!(e, StepEvent::Spawn { .. })));
}

#[test]
fn seed_full_extremes_and_determinism() {
    let dims = SystemDims::new(4, 4, 4);
    let sys = AutoSystem3d::new_from_dims(&dims);
    // threshold at the top: every draw is below it but u64::MAX itself
    let all = seed_plan_full(&sys, &dims, u64::MAX, 12345);
    // threshold zero: no draw is below it
    let none = seed_plan_full(&sys, &dims, 0, 12345);
    assert!(none.is_empty());
    // overwhelmingly, 64 cells of draws below u64::MAX
    assert_eq!(all.len(), 64);
    // reproducible for a fixed seed, different for another seed
    let again = seed_plan_full(&sys, &dims, u64::MAX / 2, 12345);
    let again2 = seed_plan_full(&sys, &dims, u64::MAX / 2, 12345);
    assert_eq!(again, again2);
    let other = seed_plan_full(&sys, &dims, u64::MAX / 2, 54321);
    assert_ne!(again, other);
    assert!(!again.is_empty());
    assert!(again.len() < 64);
}

#[test]
fn seed_full_skips_occupied_cells() {
    let dims = SystemDims::new(4, 4, 4);
    let mut sys = AutoSystem3d::new_from_dims(&dims);
    sys.set_xyz((2, 2, 2), Automaton::new(5, 0));
    let plan = seed_plan_full(&sys, &dims, u64::MAX, 7);
    assert_eq!(plan.len(), 63);
    assert!(!plan
        .iter()
        .any(|e| matches!(e, StepEvent::Spawn { x: 2, y: 2, z: 2 })));
}

#[test]
fn commit_seed_updates_population_and_seed() {
    let dims = SystemDims::new(4, 4, 4);
    let glstat = GlobalStatic::new(dims, 0, 1000, 1);
    let rules = Rules::parse_from_str("6-8/7/4/M").expect("rule must parse");
    let mut sys = AutoSystem3d::new_from_dims(&dims);
    let mut data = GlobalData::new(42);
    let plan = seed_plan_full(&sys, &dims, u64::MAX, data.seed());
    let n = plan.len();
    let handles: Vec<u64> = (0..n as u64).collect();
    let new_seed = advance_seed_full(data.seed());
    commit_seed(
        &mut sys,
        &mut data,
        &rules,
        &glstat,
        &plan,
        &handles,
        new_seed,
    );
    assert_eq!(data.amount(), n as isize);
    assert_eq!(data.seed(), new_seed);
    assert_eq!(data.generation(), 0);
    assert!(data.growth());
    assert!(sys.get_at_xyz((0, 0, 0)).is_some());
    assert_eq!(sys.get_at_xyz((0, 0, 0)).unwrap().life(), rules.life());
}

#[test]
fn advance_seed_full_moves_the_seed() {
    // the post-fill reseed comes from the stream, not from the input itself
    let s1 = advance_seed_full(111222333444555);
    assert_ne!(s1, 111222333444555);
    // deterministic
    assert_eq!(s1, advance_seed_full(111222333444555));
    assert_ne!(advance_seed_full(1), advance_seed_full(2));
}

#[test]
fn seed_core_restricted_to_center() {
    let dims = SystemDims::new(16, 16, 16);
    let sys = AutoSystem3d::new_from_dims(&dims);
    // size = 16/4 + 1 = 5 per axis, start = 8 - 2 = 6: window [6, 11)
    let (plan, new_seed) = seed_plan_core(&sys, &dims, 4, u64::MAX, 99);
    assert_eq!(plan.len(), 125);
    for e in &plan {
        match e {
            StepEvent::Spawn { x, y, z } => {
                assert!((6..11).contains(x));
                assert!((6..11).contains(y));
                assert!((6..11).contains(z));
            }
            _ => panic!("core fill only spawns"),
        }
    }
    assert_ne!(new_seed, 99);
    // threshold zero spawns nothing but still advances the stream the same way
    let (empty_plan, same_seed) = seed_plan_core(&sys, &dims, 4, 0, 99);
    assert!(empty_plan.is_empty());
    assert_eq!(same_seed, new_seed);
}

#[test]
fn global_state_accessors() {
    let mut d = GlobalData::new(7);
    assert_eq!(d.seed(), 7);
    assert_eq!(d.amount(), 0);
    assert_eq!(d.generation(), 0);
    assert!(d.growth());
    d.set_seed(8);
    assert_eq!(d.seed(), 8);
    d.increase(10);
    d.decrease(3);
    assert_eq!(d.amount(), 7);
    d.unset_growth();
    assert!(!d.growth());
    d.set_growth();
    assert!(d.growth());
    d.advance_gen();
    d.advance_gen();
    assert_eq!(d.generation(), 2);

    let dims = SystemDims::new(8, 8, 8);
    let g = GlobalStatic::new(dims, 12, 128, 4);
    assert_eq!(g.dims(), dims);
    assert_eq!(g.minimum(), 12);
    assert_eq!(g.maximum(), 128);
    assert_eq!(g.max_amount(), 512);
    assert_eq!(g.max_amount_per_thread(), 128);
}
