use vstd::prelude::*;

use rand::{RngCore, SeedableRng};

use crate::rules::{in_ranges, Neighbourhood, Rules};
use crate::system::{
    change_in_bounds, dims_ok, lemma_automaton_spec_new, lemma_syschange_spec_new, moore_offsets,
    spec_apply, spec_count_neighbours, von_neumann_offsets, AutoSystem3d, Automaton, SysChange,
    SystemDims,
};
use crate::{GlobalData, GlobalStatic};

verus! {

broadcast use {lemma_automaton_spec_new, lemma_syschange_spec_new};

/// The i-th output of the xorwow64 stream obtained by seeding
/// `xorwowgen::xorwow64::XorA` from the given value: a pure function of the
/// seed, identical on every machine and in every process.
pub uninterp spec fn xorwow_out(seed: u64, i: int) -> u64;

/// Relies on xorwowgen's `xorwow64::XorA`, seeded through rand's
/// `SeedableRng::seed_from_u64`: its `next_u64` stream is computed from the
/// seed alone, so equal seeds give equal streams.
#[verifier::external_body]
fn xorwow_draws(seed: u64, count: usize) -> (r: Vec<u64>)
    ensures
        r@.len() == count,
        forall|i: int| 0 <= i < count ==> #[trigger] r@[i] == xorwow_out(seed, i),
{
    let mut rng = xorwowgen::xorwow64::XorA::seed_from_u64(seed);
    let mut r = Vec::with_capacity(count);
    for _ in 0..count {
        r.push(rng.next_u64());
    }
    r
}

/// One cell's pending outcome of a generation pass, doubling as the visual
/// effect owed to the rendering collaborator: a cleared cell's visual is
/// despawned, an aged cell's visual shrinks, a spawned cell needs a fresh
/// visual.
#[derive(Clone, Copy, Debug, PartialEq, Eq, Structural)]
pub enum StepEvent {
    /// The cell at (x, y, z) is removed; `entity` is its visual handle.
    Clear { x: usize, y: usize, z: usize, entity: u64 },
    /// The cell at (x, y, z) ages: `life` is what remains after this tick.
    Shrink { x: usize, y: usize, z: usize, entity: u64, life: isize },
    /// An empty cell at (x, y, z) becomes occupied.
    Spawn { x: usize, y: usize, z: usize },
}

/// The neighbour count of a cell under the rule set's configured topology.
pub open spec fn spec_neighbour_count(
    lat: Seq<Seq<Seq<Option<Automaton>>>>,
    dims: SystemDims,
    rules: Rules,
    x: int,
    y: int,
    z: int,
) -> nat {
    match rules.spec_neighbourhood() {
        Neighbourhood::Moore => spec_count_neighbours(lat, dims, x, y, z, moore_offsets()),
        Neighbourhood::VonNeumann => spec_count_neighbours(
            lat,
            dims,
            x,
            y,
            z,
            von_neumann_offsets(),
        ),
    }
}

/// What one generation does to one cell, read against the pre-tick snapshot.
/// Despawn-consideration always comes first; an occupied cell out of every
/// survive range is cleared at zero life and ages otherwise. Only a surviving
/// configuration may spawn, and only into an empty cell while growth is on.
pub open spec fn spec_cell_outcome(
    lat: Seq<Seq<Seq<Option<Automaton>>>>,
    dims: SystemDims,
    rules: Rules,
    growth: bool,
    x: usize,
    y: usize,
    z: usize,
) -> Option<StepEvent> {
    let n = spec_neighbour_count(lat, dims, rules, x as int, y as int, z as int) as usize;
    if !in_ranges(n, rules.spec_survive()) {
        match lat[x as int][y as int][z as int] {
            Some(a) => if a.spec_life() <= 0 {
                Some(StepEvent::Clear { x, y, z, entity: a.spec_entity() })
            } else {
                Some(
                    StepEvent::Shrink {
                        x,
                        y,
                        z,
                        entity: a.spec_entity(),
                        life: (a.spec_life() - 1) as isize,
                    },
                )
            },
            None => None,
        }
    } else if in_ranges(n, rules.spec_spawn()) && growth && lat[x as int][y as int][z as int]
        is None {
        Some(StepEvent::Spawn { x, y, z })
    } else {
        None
    }
}

pub open spec fn opt_seq(e: Option<StepEvent>) -> Seq<StepEvent> {
    match e {
        Some(ev) => seq![ev],
        None => Seq::<StepEvent>::empty(),
    }
}

/// The outcomes of row (x, y), for cells z in [0, zpos), in z order.
pub open spec fn spec_eval_row(
    lat: Seq<Seq<Seq<Option<Automaton>>>>,
    dims: SystemDims,
    rules: Rules,
    growth: bool,
    x: usize,
    y: usize,
    zpos: int,
) -> Seq<StepEvent>
    decreases zpos,
{
    if zpos <= 0 {
        Seq::<StepEvent>::empty()
    } else {
        spec_eval_row(lat, dims, rules, growth, x, y, zpos - 1) + opt_seq(
            spec_cell_outcome(lat, dims, rules, growth, x, y, (zpos - 1) as usize),
        )
    }
}

/// The outcomes of plane x, for rows y in [0, ypos), in y-then-z order.
pub open spec fn spec_eval_plane(
    lat: Seq<Seq<Seq<Option<Automaton>>>>,
    dims: SystemDims,
    rules: Rules,
    growth: bool,
    x: usize,
    ypos: int,
) -> Seq<StepEvent>
    decreases ypos,
{
    if ypos <= 0 {
        Seq::<StepEvent>::empty()
    } else {
        spec_eval_plane(lat, dims, rules, growth, x, ypos - 1) + spec_eval_row(
            lat,
            dims,
            rules,
            growth,
            x,
            (ypos - 1) as usize,
            dims.spec_z() as int,
        )
    }
}

/// The outcomes of the slab of planes x in [x0, x1), in x-then-y-then-z
/// order: the change set of one evaluation pass over that slab, a function of
/// the snapshot and the rule set alone.
pub open spec fn spec_eval_slab(
    lat: Seq<Seq<Seq<Option<Automaton>>>>,
    dims: SystemDims,
    rules: Rules,
    growth: bool,
    x0: int,
    x1: int,
) -> Seq<StepEvent>
    decreases x1 - x0,
{
    if x1 <= x0 {
        Seq::<StepEvent>::empty()
    } else {
        spec_eval_slab(lat, dims, rules, growth, x0, x1 - 1) + spec_eval_plane(
            lat,
            dims,
            rules,
            growth,
            (x1 - 1) as usize,
            dims.spec_y() as int,
        )
    }
}

/// Partitioning is invisible in the outcome: evaluating two adjacent slabs
/// against the same snapshot and concatenating gives exactly the evaluation
/// of their union, so the change set of a pass does not depend on how the
/// lattice was split among workers.
pub proof fn lemma_eval_slab_concat(
    lat: Seq<Seq<Seq<Option<Automaton>>>>,
    dims: SystemDims,
    rules: Rules,
    growth: bool,
    a: int,
    b: int,
    c: int,
)
    requires
        a <= b <= c,
    ensures
        spec_eval_slab(lat, dims, rules, growth, a, c) == spec_eval_slab(
            lat,
            dims,
            rules,
            growth,
            a,
            b,
        ) + spec_eval_slab(lat, dims, rules, growth, b, c),
    decreases c - b,
{
    if b == c {
        assert(spec_eval_slab(lat, dims, rules, growth, a, c) =~= spec_eval_slab(
            lat,
            dims,
            rules,
            growth,
            a,
            b,
        ) + spec_eval_slab(lat, dims, rules, growth, b, c));
    } else {
        lemma_eval_slab_concat(lat, dims, rules, growth, a, b, c - 1);
        assert(spec_eval_slab(lat, dims, rules, growth, a, c) =~= spec_eval_slab(
            lat,
            dims,
            rules,
            growth,
            a,
            b,
        ) + spec_eval_slab(lat, dims, rules, growth, b, c));
    }
}

/// Evaluates every cell of the planes x in [x0, x1) against the snapshot,
/// producing that slab's pending changes; one such call per partition.
pub fn evaluate_slice(
    sys3d: &AutoSystem3d,
    dims: &SystemDims,
    rules: &Rules,
    growth: bool,
    x0: usize,
    x1: usize,
) -> (r: Vec<StepEvent>)
    requires
        sys3d.wf(*dims),
        dims_ok(*dims),
        x0 <= x1 <= dims.spec_x(),
    ensures
        r@ == spec_eval_slab(sys3d@, *dims, *rules, growth, x0 as int, x1 as int),
{
    let mut r: Vec<StepEvent> = Vec::new();
    let mut i: usize = x0;
    proof {
        assert(r@ =~= spec_eval_slab(sys3d@, *dims, *rules, growth, x0 as int, x0 as int));
    }
    while i < x1
        invariant
            x0 <= i <= x1 <= dims.spec_x(),
            sys3d.wf(*dims),
            dims_ok(*dims),
            r@ == spec_eval_slab(sys3d@, *dims, *rules, growth, x0 as int, i as int),
        decreases x1 - i,
    {
        let mut j: usize = 0;
        proof {
            assert(r@ + Seq::<StepEvent>::empty() =~= r@);
        }
        while j < dims.y()
            invariant
                j <= dims.spec_y(),
                i < dims.spec_x(),
                sys3d.wf(*dims),
                dims_ok(*dims),
                r@ == spec_eval_slab(sys3d@, *dims, *rules, growth, x0 as int, i as int)
                    + spec_eval_plane(sys3d@, *dims, *rules, growth, i, j as int),
            decreases dims.spec_y() - j,
        {
            let mut k: usize = 0;
            proof {
                assert(r@ + Seq::<StepEvent>::empty() =~= r@);
            }
            while k < dims.z()
                invariant
                    k <= dims.spec_z(),
                    j < dims.spec_y(),
                    i < dims.spec_x(),
                    sys3d.wf(*dims),
                    dims_ok(*dims),
                    r@ == spec_eval_slab(sys3d@, *dims, *rules, growth, x0 as int, i as int)
                        + spec_eval_plane(sys3d@, *dims, *rules, growth, i, j as int)
                        + spec_eval_row(sys3d@, *dims, *rules, growth, i, j, k as int),
                decreases dims.spec_z() - k,
            {
                let uxyz = (i, j, k);
                let ghost base = r@;
                let n = match rules.neighbourhood() {
                    Neighbourhood::Moore => sys3d.count_neighbours_moore(uxyz, dims),
                    Neighbourhood::VonNeumann => sys3d.count_neighbours_von_neumann(uxyz, dims),
                };
                let ghost outcome = spec_cell_outcome(sys3d@, *dims, *rules, growth, i, j, k);
                if rules.check_despawn(n) {
                    if let Some(at) = sys3d.get_at_xyz(uxyz) {
                        if at.life() <= 0 {
                            r.push(StepEvent::Clear { x: i, y: j, z: k, entity: at.entity() });
                        } else {
                            r.push(
                                StepEvent::Shrink {
                                    x: i,
                                    y: j,
                                    z: k,
                                    entity: at.entity(),
                                    life: at.life() - 1,
                                },
                            );
                        }
                    }
                } else if rules.check_spawn(n) && growth && sys3d.get_at_xyz(uxyz).is_none() {
                    r.push(StepEvent::Spawn { x: i, y: j, z: k });
                }
                proof {
                    assert(r@ =~= base + opt_seq(outcome));
                    assert(r@ =~= spec_eval_slab(sys3d@, *dims, *rules, growth, x0 as int, i as int)
                        + spec_eval_plane(sys3d@, *dims, *rules, growth, i, j as int)
                        + spec_eval_row(sys3d@, *dims, *rules, growth, i, j, k + 1));
                }
                k = k + 1;
            }
            proof {
                assert(r@ =~= spec_eval_slab(sys3d@, *dims, *rules, growth, x0 as int, i as int)
                    + spec_eval_plane(sys3d@, *dims, *rules, growth, i, j + 1));
            }
            j = j + 1;
        }
        proof {
            assert(r@ =~= spec_eval_slab(sys3d@, *dims, *rules, growth, x0 as int, i + 1));
        }
        i = i + 1;
    }
    r
}

/// How many of the events spawn a new cell.
pub open spec fn spec_spawn_count(events: Seq<StepEvent>) -> int
    decreases events.len(),
{
    if events.len() == 0 {
        0
    } else {
        spec_spawn_count(events.drop_last()) + if events.last() is Spawn {
            1int
        } else {
            0int
        }
    }
}

/// How many of the events clear an existing cell.
pub open spec fn spec_clear_count(events: Seq<StepEvent>) -> int
    decreases events.len(),
{
    if events.len() == 0 {
        0
    } else {
        spec_clear_count(events.drop_last()) + if events.last() is Clear {
            1int
        } else {
            0int
        }
    }
}

pub proof fn lemma_counts_bounded(events: Seq<StepEvent>)
    ensures
        0 <= spec_spawn_count(events) <= events.len(),
        0 <= spec_clear_count(events) <= events.len(),
    decreases events.len(),
{
    if events.len() > 0 {
        lemma_counts_bounded(events.drop_last());
    }
}

/// A prefix never holds more spawns than the whole.
proof fn lemma_spawn_count_take_le(events: Seq<StepEvent>, t: int)
    requires
        0 <= t <= events.len(),
    ensures
        spec_spawn_count(events.take(t)) <= spec_spawn_count(events),
    decreases events.len() - t,
{
    if t < events.len() {
        assert(events.take(t + 1).drop_last() =~= events.take(t));
        assert(events.take(t + 1).last() == events[t]);
        lemma_spawn_count_take_le(events, t + 1);
        assert(events.take(events.len() as int) =~= events);
    } else {
        assert(events.take(t) =~= events);
    }
}

/// Counts the spawn and clear events of one batch.
pub fn count_events(events: &Vec<StepEvent>) -> (r: (usize, usize))
    ensures
        r.0 == spec_spawn_count(events@),
        r.1 == spec_clear_count(events@),
{
    let mut spawned: usize = 0;
    let mut despawned: usize = 0;
    let mut t: usize = 0;
    proof {
        assert(events@.take(0) =~= Seq::<StepEvent>::empty());
    }
    while t < events.len()
        invariant
            t <= events@.len(),
            spawned == spec_spawn_count(events@.take(t as int)),
            despawned == spec_clear_count(events@.take(t as int)),
            spawned <= t,
            despawned <= t,
        decreases events@.len() - t,
    {
        proof {
            assert(events@.take(t + 1).drop_last() =~= events@.take(t as int));
            assert(events@.take(t + 1).last() == events@[t as int]);
            lemma_counts_bounded(events@.take(t as int));
        }
        match events[t] {
            StepEvent::Spawn { .. } => {
                spawned = spawned + 1;
            },
            StepEvent::Clear { .. } => {
                despawned = despawned + 1;
            },
            StepEvent::Shrink { .. } => {},
        }
        t = t + 1;
    }
    proof {
        assert(events@.take(events@.len() as int) =~= events@);
    }
    (spawned, despawned)
}

/// The lattice mutation one event stands for, once the k-th spawn has been
/// given the k-th fresh handle and a spawned cell the rule set's extra life.
pub open spec fn spec_event_change(
    e: StepEvent,
    handles: Seq<u64>,
    spawn_idx: int,
    life: isize,
) -> SysChange {
    match e {
        StepEvent::Clear { x, y, z, .. } => SysChange::spec_new(
            x,
            y,
            z,
            Option::<Automaton>::None,
        ),
        StepEvent::Shrink { x, y, z, entity, life: l } => SysChange::spec_new(
            x,
            y,
            z,
            Some(Automaton::spec_new(entity, l)),
        ),
        StepEvent::Spawn { x, y, z } => SysChange::spec_new(
            x,
            y,
            z,
            Some(Automaton::spec_new(handles[spawn_idx], life)),
        ),
    }
}

/// The whole batch as lattice mutations: spawn events consume the fresh
/// handles in order.
pub open spec fn spec_realize(
    events: Seq<StepEvent>,
    handles: Seq<u64>,
    life: isize,
) -> Seq<SysChange>
    decreases events.len(),
{
    if events.len() == 0 {
        Seq::<SysChange>::empty()
    } else {
        spec_realize(events.drop_last(), handles, life).push(
            spec_event_change(
                events.last(),
                handles,
                spec_spawn_count(events.drop_last()),
                life,
            ),
        )
    }
}

/// Whether an event addresses an in-bounds coordinate.
pub open spec fn event_in_bounds(e: StepEvent, dims: SystemDims) -> bool {
    match e {
        StepEvent::Clear { x, y, z, .. } => x < dims.spec_x() && y < dims.spec_y() && z
            < dims.spec_z(),
        StepEvent::Shrink { x, y, z, .. } => x < dims.spec_x() && y < dims.spec_y() && z
            < dims.spec_z(),
        StepEvent::Spawn { x, y, z } => x < dims.spec_x() && y < dims.spec_y() && z
            < dims.spec_z(),
    }
}

pub open spec fn events_in_bounds(events: Seq<StepEvent>, dims: SystemDims) -> bool {
    forall|t: int| 0 <= t < events.len() ==> event_in_bounds(#[trigger] events[t], dims)
}

/// In-bounds events realize to in-bounds changes.
pub proof fn lemma_realize_in_bounds(
    events: Seq<StepEvent>,
    handles: Seq<u64>,
    life: isize,
    dims: SystemDims,
)
    requires
        events_in_bounds(events, dims),
    ensures
        spec_realize(events, handles, life).len() == events.len(),
        forall|t: int|
            0 <= t < events.len() ==> change_in_bounds(
                #[trigger] spec_realize(events, handles, life)[t],
                dims,
            ),
    decreases events.len(),
{
    if events.len() > 0 {
        assert(events_in_bounds(events.drop_last(), dims));
        lemma_realize_in_bounds(events.drop_last(), handles, life, dims);
    }
}

/// Attaches the fresh visual handles to the batch: the k-th spawn event
/// receives the k-th handle and the rule set's extra life, clears and ages
/// keep the handle they already carry.
pub fn realize_changes(events: &Vec<StepEvent>, handles: &Vec<u64>, life: isize) -> (r: Vec<
    SysChange,
>)
    requires
        handles@.len() == spec_spawn_count(events@),
    ensures
        r@ == spec_realize(events@, handles@, life),
{
    let mut r: Vec<SysChange> = Vec::new();
    let mut spawn_idx: usize = 0;
    let mut t: usize = 0;
    proof {
        assert(events@.take(0) =~= Seq::<StepEvent>::empty());
        assert(r@ =~= spec_realize(events@.take(0), handles@, life));
    }
    while t < events.len()
        invariant
            t <= events@.len(),
            handles@.len() == spec_spawn_count(events@),
            spawn_idx == spec_spawn_count(events@.take(t as int)),
            r@ == spec_realize(events@.take(t as int), handles@, life),
            spawn_idx <= t,
        decreases events@.len() - t,
    {
        proof {
            assert(events@.take(t + 1).drop_last() =~= events@.take(t as int));
            assert(events@.take(t + 1).last() == events@[t as int]);
            lemma_spawn_count_take_le(events@, t + 1);
            lemma_counts_bounded(events@.take(t as int));
        }
        match events[t] {
            StepEvent::Clear { x, y, z, .. } => {
                r.push(SysChange::empty(x, y, z));
            },
            StepEvent::Shrink { x, y, z, entity, life: l } => {
                r.push(SysChange::spawn(x, y, z, Automaton::new(entity, l)));
            },
            StepEvent::Spawn { x, y, z } => {
                let h = handles[spawn_idx];
                r.push(SysChange::spawn(x, y, z, Automaton::new(h, life)));
                spawn_idx = spawn_idx + 1;
            },
        }
        t = t + 1;
    }
    proof {
        assert(events@.take(events@.len() as int) =~= events@);
    }
    r
}

/// A row's events: at most one per cell, all at in-bounds coordinates.
proof fn lemma_eval_row_props(
    lat: Seq<Seq<Seq<Option<Automaton>>>>,
    dims: SystemDims,
    rules: Rules,
    growth: bool,
    x: usize,
    y: usize,
    zpos: int,
)
    requires
        x < dims.spec_x(),
        y < dims.spec_y(),
        0 <= zpos <= dims.spec_z(),
    ensures
        spec_eval_row(lat, dims, rules, growth, x, y, zpos).len() <= zpos,
        events_in_bounds(spec_eval_row(lat, dims, rules, growth, x, y, zpos), dims),
    decreases zpos,
{
    if zpos > 0 {
        lemma_eval_row_props(lat, dims, rules, growth, x, y, zpos - 1);
        let prev = spec_eval_row(lat, dims, rules, growth, x, y, zpos - 1);
        let cur = spec_eval_row(lat, dims, rules, growth, x, y, zpos);
        assert forall|t: int| 0 <= t < cur.len() implies event_in_bounds(
            #[trigger] cur[t],
            dims,
        ) by {
            if t < prev.len() {
                assert(cur[t] == prev[t]);
            }
        }
    }
}

/// A plane's events: at most one per cell, all at in-bounds coordinates.
proof fn lemma_eval_plane_props(
    lat: Seq<Seq<Seq<Option<Automaton>>>>,
    dims: SystemDims,
    rules: Rules,
    growth: bool,
    x: usize,
    ypos: int,
)
    requires
        x < dims.spec_x(),
        0 <= ypos <= dims.spec_y(),
    ensures
        spec_eval_plane(lat, dims, rules, growth, x, ypos).len() <= ypos * dims.spec_z(),
        events_in_bounds(spec_eval_plane(lat, dims, rules, growth, x, ypos), dims),
    decreases ypos,
{
    if ypos > 0 {
        lemma_eval_plane_props(lat, dims, rules, growth, x, ypos - 1);
        lemma_eval_row_props(lat, dims, rules, growth, x, (ypos - 1) as usize, dims.spec_z() as int);
        let prev = spec_eval_plane(lat, dims, rules, growth, x, ypos - 1);
        let row = spec_eval_row(
            lat,
            dims,
            rules,
            growth,
            x,
            (ypos - 1) as usize,
            dims.spec_z() as int,
        );
        let cur = spec_eval_plane(lat, dims, rules, growth, x, ypos);
        assert((ypos - 1) * dims.spec_z() + dims.spec_z() == ypos * dims.spec_z())
            by (nonlinear_arith);
        assert forall|t: int| 0 <= t < cur.len() implies event_in_bounds(
            #[trigger] cur[t],
            dims,
        ) by {
            if t < prev.len() {
                assert(cur[t] == prev[t]);
            } else {
                assert(cur[t] == row[t - prev.len()]);
            }
        }
    }
}

/// The coordinate an event addresses.
pub open spec fn event_coord(e: StepEvent) -> (usize, usize, usize) {
    match e {
        StepEvent::Clear { x, y, z, .. } => (x, y, z),
        StepEvent::Shrink { x, y, z, .. } => (x, y, z),
        StepEvent::Spawn { x, y, z } => (x, y, z),
    }
}

proof fn lemma_eval_row_coords(
    lat: Seq<Seq<Seq<Option<Automaton>>>>,
    dims: SystemDims,
    rules: Rules,
    growth: bool,
    x: usize,
    y: usize,
    zpos: int,
)
    requires
        0 <= zpos <= usize::MAX,
    ensures
        forall|t: int|
            0 <= t < spec_eval_row(lat, dims, rules, growth, x, y, zpos).len()
                ==> event_coord(#[trigger] spec_eval_row(lat, dims, rules, growth, x, y, zpos)[t]).0
                == x && event_coord(spec_eval_row(lat, dims, rules, growth, x, y, zpos)[t]).1 == y
                && event_coord(spec_eval_row(lat, dims, rules, growth, x, y, zpos)[t]).2 < zpos,
        forall|s: int, t: int|
            0 <= s < t < spec_eval_row(lat, dims, rules, growth, x, y, zpos).len() ==> event_coord(
                #[trigger] spec_eval_row(lat, dims, rules, growth, x, y, zpos)[s],
            ) != event_coord(#[trigger] spec_eval_row(lat, dims, rules, growth, x, y, zpos)[t]),
    decreases zpos,
{
    if zpos > 0 {
        lemma_eval_row_coords(lat, dims, rules, growth, x, y, zpos - 1);
        let prev = spec_eval_row(lat, dims, rules, growth, x, y, zpos - 1);
        let cur = spec_eval_row(lat, dims, rules, growth, x, y, zpos);
        assert forall|t: int| 0 <= t < cur.len() implies event_coord(#[trigger] cur[t]).0 == x
            && event_coord(cur[t]).1 == y && event_coord(cur[t]).2 < zpos by {
            if t < prev.len() {
                assert(cur[t] == prev[t]);
            }
        }
        assert forall|s: int, t: int| 0 <= s < t < cur.len() implies event_coord(
            #[trigger] cur[s],
        ) != event_coord(#[trigger] cur[t]) by {
            if t < prev.len() {
                assert(cur[s] == prev[s] && cur[t] == prev[t]);
            } else {
                // the new event sits at z = zpos - 1; every earlier one is lower
                assert(cur[s] == prev[s]);
                assert(event_coord(cur[s]).2 < zpos - 1);
                assert(event_coord(cur[t]).2 == zpos - 1);
            }
        }
    }
}

proof fn lemma_eval_plane_coords(
    lat: Seq<Seq<Seq<Option<Automaton>>>>,
    dims: SystemDims,
    rules: Rules,
    growth: bool,
    x: usize,
    ypos: int,
)
    requires
        0 <= ypos <= usize::MAX,
    ensures
        forall|t: int|
            0 <= t < spec_eval_plane(lat, dims, rules, growth, x, ypos).len()
                ==> event_coord(#[trigger] spec_eval_plane(lat, dims, rules, growth, x, ypos)[t]).0
                == x && event_coord(spec_eval_plane(lat, dims, rules, growth, x, ypos)[t]).1
                < ypos,
        forall|s: int, t: int|
            0 <= s < t < spec_eval_plane(lat, dims, rules, growth, x, ypos).len() ==> event_coord(
                #[trigger] spec_eval_plane(lat, dims, rules, growth, x, ypos)[s],
            ) != event_coord(#[trigger] spec_eval_plane(lat, dims, rules, growth, x, ypos)[t]),
    decreases ypos,
{
    if ypos > 0 {
        lemma_eval_plane_coords(lat, dims, rules, growth, x, ypos - 1);
        lemma_eval_row_coords(lat, dims, rules, growth, x, (ypos - 1) as usize, dims.spec_z() as int);
        let prev = spec_eval_plane(lat, dims, rules, growth, x, ypos - 1);
        let row = spec_eval_row(
            lat,
            dims,
            rules,
            growth,
            x,
            (ypos - 1) as usize,
            dims.spec_z() as int,
        );
        let cur = spec_eval_plane(lat, dims, rules, growth, x, ypos);
        assert forall|t: int| 0 <= t < cur.len() implies event_coord(#[trigger] cur[t]).0 == x
            && event_coord(cur[t]).1 < ypos by {
            if t < prev.len() {
                assert(cur[t] == prev[t]);
            } else {
                assert(cur[t] == row[t - prev.len()]);
            }
        }
        assert forall|s: int, t: int| 0 <= s < t < cur.len() implies event_coord(
            #[trigger] cur[s],
        ) != event_coord(#[trigger] cur[t]) by {
            if t < prev.len() {
                assert(cur[s] == prev[s] && cur[t] == prev[t]);
            } else if s >= prev.len() {
                assert(cur[s] == row[s - prev.len()] && cur[t] == row[t - prev.len()]);
            } else {
                // earlier rows have a smaller y than the new row
                assert(cur[s] == prev[s] && cur[t] == row[t - prev.len()]);
                assert(event_coord(cur[s]).1 < ypos - 1);
                assert(event_coord(cur[t]).1 == ypos - 1);
            }
        }
    }
}

/// No coordinate is visited twice in one evaluation pass: any two events of a
/// slab's change set address different cells, which is why the merged batch
/// can be applied in any order.
pub proof fn lemma_eval_coords_distinct(
    lat: Seq<Seq<Seq<Option<Automaton>>>>,
    dims: SystemDims,
    rules: Rules,
    growth: bool,
    x0: int,
    x1: int,
)
    requires
        0 <= x0 <= x1 <= usize::MAX,
    ensures
        forall|t: int|
            0 <= t < spec_eval_slab(lat, dims, rules, growth, x0, x1).len() ==> x0 <= event_coord(
                #[trigger] spec_eval_slab(lat, dims, rules, growth, x0, x1)[t],
            ).0 < x1,
        forall|s: int, t: int|
            0 <= s < t < spec_eval_slab(lat, dims, rules, growth, x0, x1).len() ==> event_coord(
                #[trigger] spec_eval_slab(lat, dims, rules, growth, x0, x1)[s],
            ) != event_coord(#[trigger] spec_eval_slab(lat, dims, rules, growth, x0, x1)[t]),
    decreases x1 - x0,
{
    if x1 > x0 {
        lemma_eval_coords_distinct(lat, dims, rules, growth, x0, x1 - 1);
        lemma_eval_plane_coords(lat, dims, rules, growth, (x1 - 1) as usize, dims.spec_y() as int);
        let prev = spec_eval_slab(lat, dims, rules, growth, x0, x1 - 1);
        let plane = spec_eval_plane(
            lat,
            dims,
            rules,
            growth,
            (x1 - 1) as usize,
            dims.spec_y() as int,
        );
        let cur = spec_eval_slab(lat, dims, rules, growth, x0, x1);
        assert forall|t: int| 0 <= t < cur.len() implies x0 <= event_coord(
            #[trigger] cur[t],
        ).0 < x1 by {
            if t < prev.len() {
                assert(cur[t] == prev[t]);
            } else {
                assert(cur[t] == plane[t - prev.len()]);
            }
        }
        assert forall|s: int, t: int| 0 <= s < t < cur.len() implies event_coord(
            #[trigger] cur[s],
        ) != event_coord(#[trigger] cur[t]) by {
            if t < prev.len() {
                assert(cur[s] == prev[s] && cur[t] == prev[t]);
            } else if s >= prev.len() {
                assert(cur[s] == plane[s - prev.len()] && cur[t] == plane[t - prev.len()]);
            } else {
                // earlier planes have a smaller x than the new plane
                assert(cur[s] == prev[s] && cur[t] == plane[t - prev.len()]);
                assert(event_coord(cur[s]).0 < x1 - 1);
                assert(event_coord(cur[t]).0 == x1 - 1);
            }
        }
    }
}

/// A slab's events: at most one per cell, all at in-bounds coordinates.
pub proof fn lemma_eval_slab_props(
    lat: Seq<Seq<Seq<Option<Automaton>>>>,
    dims: SystemDims,
    rules: Rules,
    growth: bool,
    x0: int,
    x1: int,
)
    requires
        0 <= x0 <= x1 <= dims.spec_x(),
    ensures
        spec_eval_slab(lat, dims, rules, growth, x0, x1).len() <= (x1 - x0) * dims.spec_y()
            * dims.spec_z(),
        events_in_bounds(spec_eval_slab(lat, dims, rules, growth, x0, x1), dims),
    decreases x1 - x0,
{
    if x1 > x0 {
        lemma_eval_slab_props(lat, dims, rules, growth, x0, x1 - 1);
        lemma_eval_plane_props(lat, dims, rules, growth, (x1 - 1) as usize, dims.spec_y() as int);
        let prev = spec_eval_slab(lat, dims, rules, growth, x0, x1 - 1);
        let plane = spec_eval_plane(
            lat,
            dims,
            rules,
            growth,
            (x1 - 1) as usize,
            dims.spec_y() as int,
        );
        let cur = spec_eval_slab(lat, dims, rules, growth, x0, x1);
        assert((x1 - 1 - x0) * dims.spec_y() * dims.spec_z() + dims.spec_y() * dims.spec_z() == (x1
            - x0) * dims.spec_y() * dims.spec_z()) by (nonlinear_arith);
        assert forall|t: int| 0 <= t < cur.len() implies event_in_bounds(
            #[trigger] cur[t],
            dims,
        ) by {
            if t < prev.len() {
                assert(cur[t] == prev[t]);
            } else {
                assert(cur[t] == plane[t - prev.len()]);
            }
        }
    }
}

/// Evaluates the whole lattice against the snapshot: phase one of a
/// generation, with a single partition.
pub fn evaluate_generation(
    sys3d: &AutoSystem3d,
    dims: &SystemDims,
    rules: &Rules,
    growth: bool,
) -> (r: Vec<StepEvent>)
    requires
        sys3d.wf(*dims),
        dims_ok(*dims),
    ensures
        r@ == spec_eval_slab(sys3d@, *dims, *rules, growth, 0, dims.spec_x() as int),
{
    evaluate_slice(sys3d, dims, rules, growth, 0, dims.x())
}

/// Phases two and three of a generation: applies the batch to the lattice,
/// adds the spawn/despawn balance to the population, moves the growth
/// hysteresis, and advances the generation counter. The k-th fresh visual
/// handle goes to the batch's k-th spawn.
pub fn commit_generation(
    sys3d: &mut AutoSystem3d,
    rules: &Rules,
    global_data: &mut GlobalData,
    glstat: &GlobalStatic,
    events: &Vec<StepEvent>,
    spawn_handles: &Vec<u64>,
)
    requires
        old(sys3d).wf(glstat.spec_dims()),
        dims_ok(glstat.spec_dims()),
        events_in_bounds(events@, glstat.spec_dims()),
        spawn_handles@.len() == spec_spawn_count(events@),
        events@.len() <= isize::MAX,
        isize::MIN <= old(global_data).spec_amount() + spec_spawn_count(events@)
            - spec_clear_count(events@) <= isize::MAX,
        old(global_data).spec_generation() < usize::MAX,
    ensures
        final(sys3d)@ == spec_apply(
            old(sys3d)@,
            spec_realize(events@, spawn_handles@, rules.spec_life()),
        ),
        final(sys3d).wf(glstat.spec_dims()),
        final(global_data).spec_amount() == old(global_data).spec_amount() + spec_spawn_count(
            events@,
        ) - spec_clear_count(events@),
        final(global_data).spec_growth() == ({
            let a = old(global_data).spec_amount() + spec_spawn_count(events@) - spec_clear_count(
                events@,
            );
            if a > glstat.spec_maximum() {
                false
            } else if a < glstat.spec_minimum() {
                true
            } else {
                old(global_data).spec_growth()
            }
        }),
        final(global_data).spec_generation() == old(global_data).spec_generation() + 1,
        final(global_data).spec_seed() == old(global_data).spec_seed(),
{
    let ghost dims = glstat.spec_dims();
    let changes = realize_changes(events, spawn_handles, rules.life());
    proof {
        lemma_realize_in_bounds(events@, spawn_handles@, rules.spec_life(), dims);
        assert(old(sys3d).wf(dims) && forall|t: int|
            0 <= t < changes@.len() ==> change_in_bounds(#[trigger] changes@[t], dims));
        crate::system::lemma_spec_apply_wf(old(sys3d)@, dims, changes@);
    }
    sys3d.apply_changes(&changes);
    proof {
        lemma_counts_bounded(events@);
    }
    let (spawned, despawned) = count_events(events);
    global_data.increase(spawned as isize - despawned as isize);
    if global_data.amount() > glstat.maximum() {
        global_data.unset_growth();
    } else if global_data.amount() < glstat.minimum() {
        global_data.set_growth();
    }
    global_data.advance_gen();
}

/// One whole generation: a no-op while paused; otherwise the lattice is
/// evaluated against its pre-tick snapshot and, when the caller supplied
/// exactly one fresh handle per spawn, the batch is committed and returned.
/// With a wrong handle count nothing changes and nothing is returned.
pub fn advance_generation(
    sys3d: &mut AutoSystem3d,
    rules: &Rules,
    global_data: &mut GlobalData,
    glstat: &GlobalStatic,
    paused: bool,
    spawn_handles: &Vec<u64>,
) -> (r: Option<Vec<StepEvent>>)
    requires
        old(sys3d).wf(glstat.spec_dims()),
        dims_ok(glstat.spec_dims()),
        glstat.spec_dims().spec_x() * glstat.spec_dims().spec_y() * glstat.spec_dims().spec_z()
            <= isize::MAX,
        old(global_data).spec_amount() + glstat.spec_dims().spec_x() * glstat.spec_dims().spec_y()
            * glstat.spec_dims().spec_z() <= isize::MAX,
        old(global_data).spec_amount() - glstat.spec_dims().spec_x() * glstat.spec_dims().spec_y()
            * glstat.spec_dims().spec_z() >= isize::MIN,
        old(global_data).spec_generation() < usize::MAX,
    ensures
        final(sys3d).wf(glstat.spec_dims()),
        paused ==> r is None && final(sys3d)@ == old(sys3d)@ && *final(global_data) == *old(
            global_data,
        ),
        !paused ==> ({
            let events = spec_eval_slab(
                old(sys3d)@,
                glstat.spec_dims(),
                *rules,
                old(global_data).spec_growth(),
                0,
                glstat.spec_dims().spec_x() as int,
            );
            if spec_spawn_count(events) == spawn_handles@.len() {
                &&& r matches Some(ev) && ev@ == events
                &&& final(sys3d)@ == spec_apply(
                    old(sys3d)@,
                    spec_realize(events, spawn_handles@, rules.spec_life()),
                )
                &&& final(global_data).spec_amount() == old(global_data).spec_amount()
                    + spec_spawn_count(events) - spec_clear_count(events)
                &&& final(global_data).spec_growth() == ({
                    let a = old(global_data).spec_amount() + spec_spawn_count(events)
                        - spec_clear_count(events);
                    if a > glstat.spec_maximum() {
                        false
                    } else if a < glstat.spec_minimum() {
                        true
                    } else {
                        old(global_data).spec_growth()
                    }
                })
                &&& final(global_data).spec_generation() == old(global_data).spec_generation() + 1
                &&& final(global_data).spec_seed() == old(global_data).spec_seed()
            } else {
                r is None && final(sys3d)@ == old(sys3d)@ && *final(global_data) == *old(
                    global_data,
                )
            }
        }),
{
    if paused {
        return None;
    }
    let dims = glstat.dims();
    let ghost lat0 = sys3d@;
    let events = evaluate_generation(sys3d, &dims, rules, global_data.growth());
    proof {
        lemma_eval_slab_props(lat0, dims, *rules, global_data.spec_growth(), 0, dims.spec_x() as int);
        lemma_counts_bounded(events@);
    }
    let (spawned, _despawned) = count_events(&events);
    if spawned == spawn_handles.len() {
        commit_generation(sys3d, rules, global_data, glstat, &events, spawn_handles);
        Some(events)
    } else {
        None
    }
}

/// The stream seed of the full fill's partition `x`: derived from the global
/// seed and the partition index alone, so each partition's draws are
/// reproducible whatever the scheduling.
pub open spec fn partition_seed(seed: u64, x: usize) -> u64 {
    seed.wrapping_add(x.wrapping_mul(999999999) as u64)
}

/// Whether the full fill includes the (empty) cell: its partition stream's
/// draw for this cell falls below the density threshold.
pub open spec fn spec_seed_cell_full(
    lat: Seq<Seq<Seq<Option<Automaton>>>>,
    dims: SystemDims,
    threshold: u64,
    seed: u64,
    x: usize,
    y: usize,
    z: usize,
) -> bool {
    xorwow_out(partition_seed(seed, x), y * dims.spec_z() + z) < threshold && lat[x as int][y as int][z as int] is None
}

pub open spec fn spec_seed_row_full(
    lat: Seq<Seq<Seq<Option<Automaton>>>>,
    dims: SystemDims,
    threshold: u64,
    seed: u64,
    x: usize,
    y: usize,
    zpos: int,
) -> Seq<StepEvent>
    decreases zpos,
{
    if zpos <= 0 {
        Seq::<StepEvent>::empty()
    } else {
        spec_seed_row_full(lat, dims, threshold, seed, x, y, zpos - 1) + (if spec_seed_cell_full(
            lat,
            dims,
            threshold,
            seed,
            x,
            y,
            (zpos - 1) as usize,
        ) {
            seq![StepEvent::Spawn { x, y, z: (zpos - 1) as usize }]
        } else {
            Seq::<StepEvent>::empty()
        })
    }
}

pub open spec fn spec_seed_plane_full(
    lat: Seq<Seq<Seq<Option<Automaton>>>>,
    dims: SystemDims,
    threshold: u64,
    seed: u64,
    x: usize,
    ypos: int,
) -> Seq<StepEvent>
    decreases ypos,
{
    if ypos <= 0 {
        Seq::<StepEvent>::empty()
    } else {
        spec_seed_plane_full(lat, dims, threshold, seed, x, ypos - 1) + spec_seed_row_full(
            lat,
            dims,
            threshold,
            seed,
            x,
            (ypos - 1) as usize,
            dims.spec_z() as int,
        )
    }
}

/// The lattice-wide pseudorandom fill plan: every empty cell is included with
/// probability threshold / 2^64, each first-axis slice drawing from its own
/// stream; a deterministic function of the snapshot, the seed and the
/// threshold.
pub open spec fn spec_seed_full(
    lat: Seq<Seq<Seq<Option<Automaton>>>>,
    dims: SystemDims,
    threshold: u64,
    seed: u64,
    xpos: int,
) -> Seq<StepEvent>
    decreases xpos,
{
    if xpos <= 0 {
        Seq::<StepEvent>::empty()
    } else {
        spec_seed_full(lat, dims, threshold, seed, xpos - 1) + spec_seed_plane_full(
            lat,
            dims,
            threshold,
            seed,
            (xpos - 1) as usize,
            dims.spec_y() as int,
        )
    }
}

/// Plans a full pseudorandom fill: spawn-only events for the cells the
/// per-partition streams select among the currently empty ones.
pub fn seed_plan_full(sys3d: &AutoSystem3d, dims: &SystemDims, threshold: u64, seed: u64) -> (r:
    Vec<StepEvent>)
    requires
        sys3d.wf(*dims),
        dims_ok(*dims),
        dims.spec_y() * dims.spec_z() <= usize::MAX,
    ensures
        r@ == spec_seed_full(sys3d@, *dims, threshold, seed, dims.spec_x() as int),
{
    let mut r: Vec<StepEvent> = Vec::new();
    let mut i: usize = 0;
    proof {
        assert(r@ =~= spec_seed_full(sys3d@, *dims, threshold, seed, 0));
    }
    while i < dims.x()
        invariant
            i <= dims.spec_x(),
            sys3d.wf(*dims),
            dims_ok(*dims),
            dims.spec_y() * dims.spec_z() <= usize::MAX,
            r@ == spec_seed_full(sys3d@, *dims, threshold, seed, i as int),
        decreases dims.spec_x() - i,
    {
        let sx = seed.wrapping_add(i.wrapping_mul(999999999) as u64);
        let draws = xorwow_draws(sx, dims.y() * dims.z());
        let mut j: usize = 0;
        proof {
            assert(r@ + Seq::<StepEvent>::empty() =~= r@);
        }
        while j < dims.y()
            invariant
                j <= dims.spec_y(),
                i < dims.spec_x(),
                sys3d.wf(*dims),
                dims_ok(*dims),
                dims.spec_y() * dims.spec_z() <= usize::MAX,
                sx == partition_seed(seed, i),
                draws@.len() == dims.spec_y() * dims.spec_z(),
                forall|u: int| 0 <= u < draws@.len() ==> #[trigger] draws@[u] == xorwow_out(sx, u),
                r@ == spec_seed_full(sys3d@, *dims, threshold, seed, i as int)
                    + spec_seed_plane_full(sys3d@, *dims, threshold, seed, i, j as int),
            decreases dims.spec_y() - j,
        {
            let mut k: usize = 0;
            proof {
                assert(r@ + Seq::<StepEvent>::empty() =~= r@);
            }
            while k < dims.z()
                invariant
                    k <= dims.spec_z(),
                    j < dims.spec_y(),
                    i < dims.spec_x(),
                    sys3d.wf(*dims),
                    dims_ok(*dims),
                    dims.spec_y() * dims.spec_z() <= usize::MAX,
                    sx == partition_seed(seed, i),
                    draws@.len() == dims.spec_y() * dims.spec_z(),
                    forall|u: int|
                        0 <= u < draws@.len() ==> #[trigger] draws@[u] == xorwow_out(sx, u),
                    r@ == spec_seed_full(sys3d@, *dims, threshold, seed, i as int)
                        + spec_seed_plane_full(sys3d@, *dims, threshold, seed, i, j as int)
                        + spec_seed_row_full(sys3d@, *dims, threshold, seed, i, j, k as int),
                decreases dims.spec_z() - k,
            {
                let ghost base = r@;
                proof {
                    assert(j * dims.spec_z() + k < dims.spec_y() * dims.spec_z())
                        by (nonlinear_arith)
                        requires
                            j < dims.spec_y(),
                            k < dims.spec_z(),
                            j >= 0,
                            k >= 0,
                            dims.spec_z() >= 0,
                    ;
                }
                let d = draws[j * dims.z() + k];
                if d < threshold && sys3d.get_at_xyz((i, j, k)).is_none() {
                    r.push(StepEvent::Spawn { x: i, y: j, z: k });
                }
                proof {
                    assert(r@ =~= base + (if spec_seed_cell_full(
                        sys3d@,
                        *dims,
                        threshold,
                        seed,
                        i,
                        j,
                        k,
                    ) {
                        seq![StepEvent::Spawn { x: i, y: j, z: k }]
                    } else {
                        Seq::<StepEvent>::empty()
                    }));
                    assert(r@ =~= spec_seed_full(sys3d@, *dims, threshold, seed, i as int)
                        + spec_seed_plane_full(sys3d@, *dims, threshold, seed, i, j as int)
                        + spec_seed_row_full(sys3d@, *dims, threshold, seed, i, j, k + 1));
                }
                k = k + 1;
            }
            proof {
                assert(r@ =~= spec_seed_full(sys3d@, *dims, threshold, seed, i as int)
                    + spec_seed_plane_full(sys3d@, *dims, threshold, seed, i, j + 1));
            }
            j = j + 1;
        }
        proof {
            assert(r@ =~= spec_seed_full(sys3d@, *dims, threshold, seed, i + 1));
        }
        i = i + 1;
    }
    r
}

/// Advances the global seed after a full fill: a fresh stream from the old
/// seed is clocked past 64 discarded outputs and the next one becomes the new
/// seed, decorrelating successive fills.
pub fn advance_seed_full(seed: u64) -> (r: u64)
    ensures
        r == xorwow_out(seed, 64),
{
    let draws = xorwow_draws(seed, 65);
    draws[64]
}

pub open spec fn all_spawn(events: Seq<StepEvent>) -> bool {
    forall|t: int| 0 <= t < events.len() ==> (#[trigger] events[t]) is Spawn
}

/// A spawn-only batch has as many spawns as events and no clears.
pub proof fn lemma_all_spawn_counts(events: Seq<StepEvent>)
    requires
        all_spawn(events),
    ensures
        spec_spawn_count(events) == events.len(),
        spec_clear_count(events) == 0,
    decreases events.len(),
{
    if events.len() > 0 {
        assert(all_spawn(events.drop_last()));
        lemma_all_spawn_counts(events.drop_last());
    }
}

/// A seed plan only ever spawns.
pub proof fn lemma_seed_full_all_spawn(
    lat: Seq<Seq<Seq<Option<Automaton>>>>,
    dims: SystemDims,
    threshold: u64,
    seed: u64,
    xpos: int,
)
    requires
        0 <= xpos <= dims.spec_x(),
    ensures
        all_spawn(spec_seed_full(lat, dims, threshold, seed, xpos)),
        events_in_bounds(spec_seed_full(lat, dims, threshold, seed, xpos), dims),
        spec_seed_full(lat, dims, threshold, seed, xpos).len() <= xpos * dims.spec_y()
            * dims.spec_z(),
    decreases xpos,
{
    if xpos > 0 {
        lemma_seed_full_all_spawn(lat, dims, threshold, seed, xpos - 1);
        lemma_seed_plane_full_props(lat, dims, threshold, seed, (xpos - 1) as usize);
        let prev = spec_seed_full(lat, dims, threshold, seed, xpos - 1);
        let plane = spec_seed_plane_full(
            lat,
            dims,
            threshold,
            seed,
            (xpos - 1) as usize,
            dims.spec_y() as int,
        );
        let cur = spec_seed_full(lat, dims, threshold, seed, xpos);
        assert((xpos - 1) * dims.spec_y() * dims.spec_z() + dims.spec_y() * dims.spec_z() == xpos
            * dims.spec_y() * dims.spec_z()) by (nonlinear_arith);
        assert forall|t: int| 0 <= t < cur.len() implies (#[trigger] cur[t]) is Spawn
            && event_in_bounds(cur[t], dims) by {
            if t < prev.len() {
                assert(cur[t] == prev[t]);
            } else {
                assert(cur[t] == plane[t - prev.len()]);
            }
        }
    }
}

proof fn lemma_seed_row_full_props(
    lat: Seq<Seq<Seq<Option<Automaton>>>>,
    dims: SystemDims,
    threshold: u64,
    seed: u64,
    x: usize,
    y: usize,
    zpos: int,
)
    requires
        x < dims.spec_x(),
        y < dims.spec_y(),
        0 <= zpos <= dims.spec_z(),
    ensures
        all_spawn(spec_seed_row_full(lat, dims, threshold, seed, x, y, zpos)),
        events_in_bounds(spec_seed_row_full(lat, dims, threshold, seed, x, y, zpos), dims),
        spec_seed_row_full(lat, dims, threshold, seed, x, y, zpos).len() <= zpos,
    decreases zpos,
{
    if zpos > 0 {
        lemma_seed_row_full_props(lat, dims, threshold, seed, x, y, zpos - 1);
        let prev = spec_seed_row_full(lat, dims, threshold, seed, x, y, zpos - 1);
        let cur = spec_seed_row_full(lat, dims, threshold, seed, x, y, zpos);
        assert forall|t: int| 0 <= t < cur.len() implies (#[trigger] cur[t]) is Spawn
            && event_in_bounds(cur[t], dims) by {
            if t < prev.len() {
                assert(cur[t] == prev[t]);
            }
        }
    }
}

proof fn lemma_seed_plane_full_props(
    lat: Seq<Seq<Seq<Option<Automaton>>>>,
    dims: SystemDims,
    threshold: u64,
    seed: u64,
    x: usize,
)
    requires
        x < dims.spec_x(),
    ensures
        all_spawn(
            spec_seed_plane_full(lat, dims, threshold, seed, x, dims.spec_y() as int),
        ),
        events_in_bounds(
            spec_seed_plane_full(lat, dims, threshold, seed, x, dims.spec_y() as int),
            dims,
        ),
        spec_seed_plane_full(lat, dims, threshold, seed, x, dims.spec_y() as int).len()
            <= dims.spec_y() * dims.spec_z(),
{
    lemma_seed_plane_full_props_rec(lat, dims, threshold, seed, x, dims.spec_y() as int);
}

proof fn lemma_seed_plane_full_props_rec(
    lat: Seq<Seq<Seq<Option<Automaton>>>>,
    dims: SystemDims,
    threshold: u64,
    seed: u64,
    x: usize,
    ypos: int,
)
    requires
        x < dims.spec_x(),
        0 <= ypos <= dims.spec_y(),
    ensures
        all_spawn(spec_seed_plane_full(lat, dims, threshold, seed, x, ypos)),
        events_in_bounds(spec_seed_plane_full(lat, dims, threshold, seed, x, ypos), dims),
        spec_seed_plane_full(lat, dims, threshold, seed, x, ypos).len() <= ypos * dims.spec_z(),
    decreases ypos,
{
    if ypos > 0 {
        lemma_seed_plane_full_props_rec(lat, dims, threshold, seed, x, ypos - 1);
        lemma_seed_row_full_props(lat, dims, threshold, seed, x, (ypos - 1) as usize, dims.spec_z() as int);
        let prev = spec_seed_plane_full(lat, dims, threshold, seed, x, ypos - 1);
        let row = spec_seed_row_full(
            lat,
            dims,
            threshold,
            seed,
            x,
            (ypos - 1) as usize,
            dims.spec_z() as int,
        );
        let cur = spec_seed_plane_full(lat, dims, threshold, seed, x, ypos);
        assert((ypos - 1) * dims.spec_z() + dims.spec_z() == ypos * dims.spec_z())
            by (nonlinear_arith);
        assert forall|t: int| 0 <= t < cur.len() implies (#[trigger] cur[t]) is Spawn
            && event_in_bounds(cur[t], dims) by {
            if t < prev.len() {
                assert(cur[t] == prev[t]);
            } else {
                assert(cur[t] == row[t - prev.len()]);
            }
        }
    }
}

/// Commits a spawn-only seed batch: the selected cells are filled, each with
/// its fresh visual handle and the rule set's extra life, the population
/// grows by the batch size, and the global seed moves to `new_seed`. Growth
/// flag and generation counter stay as they were.
pub fn commit_seed(
    sys3d: &mut AutoSystem3d,
    global_data: &mut GlobalData,
    rules: &Rules,
    glstat: &GlobalStatic,
    events: &Vec<StepEvent>,
    handles: &Vec<u64>,
    new_seed: u64,
)
    requires
        old(sys3d).wf(glstat.spec_dims()),
        dims_ok(glstat.spec_dims()),
        events_in_bounds(events@, glstat.spec_dims()),
        all_spawn(events@),
        handles@.len() == events@.len(),
        events@.len() <= isize::MAX,
        old(global_data).spec_amount() + events@.len() <= isize::MAX,
    ensures
        final(sys3d)@ == spec_apply(
            old(sys3d)@,
            spec_realize(events@, handles@, rules.spec_life()),
        ),
        final(sys3d).wf(glstat.spec_dims()),
        final(global_data).spec_amount() == old(global_data).spec_amount() + events@.len(),
        final(global_data).spec_seed() == new_seed,
        final(global_data).spec_growth() == old(global_data).spec_growth(),
        final(global_data).spec_generation() == old(global_data).spec_generation(),
{
    let ghost dims = glstat.spec_dims();
    proof {
        lemma_all_spawn_counts(events@);
    }
    let changes = realize_changes(events, handles, rules.life());
    proof {
        lemma_realize_in_bounds(events@, handles@, rules.spec_life(), dims);
        assert(old(sys3d).wf(dims) && forall|t: int|
            0 <= t < changes@.len() ==> change_in_bounds(#[trigger] changes@[t], dims));
        crate::system::lemma_spec_apply_wf(old(sys3d)@, dims, changes@);
    }
    sys3d.apply_changes(&changes);
    global_data.increase(events.len() as isize);
    global_data.set_seed(new_seed);
}

/// One row of the core fill: cells (x, y, z0..z0+zpos) drawing the stream
/// outputs base..base+zpos in order.
pub open spec fn spec_seed_core_row(
    lat: Seq<Seq<Seq<Option<Automaton>>>>,
    threshold: u64,
    seed: u64,
    x: usize,
    y: usize,
    z0: usize,
    zpos: int,
    base: int,
) -> Seq<StepEvent>
    decreases zpos,
{
    if zpos <= 0 {
        Seq::<StepEvent>::empty()
    } else {
        spec_seed_core_row(lat, threshold, seed, x, y, z0, zpos - 1, base) + (if xorwow_out(
            seed,
            base + (zpos - 1),
        ) < threshold && lat[x as int][y as int][z0 + zpos - 1] is None {
            seq![StepEvent::Spawn { x, y, z: (z0 + zpos - 1) as usize }]
        } else {
            Seq::<StepEvent>::empty()
        })
    }
}

pub open spec fn spec_seed_core_plane(
    lat: Seq<Seq<Seq<Option<Automaton>>>>,
    threshold: u64,
    seed: u64,
    x: usize,
    y0: usize,
    ypos: int,
    z0: usize,
    nz: int,
    base: int,
) -> Seq<StepEvent>
    decreases ypos,
{
    if ypos <= 0 {
        Seq::<StepEvent>::empty()
    } else {
        spec_seed_core_plane(lat, threshold, seed, x, y0, ypos - 1, z0, nz, base)
            + spec_seed_core_row(
            lat,
            threshold,
            seed,
            x,
            (y0 + ypos - 1) as usize,
            z0,
            nz,
            base + (ypos - 1) * nz,
        )
    }
}

/// The core fill plan: a single stream, seeded from the global seed, draws
/// one output per cell of the centered sub-cuboid in x-then-y-then-z order,
/// and every empty cell whose draw falls below the threshold is included.
pub open spec fn spec_seed_core_cube(
    lat: Seq<Seq<Seq<Option<Automaton>>>>,
    threshold: u64,
    seed: u64,
    x0: usize,
    xpos: int,
    y0: usize,
    ny: int,
    z0: usize,
    nz: int,
) -> Seq<StepEvent>
    decreases xpos,
{
    if xpos <= 0 {
        Seq::<StepEvent>::empty()
    } else {
        spec_seed_core_cube(lat, threshold, seed, x0, xpos - 1, y0, ny, z0, nz)
            + spec_seed_core_plane(
            lat,
            threshold,
            seed,
            (x0 + xpos - 1) as usize,
            y0,
            ny,
            z0,
            nz,
            (xpos - 1) * ny * nz,
        )
    }
}

proof fn lemma_seed_core_row_props(
    lat: Seq<Seq<Seq<Option<Automaton>>>>,
    dims: SystemDims,
    threshold: u64,
    seed: u64,
    x: usize,
    y: usize,
    z0: usize,
    zpos: int,
    base: int,
)
    requires
        x < dims.spec_x(),
        y < dims.spec_y(),
        0 <= zpos,
        z0 + zpos <= dims.spec_z(),
    ensures
        all_spawn(spec_seed_core_row(lat, threshold, seed, x, y, z0, zpos, base)),
        events_in_bounds(spec_seed_core_row(lat, threshold, seed, x, y, z0, zpos, base), dims),
        spec_seed_core_row(lat, threshold, seed, x, y, z0, zpos, base).len() <= zpos,
    decreases zpos,
{
    if zpos > 0 {
        lemma_seed_core_row_props(lat, dims, threshold, seed, x, y, z0, zpos - 1, base);
        let prev = spec_seed_core_row(lat, threshold, seed, x, y, z0, zpos - 1, base);
        let cur = spec_seed_core_row(lat, threshold, seed, x, y, z0, zpos, base);
        assert forall|t: int| 0 <= t < cur.len() implies (#[trigger] cur[t]) is Spawn
            && event_in_bounds(cur[t], dims) by {
            if t < prev.len() {
                assert(cur[t] == prev[t]);
            }
        }
    }
}

proof fn lemma_seed_core_plane_props(
    lat: Seq<Seq<Seq<Option<Automaton>>>>,
    dims: SystemDims,
    threshold: u64,
    seed: u64,
    x: usize,
    y0: usize,
    ypos: int,
    z0: usize,
    nz: int,
    base: int,
)
    requires
        x < dims.spec_x(),
        0 <= ypos,
        y0 + ypos <= dims.spec_y(),
        0 <= nz,
        z0 + nz <= dims.spec_z(),
    ensures
        all_spawn(spec_seed_core_plane(lat, threshold, seed, x, y0, ypos, z0, nz, base)),
        events_in_bounds(
            spec_seed_core_plane(lat, threshold, seed, x, y0, ypos, z0, nz, base),
            dims,
        ),
        spec_seed_core_plane(lat, threshold, seed, x, y0, ypos, z0, nz, base).len() <= ypos * nz,
    decreases ypos,
{
    if ypos > 0 {
        lemma_seed_core_plane_props(lat, dims, threshold, seed, x, y0, ypos - 1, z0, nz, base);
        lemma_seed_core_row_props(
            lat,
            dims,
            threshold,
            seed,
            x,
            (y0 + ypos - 1) as usize,
            z0,
            nz,
            base + (ypos - 1) * nz,
        );
        let prev = spec_seed_core_plane(lat, threshold, seed, x, y0, ypos - 1, z0, nz, base);
        let row = spec_seed_core_row(
            lat,
            threshold,
            seed,
            x,
            (y0 + ypos - 1) as usize,
            z0,
            nz,
            base + (ypos - 1) * nz,
        );
        let cur = spec_seed_core_plane(lat, threshold, seed, x, y0, ypos, z0, nz, base);
        assert((ypos - 1) * nz + nz == ypos * nz) by (nonlinear_arith);
        assert forall|t: int| 0 <= t < cur.len() implies (#[trigger] cur[t]) is Spawn
            && event_in_bounds(cur[t], dims) by {
            if t < prev.len() {
                assert(cur[t] == prev[t]);
            } else {
                assert(cur[t] == row[t - prev.len()]);
            }
        }
    }
}

pub proof fn lemma_seed_core_cube_props(
    lat: Seq<Seq<Seq<Option<Automaton>>>>,
    dims: SystemDims,
    threshold: u64,
    seed: u64,
    x0: usize,
    xpos: int,
    y0: usize,
    ny: int,
    z0: usize,
    nz: int,
)
    requires
        0 <= xpos,
        x0 + xpos <= dims.spec_x(),
        0 <= ny,
        y0 + ny <= dims.spec_y(),
        0 <= nz,
        z0 + nz <= dims.spec_z(),
    ensures
        all_spawn(spec_seed_core_cube(lat, threshold, seed, x0, xpos, y0, ny, z0, nz)),
        events_in_bounds(
            spec_seed_core_cube(lat, threshold, seed, x0, xpos, y0, ny, z0, nz),
            dims,
        ),
        spec_seed_core_cube(lat, threshold, seed, x0, xpos, y0, ny, z0, nz).len() <= xpos * ny
            * nz,
    decreases xpos,
{
    if xpos > 0 {
        lemma_seed_core_cube_props(lat, dims, threshold, seed, x0, xpos - 1, y0, ny, z0, nz);
        lemma_seed_core_plane_props(
            lat,
            dims,
            threshold,
            seed,
            (x0 + xpos - 1) as usize,
            y0,
            ny,
            z0,
            nz,
            (xpos - 1) * ny * nz,
        );
        let prev = spec_seed_core_cube(lat, threshold, seed, x0, xpos - 1, y0, ny, z0, nz);
        let plane = spec_seed_core_plane(
            lat,
            threshold,
            seed,
            (x0 + xpos - 1) as usize,
            y0,
            ny,
            z0,
            nz,
            (xpos - 1) * ny * nz,
        );
        let cur = spec_seed_core_cube(lat, threshold, seed, x0, xpos, y0, ny, z0, nz);
        assert((xpos - 1) * ny * nz + ny * nz == xpos * ny * nz) by (nonlinear_arith);
        assert forall|t: int| 0 <= t < cur.len() implies (#[trigger] cur[t]) is Spawn
            && event_in_bounds(cur[t], dims) by {
            if t < prev.len() {
                assert(cur[t] == prev[t]);
            } else {
                assert(cur[t] == plane[t - prev.len()]);
            }
        }
    }
}

/// Plans a core fill over the centered sub-cuboid given by the fraction
/// divisor, against the current snapshot, and also returns the stream's next
/// output after the per-cell draws: the new global seed.
pub fn seed_plan_core(
    sys3d: &AutoSystem3d,
    dims: &SystemDims,
    fraction: usize,
    threshold: u64,
    seed: u64,
) -> (r: (Vec<StepEvent>, u64))
    requires
        sys3d.wf(*dims),
        dims_ok(*dims),
        fraction >= 1,
        dims.spec_x() / fraction < usize::MAX,
        dims.spec_y() / fraction < usize::MAX,
        dims.spec_z() / fraction < usize::MAX,
        (dims.spec_x() / fraction + 1) / 2 <= dims.spec_x() / 2,
        (dims.spec_y() / fraction + 1) / 2 <= dims.spec_y() / 2,
        (dims.spec_z() / fraction + 1) / 2 <= dims.spec_z() / 2,
        dims.spec_x() / 2 - (dims.spec_x() / fraction + 1) / 2 + (dims.spec_x() / fraction + 1)
            <= dims.spec_x(),
        dims.spec_y() / 2 - (dims.spec_y() / fraction + 1) / 2 + (dims.spec_y() / fraction + 1)
            <= dims.spec_y(),
        dims.spec_z() / 2 - (dims.spec_z() / fraction + 1) / 2 + (dims.spec_z() / fraction + 1)
            <= dims.spec_z(),
        (dims.spec_x() / fraction + 1) * (dims.spec_y() / fraction + 1) <= usize::MAX,
        (dims.spec_x() / fraction + 1) * (dims.spec_y() / fraction + 1) * (dims.spec_z() / fraction
            + 1) < usize::MAX,
    ensures
        ({
            let nx = dims.spec_x() / fraction + 1;
            let ny = dims.spec_y() / fraction + 1;
            let nz = dims.spec_z() / fraction + 1;
            let x0 = (dims.spec_x() / 2 - nx / 2) as usize;
            let y0 = (dims.spec_y() / 2 - ny / 2) as usize;
            let z0 = (dims.spec_z() / 2 - nz / 2) as usize;
            &&& r.0@ == spec_seed_core_cube(
                sys3d@,
                threshold,
                seed,
                x0,
                nx as int,
                y0,
                ny as int,
                z0,
                nz as int,
            )
            &&& r.1 == xorwow_out(seed, nx * ny * nz)
        }),
{
    let rx = dims.core_range_x(fraction);
    let ry = dims.core_range_y(fraction);
    let rz = dims.core_range_z(fraction);
    let x0 = rx.start;
    let y0 = ry.start;
    let z0 = rz.start;
    let nx = rx.end - rx.start;
    let ny = ry.end - ry.start;
    let nz = rz.end - rz.start;
    let total = nx * ny * nz;
    let draws = xorwow_draws(seed, total + 1);
    let mut r: Vec<StepEvent> = Vec::new();
    let mut ii: usize = 0;
    proof {
        assert(r@ =~= spec_seed_core_cube(sys3d@, threshold, seed, x0, 0, y0, ny as int, z0, nz as int));
    }
    while ii < nx
        invariant
            ii <= nx,
            sys3d.wf(*dims),
            dims_ok(*dims),
            x0 + nx <= dims.spec_x(),
            y0 + ny <= dims.spec_y(),
            z0 + nz <= dims.spec_z(),
            nx * ny <= usize::MAX,
            total == nx * ny * nz,
            total < usize::MAX,
            draws@.len() == total + 1,
            forall|u: int| 0 <= u < draws@.len() ==> #[trigger] draws@[u] == xorwow_out(seed, u),
            r@ == spec_seed_core_cube(
                sys3d@,
                threshold,
                seed,
                x0,
                ii as int,
                y0,
                ny as int,
                z0,
                nz as int,
            ),
        decreases nx - ii,
    {
        let mut jj: usize = 0;
        proof {
            assert(r@ + Seq::<StepEvent>::empty() =~= r@);
        }
        while jj < ny
            invariant
                jj <= ny,
                ii < nx,
                sys3d.wf(*dims),
                dims_ok(*dims),
                x0 + nx <= dims.spec_x(),
                y0 + ny <= dims.spec_y(),
                z0 + nz <= dims.spec_z(),
                nx * ny <= usize::MAX,
                total == nx * ny * nz,
                total < usize::MAX,
                draws@.len() == total + 1,
                forall|u: int|
                    0 <= u < draws@.len() ==> #[trigger] draws@[u] == xorwow_out(seed, u),
                r@ == spec_seed_core_cube(
                    sys3d@,
                    threshold,
                    seed,
                    x0,
                    ii as int,
                    y0,
                    ny as int,
                    z0,
                    nz as int,
                ) + spec_seed_core_plane(
                    sys3d@,
                    threshold,
                    seed,
                    (x0 + ii) as usize,
                    y0,
                    jj as int,
                    z0,
                    nz as int,
                    (ii as int) * (ny as int) * (nz as int),
                ),
            decreases ny - jj,
        {
            let mut kk: usize = 0;
            proof {
                assert(r@ + Seq::<StepEvent>::empty() =~= r@);
            }
            while kk < nz
                invariant
                    kk <= nz,
                    jj < ny,
                    ii < nx,
                    sys3d.wf(*dims),
                    dims_ok(*dims),
                    x0 + nx <= dims.spec_x(),
                    y0 + ny <= dims.spec_y(),
                    z0 + nz <= dims.spec_z(),
                    nx * ny <= usize::MAX,
                    total == nx * ny * nz,
                    total < usize::MAX,
                    draws@.len() == total + 1,
                    forall|u: int|
                        0 <= u < draws@.len() ==> #[trigger] draws@[u] == xorwow_out(seed, u),
                    r@ == spec_seed_core_cube(
                        sys3d@,
                        threshold,
                        seed,
                        x0,
                        ii as int,
                        y0,
                        ny as int,
                        z0,
                        nz as int,
                    ) + spec_seed_core_plane(
                        sys3d@,
                        threshold,
                        seed,
                        (x0 + ii) as usize,
                        y0,
                        jj as int,
                        z0,
                        nz as int,
                        (ii as int) * (ny as int) * (nz as int),
                    ) + spec_seed_core_row(
                        sys3d@,
                        threshold,
                        seed,
                        (x0 + ii) as usize,
                        (y0 + jj) as usize,
                        z0,
                        kk as int,
                        (ii as int) * (ny as int) * (nz as int) + (jj as int) * (nz as int),
                    ),
                decreases nz - kk,
            {
                let ghost base = r@;
                proof {
                    assert((ii * ny + jj) * nz + kk < nx * ny * nz) by (nonlinear_arith)
                        requires
                            0 <= ii < nx,
                            0 <= jj < ny,
                            0 <= kk < nz,
                    ;
                    assert((ii * ny + jj) * nz + kk == (ii as int) * (ny as int) * (nz as int) + (
                    jj as int) * (nz as int) + kk) by (nonlinear_arith);
                    assert(ii * ny + jj <= nx * ny) by (nonlinear_arith)
                        requires
                            0 <= ii < nx,
                            0 <= jj < ny,
                            0 <= nz,
                    ;
                    assert((ii * ny + jj) * nz <= total) by (nonlinear_arith)
                        requires
                            0 <= ii * ny + jj,
                            (ii * ny + jj) * nz + kk < total,
                            0 <= kk,
                    ;
                }
                let idx = (ii * ny + jj) * nz + kk;
                let d = draws[idx];
                if d < threshold && sys3d.get_at_xyz((x0 + ii, y0 + jj, z0 + kk)).is_none() {
                    r.push(StepEvent::Spawn { x: x0 + ii, y: y0 + jj, z: z0 + kk });
                }
                proof {
                    assert(r@ =~= base + (if xorwow_out(
                        seed,
                        (ii as int) * (ny as int) * (nz as int) + (jj as int) * (nz as int) + kk,
                    ) < threshold && sys3d@[(x0 + ii) as int][(y0 + jj) as int][z0 + kk as int]
                        is None {
                        seq![
                            StepEvent::Spawn {
                                x: (x0 + ii) as usize,
                                y: (y0 + jj) as usize,
                                z: (z0 + kk) as usize,
                            },
                        ]
                    } else {
                        Seq::<StepEvent>::empty()
                    }));
                    assert(r@ =~= spec_seed_core_cube(
                        sys3d@,
                        threshold,
                        seed,
                        x0,
                        ii as int,
                        y0,
                        ny as int,
                        z0,
                        nz as int,
                    ) + spec_seed_core_plane(
                        sys3d@,
                        threshold,
                        seed,
                        (x0 + ii) as usize,
                        y0,
                        jj as int,
                        z0,
                        nz as int,
                        (ii as int) * (ny as int) * (nz as int),
                    ) + spec_seed_core_row(
                        sys3d@,
                        threshold,
                        seed,
                        (x0 + ii) as usize,
                        (y0 + jj) as usize,
                        z0,
                        kk + 1,
                        (ii as int) * (ny as int) * (nz as int) + (jj as int) * (nz as int),
                    ));
                }
                kk = kk + 1;
            }
            proof {
                assert(r@ =~= spec_seed_core_cube(
                    sys3d@,
                    threshold,
                    seed,
                    x0,
                    ii as int,
                    y0,
                    ny as int,
                    z0,
                    nz as int,
                ) + spec_seed_core_plane(
                    sys3d@,
                    threshold,
                    seed,
                    (x0 + ii) as usize,
                    y0,
                    jj + 1,
                    z0,
                    nz as int,
                    (ii as int) * (ny as int) * (nz as int),
                ));
            }
            jj = jj + 1;
        }
        proof {
            assert((ii as int) * (ny as int) * (nz as int) == (ii as int) * ((ny as int) * (
            nz as int))) by (nonlinear_arith);
            assert(r@ =~= spec_seed_core_cube(
                sys3d@,
                threshold,
                seed,
                x0,
                ii + 1,
                y0,
                ny as int,
                z0,
                nz as int,
            ));
        }
        ii = ii + 1;
    }
    let new_seed = draws[total];
    (r, new_seed)
}

} // verus!
