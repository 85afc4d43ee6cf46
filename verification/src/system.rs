use vstd::prelude::*;

verus! {

/// One occupied cell: a weak handle to its external visual representation
/// (never dereferenced here) and the number of extra generations it may
/// survive once despawn-consideration begins.
#[derive(Clone, Copy, Debug, Eq, PartialEq, Structural)]
pub struct Automaton {
    entity: u64,
    life: isize,
}

impl Automaton {
    pub fn new(entity: u64, life: isize) -> (r: Self)
        ensures
            r.spec_entity() == entity,
            r.spec_life() == life,
            r == Automaton::spec_new(entity, life),
    {
        Self { entity, life }
    }

    pub fn new_zero(entity: u64) -> (r: Self)
        ensures
            r.spec_entity() == entity,
            r.spec_life() == 0,
    {
        Self { entity, life: 0isize }
    }

    pub fn change_life(&mut self, step: isize)
        requires
            isize::MIN <= old(self).spec_life() + step <= isize::MAX,
        ensures
            final(self).spec_life() == old(self).spec_life() + step,
            final(self).spec_entity() == old(self).spec_entity(),
    {
        self.life += step;
    }

    pub fn life(&self) -> (r: isize)
        ensures
            r == self.spec_life(),
    {
        self.life
    }

    pub fn entity(&self) -> (r: u64)
        ensures
            r == self.spec_entity(),
    {
        self.entity
    }

    pub closed spec fn spec_life(&self) -> isize {
        self.life
    }

    pub closed spec fn spec_entity(&self) -> u64 {
        self.entity
    }

    pub closed spec fn spec_new(entity: u64, life: isize) -> Automaton {
        Automaton { entity, life }
    }
}

pub broadcast proof fn lemma_automaton_spec_new(entity: u64, life: isize)
    ensures
        (#[trigger] Automaton::spec_new(entity, life)).spec_entity() == entity,
        Automaton::spec_new(entity, life).spec_life() == life,
{
}

/// Extent of the lattice along each axis.
#[derive(Clone, Copy, Debug, Eq, PartialEq, Structural)]
pub struct SystemDims {
    x: usize,
    y: usize,
    z: usize,
}

impl SystemDims {
    pub fn new_from_tuple(dims: (usize, usize, usize)) -> (r: Self)
        ensures
            r.spec_x() == dims.0,
            r.spec_y() == dims.1,
            r.spec_z() == dims.2,
    {
        Self { x: dims.0, y: dims.1, z: dims.2 }
    }

    pub fn new(x: usize, y: usize, z: usize) -> (r: Self)
        ensures
            r.spec_x() == x,
            r.spec_y() == y,
            r.spec_z() == z,
    {
        Self { x, y, z }
    }

    /// Clamps the requested edge length into [min, max] and uses it for all
    /// three axes: the result is max(min, min(max, value)) on each axis.
    pub fn new_cube_clamped(min: usize, max: usize, value: usize) -> (r: Self)
        requires
            min <= max,
        ensures
            r.spec_x() == r.spec_y() && r.spec_y() == r.spec_z(),
            r.spec_x() == if value < min { min } else if value > max { max } else { value },
    {
        let l = if value < min { min } else if value > max { max } else { value };
        Self { x: l, y: l, z: l }
    }

    pub fn x(&self) -> (r: usize)
        ensures
            r == self.spec_x(),
    {
        self.x
    }

    pub fn y(&self) -> (r: usize)
        ensures
            r == self.spec_y(),
    {
        self.y
    }

    pub fn z(&self) -> (r: usize)
        ensures
            r == self.spec_z(),
    {
        self.z
    }

    pub closed spec fn spec_x(&self) -> usize {
        self.x
    }

    pub closed spec fn spec_y(&self) -> usize {
        self.y
    }

    pub closed spec fn spec_z(&self) -> usize {
        self.z
    }

    pub fn range_x(&self) -> (r: core::ops::Range<usize>)
        ensures
            r.start == 0,
            r.end == self.spec_x(),
    {
        create_range(self.x)
    }

    pub fn range_y(&self) -> (r: core::ops::Range<usize>)
        ensures
            r.start == 0,
            r.end == self.spec_y(),
    {
        create_range(self.y)
    }

    pub fn range_z(&self) -> (r: core::ops::Range<usize>)
        ensures
            r.start == 0,
            r.end == self.spec_z(),
    {
        create_range(self.z)
    }

    pub fn core_range_x(&self, fract: usize) -> (r: core::ops::Range<usize>)
        requires
            fract >= 1,
            self.spec_x() / fract < usize::MAX,
            (self.spec_x() / fract + 1) / 2 <= self.spec_x() / 2,
        ensures
            r.start == self.spec_x() / 2 - (self.spec_x() / fract + 1) / 2,
            r.end == r.start + (self.spec_x() / fract + 1),
    {
        fract_range(self.x, fract)
    }

    pub fn core_range_y(&self, fract: usize) -> (r: core::ops::Range<usize>)
        requires
            fract >= 1,
            self.spec_y() / fract < usize::MAX,
            (self.spec_y() / fract + 1) / 2 <= self.spec_y() / 2,
        ensures
            r.start == self.spec_y() / 2 - (self.spec_y() / fract + 1) / 2,
            r.end == r.start + (self.spec_y() / fract + 1),
    {
        fract_range(self.y, fract)
    }

    pub fn core_range_z(&self, fract: usize) -> (r: core::ops::Range<usize>)
        requires
            fract >= 1,
            self.spec_z() / fract < usize::MAX,
            (self.spec_z() / fract + 1) / 2 <= self.spec_z() / 2,
        ensures
            r.start == self.spec_z() / 2 - (self.spec_z() / fract + 1) / 2,
            r.end == r.start + (self.spec_z() / fract + 1),
    {
        fract_range(self.z, fract)
    }

    /// Total number of cells the lattice can hold.
    pub fn max_amount(&self) -> (r: usize)
        requires
            self.spec_x() * self.spec_y() <= usize::MAX,
            self.spec_x() * self.spec_y() * self.spec_z() <= usize::MAX,
        ensures
            r == self.spec_x() * self.spec_y() * self.spec_z(),
    {
        self.x * self.y * self.z
    }
}

fn create_range(x: usize) -> (r: core::ops::Range<usize>)
    ensures
        r.start == 0,
        r.end == x,
{
    core::ops::Range::<usize> { start: 0usize, end: x }
}

/// Centered sub-range of length `x / fract + 1`.
fn fract_range(x: usize, fract: usize) -> (r: core::ops::Range<usize>)
    requires
        fract >= 1,
        x / fract < usize::MAX,
        (x / fract + 1) / 2 <= x / 2,
    ensures
        r.start == x / 2 - (x / fract + 1) / 2,
        r.end == r.start + (x / fract + 1),
{
    let part = x / fract + 1;
    let start = x / 2 - part / 2;
    let end = start + part;
    core::ops::Range::<usize> { start, end }
}

/// The dense 3D store of optional cells, indexed data[x][y][z].
#[derive(Debug, Clone)]
pub struct AutoSystem3d {
    data: Vec<Vec<Vec<Option<Automaton>>>>,
}

impl View for AutoSystem3d {
    type V = Seq<Seq<Seq<Option<Automaton>>>>;

    closed spec fn view(&self) -> Seq<Seq<Seq<Option<Automaton>>>> {
        self.data@.map_values(
            |plane: Vec<Vec<Option<Automaton>>>|
                plane@.map_values(|row: Vec<Option<Automaton>>| row@),
        )
    }
}

/// The extents under which a lattice is usable: every axis positive, signed
/// arithmetic on coordinates possible, and the volume addressable.
pub open spec fn dims_ok(dims: SystemDims) -> bool {
    &&& 1 <= dims.spec_x() <= isize::MAX
    &&& 1 <= dims.spec_y() <= isize::MAX
    &&& 1 <= dims.spec_z() <= isize::MAX
}

impl AutoSystem3d {
    /// The lattice matches the given extents.
    pub open spec fn wf(&self, dims: SystemDims) -> bool {
        &&& self@.len() == dims.spec_x()
        &&& forall|i: int|
            0 <= i < dims.spec_x() ==> (#[trigger] self@[i]).len() == dims.spec_y()
        &&& forall|i: int, j: int|
            0 <= i < dims.spec_x() && 0 <= j < dims.spec_y() ==> (#[trigger] self@[i][j]).len()
                == dims.spec_z()
    }

    pub open spec fn spec_at(&self, x: int, y: int, z: int) -> Option<Automaton> {
        self@[x][y][z]
    }

    pub fn new_from_dims(dims: &SystemDims) -> (r: Self)
        ensures
            r.wf(*dims),
            forall|i: int, j: int, k: int|
                0 <= i < dims.spec_x() && 0 <= j < dims.spec_y() && 0 <= k < dims.spec_z()
                    ==> r.spec_at(i, j, k) is None,
    {
        let mut data: Vec<Vec<Vec<Option<Automaton>>>> = Vec::new();
        let mut i: usize = 0;
        while i < dims.x()
            invariant
                i <= dims.spec_x(),
                data@.len() == i,
                forall|a: int|
                    0 <= a < i ==> (#[trigger] data@[a])@.len() == dims.spec_y(),
                forall|a: int, b: int|
                    0 <= a < i && 0 <= b < dims.spec_y() ==> (#[trigger] data@[a]@[b])@.len()
                        == dims.spec_z(),
                forall|a: int, b: int, c: int|
                    0 <= a < i && 0 <= b < dims.spec_y() && 0 <= c < dims.spec_z()
                        ==> (#[trigger] data@[a]@[b]@[c]) is None,
            decreases dims.spec_x() - i,
        {
            let mut plane: Vec<Vec<Option<Automaton>>> = Vec::new();
            let mut j: usize = 0;
            while j < dims.y()
                invariant
                    j <= dims.spec_y(),
                    plane@.len() == j,
                    forall|b: int|
                        0 <= b < j ==> (#[trigger] plane@[b])@.len() == dims.spec_z(),
                    forall|b: int, c: int|
                        0 <= b < j && 0 <= c < dims.spec_z() ==> (#[trigger] plane@[b]@[c])
                            is None,
                decreases dims.spec_y() - j,
            {
                let mut row: Vec<Option<Automaton>> = Vec::new();
                let mut k: usize = 0;
                while k < dims.z()
                    invariant
                        k <= dims.spec_z(),
                        row@.len() == k,
                        forall|c: int| 0 <= c < k ==> (#[trigger] row@[c]) is None,
                    decreases dims.spec_z() - k,
                {
                    row.push(Option::<Automaton>::None);
                    k = k + 1;
                }
                plane.push(row);
                j = j + 1;
            }
            data.push(plane);
            i = i + 1;
        }
        Self { data }
    }

    /// The view after writing `value` at in-bounds (x, y, z).
    pub open spec fn spec_update(
        lat: Seq<Seq<Seq<Option<Automaton>>>>,
        x: int,
        y: int,
        z: int,
        value: Option<Automaton>,
    ) -> Seq<Seq<Seq<Option<Automaton>>>> {
        lat.update(x, lat[x].update(y, lat[x][y].update(z, value)))
    }

    pub fn access_xyz(&mut self, xyz: (usize, usize, usize), value: Option<Automaton>)
        requires
            xyz.0 < old(self)@.len(),
            xyz.1 < old(self)@[xyz.0 as int].len(),
            xyz.2 < old(self)@[xyz.0 as int][xyz.1 as int].len(),
        ensures
            final(self)@ == Self::spec_update(
                old(self)@,
                xyz.0 as int,
                xyz.1 as int,
                xyz.2 as int,
                value,
            ),
    {
        self.data[xyz.0][xyz.1][xyz.2] = value;
        proof {
            assert(self@ =~~= Self::spec_update(
                old(self)@,
                xyz.0 as int,
                xyz.1 as int,
                xyz.2 as int,
                value,
            ));
        }
    }

    pub fn set_xyz(&mut self, xyz: (usize, usize, usize), value: Automaton)
        requires
            xyz.0 < old(self)@.len(),
            xyz.1 < old(self)@[xyz.0 as int].len(),
            xyz.2 < old(self)@[xyz.0 as int][xyz.1 as int].len(),
        ensures
            final(self)@ == Self::spec_update(
                old(self)@,
                xyz.0 as int,
                xyz.1 as int,
                xyz.2 as int,
                Some(value),
            ),
    {
        self.access_xyz(xyz, Some(value));
    }

    pub fn delete_xyz(&mut self, xyz: (usize, usize, usize))
        requires
            xyz.0 < old(self)@.len(),
            xyz.1 < old(self)@[xyz.0 as int].len(),
            xyz.2 < old(self)@[xyz.0 as int][xyz.1 as int].len(),
        ensures
            final(self)@ == Self::spec_update(
                old(self)@,
                xyz.0 as int,
                xyz.1 as int,
                xyz.2 as int,
                Option::<Automaton>::None,
            ),
    {
        self.access_xyz(xyz, Option::<Automaton>::None);
    }

    pub fn get_at_xyz(&self, uxyz: (usize, usize, usize)) -> (r: Option<Automaton>)
        requires
            uxyz.0 < self@.len(),
            uxyz.1 < self@[uxyz.0 as int].len(),
            uxyz.2 < self@[uxyz.0 as int][uxyz.1 as int].len(),
        ensures
            r == self.spec_at(uxyz.0 as int, uxyz.1 as int, uxyz.2 as int),
    {
        self.data[uxyz.0][uxyz.1][uxyz.2]
    }
}

/// Euclidean wrap of one signed coordinate onto a positive axis length:
/// the unique representative of `c` modulo `l` inside [0, l).
pub fn wrap_coord(c: isize, l: usize) -> (r: usize)
    requires
        1 <= l <= isize::MAX,
    ensures
        r == (c as int) % (l as int),
        r < l,
{
    let m = c.checked_rem_euclid(l as isize);
    m.unwrap() as usize
}

/// Wraps a signed position onto the lattice, realizing the toroidal
/// topology: -1 maps to the far wall, an extent maps to 0.
fn rem_euclid_3d(ixyz: (isize, isize, isize), dims: &SystemDims) -> (r: (usize, usize, usize))
    requires
        dims_ok(*dims),
    ensures
        r.0 == (ixyz.0 as int) % (dims.spec_x() as int),
        r.1 == (ixyz.1 as int) % (dims.spec_y() as int),
        r.2 == (ixyz.2 as int) % (dims.spec_z() as int),
        r.0 < dims.spec_x(),
        r.1 < dims.spec_y(),
        r.2 < dims.spec_z(),
{
    (wrap_coord(ixyz.0, dims.x()), wrap_coord(ixyz.1, dims.y()), wrap_coord(ixyz.2, dims.z()))
}

/// Whether the (wrapped) position holds a cell.
pub open spec fn spec_occupied_wrapped(
    lat: Seq<Seq<Seq<Option<Automaton>>>>,
    dims: SystemDims,
    x: int,
    y: int,
    z: int,
) -> bool {
    lat[x % (dims.spec_x() as int)][y % (dims.spec_y() as int)][z % (dims.spec_z() as int)]
        is Some
}

/// How many of the given relative offsets, wrapped around the lattice, land
/// on an occupied cell, seen from center (cx, cy, cz).
pub open spec fn spec_count_neighbours(
    lat: Seq<Seq<Seq<Option<Automaton>>>>,
    dims: SystemDims,
    cx: int,
    cy: int,
    cz: int,
    offs: Seq<(int, int, int)>,
) -> nat
    decreases offs.len(),
{
    if offs.len() == 0 {
        0
    } else {
        spec_count_neighbours(lat, dims, cx, cy, cz, offs.drop_last()) + (if spec_occupied_wrapped(
            lat,
            dims,
            cx + offs.last().0,
            cy + offs.last().1,
            cz + offs.last().2,
        ) {
            1nat
        } else {
            0nat
        })
    }
}

/// The 26 offsets of the Moore neighbourhood: all of {-1,0,1}^3 but the
/// origin, written out so that no loop ordering is implied.
pub open spec fn moore_offsets() -> Seq<(int, int, int)> {
    seq![
        (-1int, -1int, -1int),
        (-1int, -1int, 0int),
        (-1int, -1int, 1int),
        (-1int, 0int, -1int),
        (-1int, 0int, 0int),
        (-1int, 0int, 1int),
        (-1int, 1int, -1int),
        (-1int, 1int, 0int),
        (-1int, 1int, 1int),
        (0int, -1int, -1int),
        (0int, -1int, 0int),
        (0int, -1int, 1int),
        (0int, 0int, -1int),
        (0int, 0int, 1int),
        (0int, 1int, -1int),
        (0int, 1int, 0int),
        (0int, 1int, 1int),
        (1int, -1int, -1int),
        (1int, -1int, 0int),
        (1int, -1int, 1int),
        (1int, 0int, -1int),
        (1int, 0int, 0int),
        (1int, 0int, 1int),
        (1int, 1int, -1int),
        (1int, 1int, 0int),
        (1int, 1int, 1int),
    ]
}

/// The 6 axis-aligned unit offsets of the Von Neumann neighbourhood.
pub open spec fn von_neumann_offsets() -> Seq<(int, int, int)> {
    seq![
        (0int, -1int, 0int),
        (0int, 1int, 0int),
        (-1int, 0int, 0int),
        (1int, 0int, 0int),
        (0int, 0int, -1int),
        (0int, 0int, 1int),
    ]
}

/// The Moore neighbourhood holds exactly 26 offsets, pairwise distinct, none
/// of them the origin, and each component within one step.
pub proof fn lemma_moore_offsets()
    ensures
        moore_offsets().len() == 26,
        forall|t: int|
            0 <= t < 26 ==> #[trigger] moore_offsets()[t] != (0int, 0int, 0int),
        forall|t: int|
            0 <= t < 26 ==> -1 <= (#[trigger] moore_offsets()[t]).0 <= 1 && -1
                <= moore_offsets()[t].1 <= 1 && -1 <= moore_offsets()[t].2 <= 1,
        forall|s: int, t: int|
            0 <= s < t < 26 ==> #[trigger] moore_offsets()[s] != #[trigger] moore_offsets()[t],
{
}

/// The Von Neumann neighbourhood holds exactly 6 offsets, pairwise distinct,
/// none of them the origin, and each component within one step.
pub proof fn lemma_von_neumann_offsets()
    ensures
        von_neumann_offsets().len() == 6,
        forall|t: int|
            0 <= t < 6 ==> #[trigger] von_neumann_offsets()[t] != (0int, 0int, 0int),
        forall|t: int|
            0 <= t < 6 ==> -1 <= (#[trigger] von_neumann_offsets()[t]).0 <= 1 && -1
                <= von_neumann_offsets()[t].1 <= 1 && -1 <= von_neumann_offsets()[t].2 <= 1,
        forall|s: int, t: int|
            0 <= s < t < 6 ==> #[trigger] von_neumann_offsets()[s] != #[trigger] von_neumann_offsets()[t],
{
}

/// The positions adjacent to `uxyz` in the Moore topology, before wrapping.
fn neighbours_moore_3d(uxyz: (usize, usize, usize)) -> (r: Vec<(isize, isize, isize)>)
    requires
        uxyz.0 + 1 <= isize::MAX,
        uxyz.1 + 1 <= isize::MAX,
        uxyz.2 + 1 <= isize::MAX,
    ensures
        r@.len() == 26,
        forall|t: int|
            0 <= t < 26 ==> (#[trigger] r@[t]).0 == uxyz.0 + moore_offsets()[t].0 && r@[t].1
                == uxyz.1 + moore_offsets()[t].1 && r@[t].2 == uxyz.2 + moore_offsets()[t].2,
{
    let xyz = (uxyz.0 as isize, uxyz.1 as isize, uxyz.2 as isize);
    let mut r: Vec<(isize, isize, isize)> = Vec::new();
    r.push((xyz.0 - 1, xyz.1 - 1, xyz.2 - 1));
    r.push((xyz.0 - 1, xyz.1 - 1, xyz.2));
    r.push((xyz.0 - 1, xyz.1 - 1, xyz.2 + 1));
    r.push((xyz.0 - 1, xyz.1, xyz.2 - 1));
    r.push((xyz.0 - 1, xyz.1, xyz.2));
    r.push((xyz.0 - 1, xyz.1, xyz.2 + 1));
    r.push((xyz.0 - 1, xyz.1 + 1, xyz.2 - 1));
    r.push((xyz.0 - 1, xyz.1 + 1, xyz.2));
    r.push((xyz.0 - 1, xyz.1 + 1, xyz.2 + 1));
    r.push((xyz.0, xyz.1 - 1, xyz.2 - 1));
    r.push((xyz.0, xyz.1 - 1, xyz.2));
    r.push((xyz.0, xyz.1 - 1, xyz.2 + 1));
    r.push((xyz.0, xyz.1, xyz.2 - 1));
    r.push((xyz.0, xyz.1, xyz.2 + 1));
    r.push((xyz.0, xyz.1 + 1, xyz.2 - 1));
    r.push((xyz.0, xyz.1 + 1, xyz.2));
    r.push((xyz.0, xyz.1 + 1, xyz.2 + 1));
    r.push((xyz.0 + 1, xyz.1 - 1, xyz.2 - 1));
    r.push((xyz.0 + 1, xyz.1 - 1, xyz.2));
    r.push((xyz.0 + 1, xyz.1 - 1, xyz.2 + 1));
    r.push((xyz.0 + 1, xyz.1, xyz.2 - 1));
    r.push((xyz.0 + 1, xyz.1, xyz.2));
    r.push((xyz.0 + 1, xyz.1, xyz.2 + 1));
    r.push((xyz.0 + 1, xyz.1 + 1, xyz.2 - 1));
    r.push((xyz.0 + 1, xyz.1 + 1, xyz.2));
    r.push((xyz.0 + 1, xyz.1 + 1, xyz.2 + 1));
    r
}

/// The positions adjacent to `uxyz` in the Von Neumann topology, before
/// wrapping.
fn neighbours_von_neumann_3d(uxyz: (usize, usize, usize)) -> (r: Vec<(isize, isize, isize)>)
    requires
        uxyz.0 + 1 <= isize::MAX,
        uxyz.1 + 1 <= isize::MAX,
        uxyz.2 + 1 <= isize::MAX,
    ensures
        r@.len() == 6,
        forall|t: int|
            0 <= t < 6 ==> (#[trigger] r@[t]).0 == uxyz.0 + von_neumann_offsets()[t].0 && r@[t].1
                == uxyz.1 + von_neumann_offsets()[t].1 && r@[t].2 == uxyz.2
                + von_neumann_offsets()[t].2,
{
    let xyz = (uxyz.0 as isize, uxyz.1 as isize, uxyz.2 as isize);
    let mut r: Vec<(isize, isize, isize)> = Vec::new();
    r.push((xyz.0, xyz.1 - 1, xyz.2));
    r.push((xyz.0, xyz.1 + 1, xyz.2));
    r.push((xyz.0 - 1, xyz.1, xyz.2));
    r.push((xyz.0 + 1, xyz.1, xyz.2));
    r.push((xyz.0, xyz.1, xyz.2 - 1));
    r.push((xyz.0, xyz.1, xyz.2 + 1));
    r
}

impl AutoSystem3d {
    /// Whether the wrapped position is occupied in this lattice.
    pub fn rem_euclid_bool(&self, xyz: (isize, isize, isize), dims: &SystemDims) -> (r: bool)
        requires
            self.wf(*dims),
            dims_ok(*dims),
        ensures
            r == spec_occupied_wrapped(self@, *dims, xyz.0 as int, xyz.1 as int, xyz.2 as int),
    {
        let (x, y, z) = rem_euclid_3d(xyz, dims);
        proof {
            assert(self.data@.len() == self@.len());
            assert(self@[x as int] == self.data@[x as int]@.map_values(
                |row: Vec<Option<Automaton>>| row@,
            ));
            assert(self@[x as int][y as int] == self.data@[x as int]@[y as int]@);
        }
        self.data[x][y][z].is_some()
    }

    fn count_at_positions(
        &self,
        positions: &Vec<(isize, isize, isize)>,
        dims: &SystemDims,
        uxyz: (usize, usize, usize),
        Ghost(offs): Ghost<Seq<(int, int, int)>>,
    ) -> (n: usize)
        requires
            self.wf(*dims),
            dims_ok(*dims),
            positions@.len() == offs.len(),
            forall|t: int|
                0 <= t < offs.len() ==> (#[trigger] positions@[t]).0 == uxyz.0 + offs[t].0
                    && positions@[t].1 == uxyz.1 + offs[t].1 && positions@[t].2 == uxyz.2
                    + offs[t].2,
        ensures
            n == spec_count_neighbours(
                self@,
                *dims,
                uxyz.0 as int,
                uxyz.1 as int,
                uxyz.2 as int,
                offs,
            ),
            n <= offs.len(),
    {
        let mut n: usize = 0;
        let mut t: usize = 0;
        while t < positions.len()
            invariant
                self.wf(*dims),
                dims_ok(*dims),
                t <= positions@.len(),
                positions@.len() == offs.len(),
                forall|u: int|
                    0 <= u < offs.len() ==> (#[trigger] positions@[u]).0 == uxyz.0 + offs[u].0
                        && positions@[u].1 == uxyz.1 + offs[u].1 && positions@[u].2 == uxyz.2
                        + offs[u].2,
                n <= t,
                n == spec_count_neighbours(
                    self@,
                    *dims,
                    uxyz.0 as int,
                    uxyz.1 as int,
                    uxyz.2 as int,
                    offs.take(t as int),
                ),
            decreases positions@.len() - t,
        {
            proof {
                assert(offs.take(t + 1).drop_last() =~= offs.take(t as int));
                assert(offs.take(t + 1).last() == offs[t as int]);
            }
            if self.rem_euclid_bool(positions[t], dims) {
                n = n + 1;
            }
            t = t + 1;
        }
        proof {
            assert(offs.take(offs.len() as int) =~= offs);
        }
        n
    }

    /// Counts occupied Moore neighbours of `uxyz` against this snapshot.
    pub fn count_neighbours_moore(&self, uxyz: (usize, usize, usize), dims: &SystemDims) -> (n:
        usize)
        requires
            self.wf(*dims),
            dims_ok(*dims),
            uxyz.0 < dims.spec_x(),
            uxyz.1 < dims.spec_y(),
            uxyz.2 < dims.spec_z(),
        ensures
            n == spec_count_neighbours(
                self@,
                *dims,
                uxyz.0 as int,
                uxyz.1 as int,
                uxyz.2 as int,
                moore_offsets(),
            ),
            n <= 26,
    {
        let positions = neighbours_moore_3d(uxyz);
        self.count_at_positions(&positions, dims, uxyz, Ghost(moore_offsets()))
    }

    /// Counts occupied Von Neumann neighbours of `uxyz` against this snapshot.
    pub fn count_neighbours_von_neumann(
        &self,
        uxyz: (usize, usize, usize),
        dims: &SystemDims,
    ) -> (n: usize)
        requires
            self.wf(*dims),
            dims_ok(*dims),
            uxyz.0 < dims.spec_x(),
            uxyz.1 < dims.spec_y(),
            uxyz.2 < dims.spec_z(),
        ensures
            n == spec_count_neighbours(
                self@,
                *dims,
                uxyz.0 as int,
                uxyz.1 as int,
                uxyz.2 as int,
                von_neumann_offsets(),
            ),
            n <= 6,
    {
        let positions = neighbours_von_neumann_3d(uxyz);
        self.count_at_positions(&positions, dims, uxyz, Ghost(von_neumann_offsets()))
    }
}

/// The periodic wrap realizes a toroidal topology: for any axis length L,
/// position -1 wraps to L-1, position L wraps to 0, and every in-range
/// position is left alone.
pub proof fn lemma_wrap_is_toroidal(l: int)
    requires
        l >= 1,
    ensures
        (-1) % l == l - 1,
        l % l == 0,
        forall|k: int| 0 <= k < l ==> #[trigger] (k % l) == k,
{
    assert((-1) % l == l - 1) by {
        vstd::arithmetic::div_mod::lemma_mod_sub_multiples_vanish(l - 1, l);
        vstd::arithmetic::div_mod::lemma_small_mod((l - 1) as nat, l as nat);
    }
    assert(l % l == 0) by {
        vstd::arithmetic::div_mod::lemma_mod_self_0(l);
    }
    assert forall|k: int| 0 <= k < l implies #[trigger] (k % l) == k by {
        vstd::arithmetic::div_mod::lemma_small_mod(k as nat, l as nat);
    }
}

/// One pending, coordinate-addressed mutation: the cell at `uxyz` is to be
/// replaced by `element` when the batch is applied.
#[derive(Copy, Clone, Debug)]
pub struct SysChange {
    uxyz: (usize, usize, usize),
    element: Option<Automaton>,
}

impl SysChange {
    pub closed spec fn spec_x(&self) -> usize {
        self.uxyz.0
    }

    pub closed spec fn spec_y(&self) -> usize {
        self.uxyz.1
    }

    pub closed spec fn spec_z(&self) -> usize {
        self.uxyz.2
    }

    pub closed spec fn spec_element(&self) -> Option<Automaton> {
        self.element
    }

    pub closed spec fn spec_new(x: usize, y: usize, z: usize, element: Option<Automaton>) -> SysChange {
        SysChange { uxyz: (x, y, z), element }
    }

    pub fn spawn(x: usize, y: usize, z: usize, automaton: Automaton) -> (r: Self)
        ensures
            r.spec_x() == x,
            r.spec_y() == y,
            r.spec_z() == z,
            r.spec_element() == Some(automaton),
            r == SysChange::spec_new(x, y, z, Some(automaton)),
    {
        Self { uxyz: (x, y, z), element: Some(automaton) }
    }

    pub fn empty(x: usize, y: usize, z: usize) -> (r: Self)
        ensures
            r.spec_x() == x,
            r.spec_y() == y,
            r.spec_z() == z,
            r.spec_element() is None,
            r == SysChange::spec_new(x, y, z, Option::<Automaton>::None),
    {
        Self { uxyz: (x, y, z), element: Option::<Automaton>::None }
    }

    pub fn change_life(x: usize, y: usize, z: usize, automaton: Automaton, life_change: isize) -> (r:
        Self)
        requires
            isize::MIN <= automaton.spec_life() + life_change <= isize::MAX,
        ensures
            r.spec_x() == x,
            r.spec_y() == y,
            r.spec_z() == z,
            r.spec_element() matches Some(a) && a.spec_entity() == automaton.spec_entity()
                && a.spec_life() == automaton.spec_life() + life_change,
    {
        Self {
            uxyz: (x, y, z),
            element: Some(Automaton::new(automaton.entity(), automaton.life() + life_change)),
        }
    }

    pub fn x(&self) -> (r: usize)
        ensures
            r == self.spec_x(),
    {
        self.uxyz.0
    }

    pub fn y(&self) -> (r: usize)
        ensures
            r == self.spec_y(),
    {
        self.uxyz.1
    }

    pub fn z(&self) -> (r: usize)
        ensures
            r == self.spec_z(),
    {
        self.uxyz.2
    }

    pub fn element(&self) -> (r: Option<Automaton>)
        ensures
            r == self.spec_element(),
    {
        self.element
    }
}

pub broadcast proof fn lemma_syschange_spec_new(
    x: usize,
    y: usize,
    z: usize,
    element: Option<Automaton>,
)
    ensures
        (#[trigger] SysChange::spec_new(x, y, z, element)).spec_x() == x,
        SysChange::spec_new(x, y, z, element).spec_y() == y,
        SysChange::spec_new(x, y, z, element).spec_z() == z,
        SysChange::spec_new(x, y, z, element).spec_element() == element,
{
}

/// Whether one pending change addresses an in-bounds coordinate of the given
/// extents.
pub open spec fn change_in_bounds(c: SysChange, dims: SystemDims) -> bool {
    &&& c.spec_x() < dims.spec_x()
    &&& c.spec_y() < dims.spec_y()
    &&& c.spec_z() < dims.spec_z()
}

/// The lattice after a whole batch of changes, applied first to last; a later
/// entry at the same coordinate wins.
pub open spec fn spec_apply(
    lat: Seq<Seq<Seq<Option<Automaton>>>>,
    changes: Seq<SysChange>,
) -> Seq<Seq<Seq<Option<Automaton>>>>
    decreases changes.len(),
{
    if changes.len() == 0 {
        lat
    } else {
        let c = changes.last();
        AutoSystem3d::spec_update(
            spec_apply(lat, changes.drop_last()),
            c.spec_x() as int,
            c.spec_y() as int,
            c.spec_z() as int,
            c.spec_element(),
        )
    }
}

/// Applying in-bounds changes keeps the lattice's shape.
pub proof fn lemma_spec_apply_wf(
    lat: Seq<Seq<Seq<Option<Automaton>>>>,
    dims: SystemDims,
    changes: Seq<SysChange>,
)
    requires
        lat.len() == dims.spec_x(),
        forall|i: int| 0 <= i < dims.spec_x() ==> (#[trigger] lat[i]).len() == dims.spec_y(),
        forall|i: int, j: int|
            0 <= i < dims.spec_x() && 0 <= j < dims.spec_y() ==> (#[trigger] lat[i][j]).len()
                == dims.spec_z(),
        forall|t: int| 0 <= t < changes.len() ==> change_in_bounds(#[trigger] changes[t], dims),
    ensures
        spec_apply(lat, changes).len() == dims.spec_x(),
        forall|i: int|
            0 <= i < dims.spec_x() ==> (#[trigger] spec_apply(lat, changes)[i]).len()
                == dims.spec_y(),
        forall|i: int, j: int|
            0 <= i < dims.spec_x() && 0 <= j < dims.spec_y() ==> (#[trigger] spec_apply(
                lat,
                changes,
            )[i][j]).len() == dims.spec_z(),
    decreases changes.len(),
{
    if changes.len() > 0 {
        lemma_spec_apply_wf(lat, dims, changes.drop_last());
    }
}

impl AutoSystem3d {
    /// Commits a whole generation's batch: every change replaces the prior
    /// occupancy at its coordinate, first to last.
    pub fn apply_changes(&mut self, changes: &Vec<SysChange>)
        requires
            exists|dims: SystemDims|
                #[trigger] old(self).wf(dims) && forall|t: int|
                    0 <= t < changes@.len() ==> change_in_bounds(#[trigger] changes@[t], dims),
        ensures
            final(self)@ == spec_apply(old(self)@, changes@),
    {
        let ghost dims = choose|dims: SystemDims|
            #[trigger] old(self).wf(dims) && forall|t: int|
                0 <= t < changes@.len() ==> change_in_bounds(#[trigger] changes@[t], dims);
        let mut t: usize = 0;
        while t < changes.len()
            invariant
                t <= changes@.len(),
                old(self).wf(dims),
                forall|u: int|
                    0 <= u < changes@.len() ==> change_in_bounds(#[trigger] changes@[u], dims),
                self@ == spec_apply(old(self)@, changes@.take(t as int)),
            decreases changes@.len() - t,
        {
            proof {
                lemma_spec_apply_wf(old(self)@, dims, changes@.take(t as int));
                assert(changes@.take(t + 1).drop_last() =~= changes@.take(t as int));
                assert(changes@.take(t + 1).last() == changes@[t as int]);
            }
            let ele = changes[t];
            self.access_xyz((ele.x(), ele.y(), ele.z()), ele.element());
            t = t + 1;
        }
        proof {
            assert(changes@.take(changes@.len() as int) =~= changes@);
        }
    }
}

/// A rule set in the older single-interval form: a cell survives while its
/// neighbour count stays inside [despawn_lower, despawn_upper]; a cell spawns
/// while the count lies inside [spawn_lower, spawn_upper].
#[derive(Debug, Copy, Clone, PartialEq, Eq, Structural)]
pub struct Rules {
    spawn_lower: usize,
    spawn_upper: usize,
    despawn_lower: usize,
    despawn_upper: usize,
    life: isize,
}

impl Rules {
    pub closed spec fn spec_spawn_lower(&self) -> usize {
        self.spawn_lower
    }

    pub closed spec fn spec_spawn_upper(&self) -> usize {
        self.spawn_upper
    }

    pub closed spec fn spec_despawn_lower(&self) -> usize {
        self.despawn_lower
    }

    pub closed spec fn spec_despawn_upper(&self) -> usize {
        self.despawn_upper
    }

    pub closed spec fn spec_life(&self) -> isize {
        self.life
    }

    pub fn new(
        spawn_lower: usize,
        spawn_upper: usize,
        despawn_lower: usize,
        despawn_upper: usize,
        life: isize,
    ) -> (r: Self)
        ensures
            r.spec_spawn_lower() == spawn_lower,
            r.spec_spawn_upper() == spawn_upper,
            r.spec_despawn_lower() == despawn_lower,
            r.spec_despawn_upper() == despawn_upper,
            r.spec_life() == life,
    {
        Self { spawn_lower, spawn_upper, despawn_lower, despawn_upper, life }
    }

    pub fn spawn_lower(&self) -> (r: usize)
        ensures
            r == self.spec_spawn_lower(),
    {
        self.spawn_lower
    }

    pub fn spawn_upper(&self) -> (r: usize)
        ensures
            r == self.spec_spawn_upper(),
    {
        self.spawn_upper
    }

    pub fn despawn_lower(&self) -> (r: usize)
        ensures
            r == self.spec_despawn_lower(),
    {
        self.despawn_lower
    }

    pub fn despawn_upper(&self) -> (r: usize)
        ensures
            r == self.spec_despawn_upper(),
    {
        self.despawn_upper
    }

    pub fn life(&self) -> (r: isize)
        ensures
            r == self.spec_life(),
    {
        self.life
    }
}

impl Default for Rules {
    /// The single-interval counterpart of the survive 5-6, spawn 5-6,
    /// five-state Moore rule.
    fn default() -> (r: Self)
        ensures
            r.spec_spawn_lower() == 4,
            r.spec_spawn_upper() == 7,
            r.spec_despawn_lower() == 5,
            r.spec_despawn_upper() == 6,
            r.spec_life() == 3,
    {
        Self { spawn_lower: 4, spawn_upper: 7, despawn_lower: 5, despawn_upper: 6, life: 3 }
    }
}

} // verus!
