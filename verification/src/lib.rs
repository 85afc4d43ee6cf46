use vstd::prelude::*;

pub mod cli;
pub mod rules;
pub mod system;
pub mod update;

use crate::system::SystemDims;

verus! {

/// Converts three unsigned coordinates to their signed form.
pub fn isizify3(i: usize, j: usize, k: usize) -> (r: (isize, isize, isize))
    requires
        i <= isize::MAX,
        j <= isize::MAX,
        k <= isize::MAX,
    ensures
        r.0 == i as isize,
        r.1 == j as isize,
        r.2 == k as isize,
{
    (i as isize, j as isize, k as isize)
}

/// Immutable configuration derived once at startup: the lattice extents, the
/// absolute population bounds of the growth hysteresis, and the preallocation
/// sizes for the whole lattice and for one partition.
#[derive(Clone)]
pub struct GlobalStatic {
    dims: SystemDims,
    minimum: isize,
    maximum: isize,
    max_amount: usize,
    max_amount_per_thread: usize,
}

impl GlobalStatic {
    pub closed spec fn spec_dims(&self) -> SystemDims {
        self.dims
    }

    pub closed spec fn spec_minimum(&self) -> isize {
        self.minimum
    }

    pub closed spec fn spec_maximum(&self) -> isize {
        self.maximum
    }

    pub closed spec fn spec_max_amount(&self) -> usize {
        self.max_amount
    }

    pub closed spec fn spec_max_amount_per_thread(&self) -> usize {
        self.max_amount_per_thread
    }

    /// `parallelism` is the caller's hardware-parallelism hint; it only sizes
    /// the per-partition preallocation.
    pub fn new(dims: SystemDims, minimum: isize, maximum: isize, parallelism: usize) -> (r: Self)
        requires
            parallelism >= 1,
            dims.spec_x() * dims.spec_y() <= usize::MAX,
            dims.spec_x() * dims.spec_y() * dims.spec_z() <= usize::MAX,
        ensures
            r.spec_dims() == dims,
            r.spec_minimum() == minimum,
            r.spec_maximum() == maximum,
            r.spec_max_amount() == dims.spec_x() * dims.spec_y() * dims.spec_z(),
            r.spec_max_amount_per_thread() == r.spec_max_amount() as int / parallelism as int,
    {
        let max_amount = dims.max_amount();
        Self {
            dims,
            minimum,
            maximum,
            max_amount,
            max_amount_per_thread: max_amount / parallelism,
        }
    }

    pub fn dims(&self) -> (r: SystemDims)
        ensures
            r == self.spec_dims(),
    {
        self.dims
    }

    pub fn minimum(&self) -> (r: isize)
        ensures
            r == self.spec_minimum(),
    {
        self.minimum
    }

    pub fn maximum(&self) -> (r: isize)
        ensures
            r == self.spec_maximum(),
    {
        self.maximum
    }

    pub fn max_amount(&self) -> (r: usize)
        ensures
            r == self.spec_max_amount(),
    {
        self.max_amount
    }

    pub fn max_amount_per_thread(&self) -> (r: usize)
        ensures
            r == self.spec_max_amount_per_thread(),
    {
        self.max_amount_per_thread
    }
}

/// The run's mutable counters: the RNG seed, the accumulated net population,
/// the growth flag of the hysteresis, and the generation count.
pub struct GlobalData {
    seed: u64,
    amount: isize,
    growth: bool,
    generation: usize,
}

impl GlobalData {
    pub closed spec fn spec_seed(&self) -> u64 {
        self.seed
    }

    pub closed spec fn spec_amount(&self) -> isize {
        self.amount
    }

    pub closed spec fn spec_growth(&self) -> bool {
        self.growth
    }

    pub closed spec fn spec_generation(&self) -> usize {
        self.generation
    }

    pub fn new(seed: u64) -> (r: Self)
        ensures
            r.spec_seed() == seed,
            r.spec_amount() == 0,
            r.spec_growth(),
            r.spec_generation() == 0,
    {
        Self { seed, amount: 0, growth: true, generation: 0 }
    }

    pub fn seed(&self) -> (r: u64)
        ensures
            r == self.spec_seed(),
    {
        self.seed
    }

    pub fn set_seed(&mut self, seed: u64)
        ensures
            final(self).spec_seed() == seed,
            final(self).spec_amount() == old(self).spec_amount(),
            final(self).spec_growth() == old(self).spec_growth(),
            final(self).spec_generation() == old(self).spec_generation(),
    {
        self.seed = seed;
    }

    pub fn increase(&mut self, n: isize)
        requires
            isize::MIN <= old(self).spec_amount() + n <= isize::MAX,
        ensures
            final(self).spec_amount() == old(self).spec_amount() + n,
            final(self).spec_seed() == old(self).spec_seed(),
            final(self).spec_growth() == old(self).spec_growth(),
            final(self).spec_generation() == old(self).spec_generation(),
    {
        self.amount += n;
    }

    pub fn decrease(&mut self, n: isize)
        requires
            isize::MIN <= old(self).spec_amount() - n <= isize::MAX,
        ensures
            final(self).spec_amount() == old(self).spec_amount() - n,
            final(self).spec_seed() == old(self).spec_seed(),
            final(self).spec_growth() == old(self).spec_growth(),
            final(self).spec_generation() == old(self).spec_generation(),
    {
        self.amount -= n;
    }

    pub fn amount(&self) -> (r: isize)
        ensures
            r == self.spec_amount(),
    {
        self.amount
    }

    pub fn set_growth(&mut self)
        ensures
            final(self).spec_growth(),
            final(self).spec_seed() == old(self).spec_seed(),
            final(self).spec_amount() == old(self).spec_amount(),
            final(self).spec_generation() == old(self).spec_generation(),
    {
        self.growth = true;
    }

    pub fn unset_growth(&mut self)
        ensures
            !final(self).spec_growth(),
            final(self).spec_seed() == old(self).spec_seed(),
            final(self).spec_amount() == old(self).spec_amount(),
            final(self).spec_generation() == old(self).spec_generation(),
    {
        self.growth = false;
    }

    pub fn growth(&self) -> (r: bool)
        ensures
            r == self.spec_growth(),
    {
        self.growth
    }

    pub fn generation(&self) -> (r: usize)
        ensures
            r == self.spec_generation(),
    {
        self.generation
    }

    pub fn advance_gen(&mut self)
        requires
            old(self).spec_generation() < usize::MAX,
        ensures
            final(self).spec_generation() == old(self).spec_generation() + 1,
            final(self).spec_seed() == old(self).spec_seed(),
            final(self).spec_amount() == old(self).spec_amount(),
            final(self).spec_growth() == old(self).spec_growth(),
    {
        self.generation += 1;
    }
}

} // verus!
