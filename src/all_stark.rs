//! A system of STARKs, one per table, tied together by cross-table lookups,
//! and the per-table sizing of their permutation arguments.
use vstd::prelude::*;

use crate::cross_table_lookup::CrossTableLookup;
use crate::field::canonical;

verus! {

/// The tables of the system.
#[derive(Clone, Copy, Debug, PartialEq, Eq, Structural)]
pub enum Table {
    Cpu,
    Keccak,
}

impl Table {
    pub open spec fn index_spec(self) -> nat {
        match self {
            Table::Cpu => 0,
            Table::Keccak => 1,
        }
    }

    /// The position of this table in per-table vectors.
    pub fn index(self) -> (r: usize)
        ensures
            r == self.index_spec(),
            r < 2,
    {
        match self {
            Table::Cpu => 0,
            Table::Keccak => 1,
        }
    }

    /// The number of tables.
    pub fn num_tables() -> (r: usize)
        ensures
            r == 2,
    {
        2
    }
}

pub struct StarkConfig {
    pub num_challenges: usize,
}

/// What the permutation argument of one STARK depends on: how many column
/// pairs it permutes, and the degree of its constraints.
#[derive(Clone, Copy, Debug, PartialEq, Eq, Structural)]
pub struct StarkShape {
    pub num_permutation_pairs: usize,
    pub constraint_degree: usize,
}

impl StarkShape {
    pub open spec fn wf(&self) -> bool {
        self.constraint_degree >= 2
    }

    pub open spec fn batch_size_spec(&self) -> int {
        self.constraint_degree - 1
    }

    pub open spec fn num_batches_spec(&self, num_challenges: usize) -> int {
        let instances = self.num_permutation_pairs * num_challenges;
        (instances + self.batch_size_spec() - 1) / self.batch_size_spec()
    }

    /// How many permutation polynomials one batch combines: one less than the
    /// constraint degree, so that a batch's product stays within it.
    pub fn permutation_batch_size(&self) -> (r: usize)
        requires
            self.wf(),
        ensures
            r == self.batch_size_spec(),
            r >= 1,
    {
        self.constraint_degree - 1
    }

    /// The number of permutation polynomials `Z`: one per batch of
    /// permutation instances, each pair taken once per challenge.
    pub fn num_permutation_batches(&self, config: &StarkConfig) -> (r: usize)
        requires
            self.wf(),
            self.num_permutation_pairs * config.num_challenges + self.constraint_degree <= usize::MAX,
        ensures
            r == self.num_batches_spec(config.num_challenges),
    {
        let instances = self.num_permutation_pairs * config.num_challenges;
        let b = self.permutation_batch_size();
        (instances + b - 1) / b
    }
}

#[derive(Clone, Copy, Debug, PartialEq, Eq, Structural)]
pub enum AllStarkError {
    /// A lookup's column lists or default row differ in length.
    ConfigMismatch,
}

pub struct AllStark {
    pub cpu_stark: StarkShape,
    pub keccak_stark: StarkShape,
    pub cross_table_lookups: Vec<CrossTableLookup>,
}

impl AllStark {
    /// A system whose lookups are all well formed; a lookup whose column
    /// lists or default row differ in length is rejected here.
    pub fn new(cpu_stark: StarkShape, keccak_stark: StarkShape, cross_table_lookups: Vec<CrossTableLookup>) -> (r:
        Result<AllStark, AllStarkError>)
        requires
            forall|i: int| 0 <= i < cross_table_lookups@.len() ==> forall|k: int|
                0 <= k < (#[trigger] cross_table_lookups@[i]).default@.len() ==> canonical(
                    #[trigger] cross_table_lookups@[i].default@[k],
                ),
        ensures
            r is Ok <==> forall|i: int| 0 <= i < cross_table_lookups@.len() ==> (#[trigger] cross_table_lookups@[i]).wf(),
            r matches Ok(a) ==> a.cpu_stark == cpu_stark && a.keccak_stark == keccak_stark && a.cross_table_lookups@
                == cross_table_lookups@,
    {
        let mut i: usize = 0;
        while i < cross_table_lookups.len()
            invariant
                i <= cross_table_lookups@.len(),
                forall|j: int| 0 <= j < i ==> (#[trigger] cross_table_lookups@[j]).wf(),
                forall|j: int| 0 <= j < cross_table_lookups@.len() ==> forall|k: int|
                    0 <= k < (#[trigger] cross_table_lookups@[j]).default@.len() ==> canonical(
                        #[trigger] cross_table_lookups@[j].default@[k],
                    ),
            decreases cross_table_lookups@.len() - i,
        {
            let c = &cross_table_lookups[i];
            if c.looking_columns.len() != c.looked_columns.len() || c.looked_columns.len() != c.default.len() {
                return Err(AllStarkError::ConfigMismatch);
            }
            i = i + 1;
        }
        Ok(AllStark { cpu_stark, keccak_stark, cross_table_lookups })
    }

    /// Every lookup has column lists and a default row of one length, and
    /// both STARKs' permutation sizing fits a `usize`.
    pub open spec fn wf(&self, config: &StarkConfig) -> bool {
        &&& forall|i: int| 0 <= i < self.cross_table_lookups@.len() ==> (#[trigger] self.cross_table_lookups@[i]).wf()
        &&& self.cpu_stark.wf()
        &&& self.keccak_stark.wf()
        &&& self.cpu_stark.num_permutation_pairs * config.num_challenges + self.cpu_stark.constraint_degree
            <= usize::MAX
        &&& self.keccak_stark.num_permutation_pairs * config.num_challenges + self.keccak_stark.constraint_degree
            <= usize::MAX
    }

    /// The number of permutation polynomials of each table, in table order.
    pub fn nums_permutation_zs(&self, config: &StarkConfig) -> (r: Vec<usize>)
        requires
            self.wf(config),
        ensures
            r@.len() == Table::Keccak.index_spec() + 1,
            r@[Table::Cpu.index_spec() as int] == self.cpu_stark.num_batches_spec(config.num_challenges),
            r@[Table::Keccak.index_spec() as int] == self.keccak_stark.num_batches_spec(config.num_challenges),
    {
        vec![self.cpu_stark.num_permutation_batches(config), self.keccak_stark.num_permutation_batches(config)]
    }

    /// The permutation batch size of each table, in table order.
    pub fn permutation_batch_sizes(&self) -> (r: Vec<usize>)
        requires
            self.cpu_stark.wf(),
            self.keccak_stark.wf(),
        ensures
            r@.len() == Table::Keccak.index_spec() + 1,
            r@[Table::Cpu.index_spec() as int] == self.cpu_stark.batch_size_spec(),
            r@[Table::Keccak.index_spec() as int] == self.keccak_stark.batch_size_spec(),
    {
        vec![self.cpu_stark.permutation_batch_size(), self.keccak_stark.permutation_batch_size()]
    }
}

} // verus!
