//! The partial assignment of trace cells that witness generation fills.
use vstd::prelude::*;

use crate::field::canonical;

verus! {

/// A trace cell: a column of a row.
#[derive(Clone, Copy, Debug, PartialEq, Eq, Structural)]
pub struct Wire {
    pub row: usize,
    pub column: usize,
}

#[derive(Clone, Copy, Debug, PartialEq, Eq, Structural)]
pub enum WitnessError {
    /// The cell lies outside the trace.
    OutOfRange,
    /// The cell already holds a different value.
    Conflict,
}

/// A write-once assignment of field values to the cells of a trace with
/// `num_rows` rows of `num_wires` columns, stored row after row.
pub struct PartitionWitness {
    pub num_rows: usize,
    pub num_wires: usize,
    pub values: Vec<Option<u64>>,
}

pub open spec fn in_range(num_rows: usize, num_wires: usize, w: Wire) -> bool {
    w.row < num_rows && w.column < num_wires
}

pub open spec fn cell_index(num_wires: usize, w: Wire) -> int {
    w.row * num_wires + w.column
}

/// The value of cell `w` in the row-major cells of a trace.
pub open spec fn cell_value(num_rows: usize, num_wires: usize, cells: Seq<Option<u64>>, w: Wire) -> Option<u64> {
    if in_range(num_rows, num_wires, w) {
        cells[cell_index(num_wires, w)]
    } else {
        None
    }
}

/// The cells after writing `v` into cell `w`: unchanged when `w` already
/// holds `v`, refused when it holds another value or lies outside the trace.
pub open spec fn set_spec(num_rows: usize, num_wires: usize, cells: Seq<Option<u64>>, w: Wire, v: u64) -> Result<
    Seq<Option<u64>>,
    WitnessError,
> {
    if !in_range(num_rows, num_wires, w) {
        Err(WitnessError::OutOfRange)
    } else {
        match cells[cell_index(num_wires, w)] {
            Some(x) => if x == v {
                Ok(cells)
            } else {
                Err(WitnessError::Conflict)
            },
            None => Ok(cells.update(cell_index(num_wires, w), Some(v))),
        }
    }
}

impl PartitionWitness {
    pub open spec fn wf(&self) -> bool {
        &&& self.values@.len() == self.num_rows * self.num_wires
        &&& forall|i: int| 0 <= i < self.values@.len() && (#[trigger] self.values@[i]) is Some ==> canonical(
            self.values@[i]->Some_0,
        )
    }

    /// The value of cell `w`, if assigned.
    pub open spec fn value(&self, w: Wire) -> Option<u64> {
        cell_value(self.num_rows, self.num_wires, self.values@, w)
    }

    pub fn new(num_rows: usize, num_wires: usize) -> (r: PartitionWitness)
        requires
            num_rows * num_wires <= usize::MAX,
        ensures
            r.wf(),
            r.num_rows == num_rows,
            r.num_wires == num_wires,
            forall|w: Wire| #[trigger] r.value(w) is None,
    {
        let n = num_rows * num_wires;
        let mut values: Vec<Option<u64>> = Vec::new();
        let mut i: usize = 0;
        while i < n
            invariant
                i <= n,
                values@.len() == i,
                forall|k: int| 0 <= k < i ==> (#[trigger] values@[k]) is None,
            decreases n - i,
        {
            values.push(None);
            i = i + 1;
        }
        let r = PartitionWitness { num_rows, num_wires, values };
        assert forall|w: Wire| #[trigger] r.value(w) is None by {
            if in_range(num_rows, num_wires, w) {
                lemma_cell_index_bound(num_rows, num_wires, w);
            }
        }
        r
    }

    pub fn try_get(&self, w: Wire) -> (r: Option<u64>)
        requires
            self.wf(),
        ensures
            r == self.value(w),
            r matches Some(x) ==> canonical(x),
    {
        let n = self.values.len();
        if w.row < self.num_rows && w.column < self.num_wires {
            proof {
                lemma_cell_index_bound(self.num_rows, self.num_wires, w);
            }
            self.values[w.row * self.num_wires + w.column]
        } else {
            None
        }
    }

    /// Assigns `v` to cell `w`. Writing the value that a cell already holds
    /// changes nothing; writing a different one is refused.
    pub fn set(&mut self, w: Wire, v: u64) -> (r: Result<(), WitnessError>)
        requires
            old(self).wf(),
            canonical(v),
        ensures
            final(self).wf(),
            final(self).num_rows == old(self).num_rows,
            final(self).num_wires == old(self).num_wires,
            match set_spec(old(self).num_rows, old(self).num_wires, old(self).values@, w, v) {
                Ok(next) => r is Ok && final(self).values@ == next,
                Err(e) => r == Err::<(), WitnessError>(e) && final(self).values@ == old(self).values@,
            },
            r is Ok ==> final(self).value(w) == Some(v),
            forall|u: Wire| u != w ==> #[trigger] final(self).value(u) == old(self).value(u),
    {
        let n = self.values.len();
        if !(w.row < self.num_rows && w.column < self.num_wires) {
            return Err(WitnessError::OutOfRange);
        }
        proof {
            lemma_cell_index_bound(self.num_rows, self.num_wires, w);
        }
        let idx = w.row * self.num_wires + w.column;
        match self.values[idx] {
            Some(x) => {
                if x == v {
                    Ok(())
                } else {
                    Err(WitnessError::Conflict)
                }
            },
            None => {
                self.values.set(idx, Some(v));
                proof {
                    assert forall|u: Wire| u != w implies #[trigger] self.value(u) == old(self).value(u) by {
                        if in_range(self.num_rows, self.num_wires, u) {
                            lemma_cell_index_injective(self.num_rows, self.num_wires, u, w);
                            lemma_cell_index_bound(self.num_rows, self.num_wires, u);
                            assert(self.values@ == old(self).values@.update(idx as int, Some(v)));
                            assert(cell_index(self.num_wires, w) == idx as int);
                            assert(self.values@[cell_index(self.num_wires, u)] == old(self).values@[cell_index(self.num_wires, u)]);
                        }
                    }
                }
                Ok(())
            },
        }
    }

    /// Every assigned cell of `self` holds the same value in `other`.
    pub open spec fn extended_by(&self, other: &PartitionWitness) -> bool {
        &&& self.num_rows == other.num_rows
        &&& self.num_wires == other.num_wires
        &&& forall|w: Wire| #[trigger] self.value(w) is Some ==> other.value(w) == self.value(w)
    }

    /// Assigns each `(cell, value)` pair in turn; stops at the first refusal.
    pub fn set_all(&mut self, assignments: &Vec<(Wire, u64)>) -> (r: Result<(), WitnessError>)
        requires
            old(self).wf(),
            forall|i: int| 0 <= i < assignments@.len() ==> canonical(#[trigger] assignments@[i].1),
        ensures
            final(self).wf(),
            final(self).num_rows == old(self).num_rows,
            final(self).num_wires == old(self).num_wires,
            old(self).extended_by(final(self)),
            r is Err ==> exists|i: int|
                0 <= i < assignments@.len() && #[trigger] set_spec(
                    final(self).num_rows,
                    final(self).num_wires,
                    final(self).values@,
                    assignments@[i].0,
                    assignments@[i].1,
                ) is Err,
            r is Ok ==> forall|i: int| 0 <= i < assignments@.len() ==> final(self).value(
                (#[trigger] assignments@[i]).0,
            ) == Some(assignments@[i].1),
    {
        let mut i: usize = 0;
        while i < assignments.len()
            invariant
                i <= assignments@.len(),
                self.wf(),
                self.num_rows == old(self).num_rows,
                self.num_wires == old(self).num_wires,
                old(self).extended_by(self),
                forall|k: int| 0 <= k < assignments@.len() ==> canonical(#[trigger] assignments@[k].1),
                forall|k: int| 0 <= k < i ==> self.value((#[trigger] assignments@[k]).0) == Some(assignments@[k].1),
            decreases assignments@.len() - i,
        {
            let (w, v) = assignments[i];
            let ghost before = *self;
            match self.set(w, v) {
                Ok(()) => {},
                Err(e) => {
                    proof {
                        assert(set_spec(self.num_rows, self.num_wires, self.values@, assignments@[i as int].0, assignments@[i as int].1) is Err);
                    }
                    return Err(e);
                },
            }
            proof {
                assert forall|u: Wire| #[trigger] old(self).value(u) is Some implies self.value(u) == old(self).value(u) by {
                    if u != w {
                        assert(self.value(u) == before.value(u));
                    } else {
                        assert(before.value(u) == old(self).value(u));
                    }
                }
                assert forall|k: int| 0 <= k < i + 1 implies self.value((#[trigger] assignments@[k]).0) == Some(
                    assignments@[k].1,
                ) by {
                    if k < i && assignments@[k].0 != w {
                        assert(self.value(assignments@[k].0) == before.value(assignments@[k].0));
                    }
                }
            }
            i = i + 1;
        }
        Ok(())
    }
}

pub proof fn lemma_cell_index_bound(num_rows: usize, num_wires: usize, w: Wire)
    requires
        in_range(num_rows, num_wires, w),
    ensures
        0 <= cell_index(num_wires, w) < num_rows * num_wires,
{
    assert(w.row * num_wires + w.column < num_rows * num_wires) by (nonlinear_arith)
        requires
            w.row < num_rows,
            w.column < num_wires,
    ;
}

pub proof fn lemma_cell_index_injective(num_rows: usize, num_wires: usize, u: Wire, w: Wire)
    requires
        in_range(num_rows, num_wires, u),
        in_range(num_rows, num_wires, w),
        u != w,
    ensures
        cell_index(num_wires, u) != cell_index(num_wires, w),
{
    if u.row == w.row {
        assert(u.column != w.column);
    } else if u.row < w.row {
        assert(u.row * num_wires + u.column < w.row * num_wires) by (nonlinear_arith)
            requires
                u.row < w.row,
                u.column < num_wires,
        ;
    } else {
        assert(w.row * num_wires + w.column < u.row * num_wires) by (nonlinear_arith)
            requires
                w.row < u.row,
                w.column < num_wires,
        ;
    }
}

/// A generator re-run after its outputs are written never overwrites a cell
/// with a different value: writing the same value again is a no-op, and a
/// different value is refused.
pub proof fn lemma_set_idempotent(num_rows: usize, num_wires: usize, cells: Seq<Option<u64>>, w: Wire, v: u64, v2: u64)
    requires
        cells.len() == num_rows * num_wires,
        set_spec(num_rows, num_wires, cells, w, v) is Ok,
    ensures
        ({
            let next = set_spec(num_rows, num_wires, cells, w, v)->Ok_0;
            &&& cell_value(num_rows, num_wires, next, w) == Some(v)
            &&& set_spec(num_rows, num_wires, next, w, v) == Ok::<Seq<Option<u64>>, WitnessError>(next)
            &&& v2 != v ==> set_spec(num_rows, num_wires, next, w, v2) == Err::<Seq<Option<u64>>, WitnessError>(
                WitnessError::Conflict,
            )
        }),
{
    lemma_cell_index_bound(num_rows, num_wires, w);
}

} // verus!
