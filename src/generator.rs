//! Witness generation: generators derive unknown cells from known ones, and a
//! scheduler runs every generator whose inputs are assigned until none is
//! left or a full pass makes no progress.
use vstd::prelude::*;

use crate::biguint::{all_limbs, operand_from_witness, product_assignments, MulBigUintGenerator};
use crate::field::canonical;
use crate::keccak256_mini::{calc_xor5_spec, xor5_inputs_spec, Xor5Generator};
use crate::low_degree_interpolation::{cell, InterpolationGenerator};
use crate::witness::{set_spec, PartitionWitness, Wire};

verus! {

/// The generators of the gates of this library.
#[derive(Clone, Copy, Debug, PartialEq, Eq, Structural)]
pub enum WitnessGenerator {
    Xor5(Xor5Generator),
    MulBigUint(MulBigUintGenerator),
    Interpolation(InterpolationGenerator),
}

#[derive(Clone, Copy, Debug, PartialEq, Eq, Structural)]
pub enum GeneratorError {
    /// A full pass ran no generator, yet some are still waiting for inputs:
    /// a generator is missing or the dependencies form a cycle.
    UnsatisfiedGenerator,
    /// A generator would overwrite a cell with a different value, or write
    /// outside the trace.
    Conflict,
    /// An input of a multi-limb generator does not fit its limb width.
    LimbOverflow,
}

impl WitnessGenerator {
    pub open spec fn wf(&self) -> bool {
        match self {
            WitnessGenerator::Xor5(_) => true,
            WitnessGenerator::MulBigUint(g) => g.gate.wf(),
            WitnessGenerator::Interpolation(g) => g.gate.wf(),
        }
    }

    /// What the generator writes given the witness, or `None` while one of
    /// its inputs is unassigned.
    pub open spec fn outputs_spec(&self, wit: &PartitionWitness) -> Option<Seq<(Wire, u64)>> {
        match self {
            WitnessGenerator::Xor5(g) => match xor5_inputs_spec(wit, g.row) {
                Some(inputs) => Some(
                    seq![
                        (Wire { row: g.row, column: 10 }, calc_xor5_spec(inputs).c0),
                        (Wire { row: g.row, column: 11 }, calc_xor5_spec(inputs).c1),
                    ],
                ),
                None => None,
            },
            WitnessGenerator::MulBigUint(g) => match (
                operand_from_witness(wit, g.row, 0, g.gate.multiplicand0_num_limbs as int),
                operand_from_witness(
                    wit,
                    g.row,
                    g.gate.multiplicand0_num_limbs as int,
                    g.gate.multiplicand1_num_limbs as int,
                ),
            ) {
                (Some(m0), Some(m1)) => if all_limbs(m0) && all_limbs(m1) {
                    Some(product_assignments(g.gate, g.row, m0, m1))
                } else {
                    None
                },
                _ => None,
            },
            WitnessGenerator::Interpolation(g) => match g.gate.inputs_spec(wit, g.row) {
                Some(inp) => Some(g.gate.assignments_spec(g.row, inp.0, inp.1, inp.2)),
                None => None,
            },
        }
    }

    /// The inputs are all assigned but one of them is unfit for the generator
    /// (a multiplicand wire that holds `2^32` or more).
    pub open spec fn rejects(&self, wit: &PartitionWitness) -> bool {
        match self {
            WitnessGenerator::MulBigUint(g) => match (
                operand_from_witness(wit, g.row, 0, g.gate.multiplicand0_num_limbs as int),
                operand_from_witness(
                    wit,
                    g.row,
                    g.gate.multiplicand0_num_limbs as int,
                    g.gate.multiplicand1_num_limbs as int,
                ),
            ) {
                (Some(m0), Some(m1)) => !(all_limbs(m0) && all_limbs(m1)),
                _ => false,
            },
            _ => false,
        }
    }

    pub fn run_once(&self, witness: &PartitionWitness) -> (r: Result<Option<Vec<(Wire, u64)>>, GeneratorError>)
        requires
            witness.wf(),
            self.wf(),
        ensures
            self.rejects(witness) ==> r == Err::<Option<Vec<(Wire, u64)>>, GeneratorError>(GeneratorError::LimbOverflow),
            !self.rejects(witness) ==> match self.outputs_spec(witness) {
                Some(s) => r matches Ok(Some(v)) && v@ == s,
                None => r == Ok::<Option<Vec<(Wire, u64)>>, GeneratorError>(None),
            },
            r matches Ok(Some(v)) ==> forall|i: int| 0 <= i < v@.len() ==> canonical(#[trigger] v@[i].1),
    {
        match self {
            WitnessGenerator::Xor5(g) => Ok(g.run_once(witness)),
            WitnessGenerator::MulBigUint(g) => g.run_once(witness),
            WitnessGenerator::Interpolation(g) => Ok(g.run_once(witness)),
        }
    }

    /// Once its inputs are assigned, a generator's outputs do not change as
    /// the witness grows.
    pub proof fn lemma_outputs_stable(&self, a: &PartitionWitness, b: &PartitionWitness)
        requires
            a.extended_by(b),
            self.outputs_spec(a) is Some,
        ensures
            self.outputs_spec(b) == self.outputs_spec(a),
    {
        match self {
            WitnessGenerator::Xor5(g) => {
                let row = g.row;
                assert forall|c: usize| c < 10 implies (#[trigger] b.value(Wire { row, column: c })) == a.value(
                    Wire { row, column: c },
                ) by {
                    assert(a.value(Wire { row, column: c }) is Some);
                }
                assert(xor5_inputs_spec(b, row)->Some_0 =~= xor5_inputs_spec(a, row)->Some_0);
            },
            WitnessGenerator::MulBigUint(g) => {
                let row = g.row;
                let n0 = g.gate.multiplicand0_num_limbs as int;
                let n1 = g.gate.multiplicand1_num_limbs as int;
                lemma_operand_stable(a, b, row, 0, n0);
                lemma_operand_stable(a, b, row, n0, n1);
            },
            WitnessGenerator::Interpolation(g) => {
                let row = g.row;
                let gate = g.gate;
                let len = 1 + gate.n() * 2 + 2;
                assert forall|c: int| 0 <= c < len implies (#[trigger] b.value(Wire { row, column: c as usize }))
                    == a.value(Wire { row, column: c as usize }) by {
                    assert(a.value(Wire { row, column: c as usize }) is Some);
                }
                assert(gate.inputs_present(b, row));
                assert forall|c: int| 0 <= c < len implies #[trigger] cell(b, row, c) == cell(a, row, c) by {
                    assert(b.value(Wire { row, column: c as usize }) == a.value(Wire { row, column: c as usize }));
                }
                let ia = gate.inputs_spec(a, row)->Some_0;
                let ib = gate.inputs_spec(b, row)->Some_0;
                assert(ib.2 =~= ia.2);
            },
        }
    }
}

proof fn lemma_operand_stable(a: &PartitionWitness, b: &PartitionWitness, row: usize, start: int, len: int)
    requires
        a.extended_by(b),
        0 <= start,
        0 <= len,
        operand_from_witness(a, row, start, len) is Some,
    ensures
        operand_from_witness(b, row, start, len) == operand_from_witness(a, row, start, len),
{
    assert(forall|i: int| 0 <= i < len ==> (#[trigger] a.value(Wire { row, column: (start + i) as usize })) is Some);
    assert forall|i: int| 0 <= i < len implies (#[trigger] b.value(Wire { row, column: (start + i) as usize }))
        == a.value(Wire { row, column: (start + i) as usize }) by {
        assert(a.value(Wire { row, column: (start + i) as usize }) is Some);
    }
    assert(forall|i: int| 0 <= i < len ==> (#[trigger] b.value(Wire { row, column: (start + i) as usize })) is Some);
    assert(operand_from_witness(b, row, start, len) is Some);
    let sa = operand_from_witness(a, row, start, len)->Some_0;
    let sb = operand_from_witness(b, row, start, len)->Some_0;
    assert forall|i: int| 0 <= i < len implies sb[i] == sa[i] by {
        assert(b.value(Wire { row, column: (start + i) as usize }) == a.value(Wire { row, column: (start + i) as usize }));
    }
    assert(sb.len() == len && sa.len() == len);
    assert(sb =~= sa);
}

/// The generator has run: its inputs are assigned and its outputs hold what
/// it computes from them.
pub open spec fn satisfied(g: WitnessGenerator, wit: &PartitionWitness) -> bool {
    &&& g.outputs_spec(wit) is Some
    &&& forall|k: int|
        0 <= k < g.outputs_spec(wit)->Some_0.len() ==> wit.value((#[trigger] g.outputs_spec(wit)->Some_0[k]).0)
            == Some(g.outputs_spec(wit)->Some_0[k].1)
}

proof fn lemma_satisfied_stable(g: WitnessGenerator, a: &PartitionWitness, b: &PartitionWitness)
    requires
        a.extended_by(b),
        satisfied(g, a),
    ensures
        satisfied(g, b),
{
    g.lemma_outputs_stable(a, b);
    let s = g.outputs_spec(a)->Some_0;
    assert forall|k: int| 0 <= k < s.len() implies b.value((#[trigger] s[k]).0) == Some(s[k].1) by {
        assert(a.value(s[k].0) == Some(s[k].1));
    }
}

/// The number of generators among the first `k` that have not run.
pub open spec fn count_pending(done: Seq<bool>, k: int) -> nat
    decreases k,
{
    if k <= 0 {
        0
    } else {
        count_pending(done, k - 1) + if done[k - 1] {
            0nat
        } else {
            1nat
        }
    }
}

proof fn lemma_count_pending_set(done: Seq<bool>, k: int, i: int)
    requires
        0 <= i < k <= done.len(),
        !done[i],
    ensures
        count_pending(done.update(i, true), k) + 1 == count_pending(done, k),
    decreases k,
{
    if k - 1 > i {
        lemma_count_pending_set(done, k - 1, i);
    } else {
        lemma_count_pending_frame(done, done.update(i, true), i);
    }
}

proof fn lemma_count_pending_frame(a: Seq<bool>, b: Seq<bool>, k: int)
    requires
        0 <= k <= a.len(),
        k <= b.len(),
        forall|j: int| 0 <= j < k ==> a[j] == b[j],
    ensures
        count_pending(a, k) == count_pending(b, k),
    decreases k,
{
    if k > 0 {
        lemma_count_pending_frame(a, b, k - 1);
    }
}

proof fn lemma_count_pending_zero(done: Seq<bool>, k: int, j: int)
    requires
        0 <= j < k <= done.len(),
        count_pending(done, k) == 0,
    ensures
        done[j],
    decreases k,
{
    if j < k - 1 {
        lemma_count_pending_zero(done, k - 1, j);
    }
}

proof fn lemma_count_pending_witness(done: Seq<bool>, k: int) -> (j: int)
    requires
        0 <= k <= done.len(),
        count_pending(done, k) > 0,
    ensures
        0 <= j < k,
        !done[j],
    decreases k,
{
    if !done[k - 1] {
        k - 1
    } else {
        lemma_count_pending_witness(done, k - 1)
    }
}

proof fn lemma_all_pending(done: Seq<bool>, k: int)
    requires
        0 <= k <= done.len(),
        forall|j: int| 0 <= j < k ==> !done[j],
    ensures
        count_pending(done, k) == k,
    decreases k,
{
    if k > 0 {
        lemma_all_pending(done, k - 1);
    }
}

proof fn lemma_count_pending_bound(done: Seq<bool>, k: int)
    requires
        0 <= k <= done.len(),
    ensures
        count_pending(done, k) <= k,
    decreases k,
{
    if k > 0 {
        lemma_count_pending_bound(done, k - 1);
    }
}

proof fn lemma_extends_trans(a: PartitionWitness, b: PartitionWitness, c: PartitionWitness)
    requires
        a.extended_by(&b),
        b.extended_by(&c),
    ensures
        a.extended_by(&c),
{
    assert forall|w: Wire| #[trigger] a.value(w) is Some implies c.value(w) == a.value(w) by {
        assert(b.value(w) == a.value(w));
    }
}

/// Runs the generators to a fixpoint. Succeeds once every generator has run,
/// its outputs written; fails when a full pass runs none while some still
/// wait for inputs, or when a write is refused. Cells already assigned keep
/// their values throughout.
pub fn generate_partial_witness(witness: &mut PartitionWitness, generators: &Vec<WitnessGenerator>) -> (r: Result<
    (),
    GeneratorError,
>)
    requires
        old(witness).wf(),
        forall|i: int| 0 <= i < generators@.len() ==> (#[trigger] generators@[i]).wf(),
    ensures
        final(witness).wf(),
        old(witness).extended_by(final(witness)),
        r is Ok ==> forall|i: int| 0 <= i < generators@.len() ==> satisfied(#[trigger] generators@[i], final(witness)),
        r == Err::<(), GeneratorError>(GeneratorError::UnsatisfiedGenerator) ==> exists|i: int|
            0 <= i < generators@.len() && (#[trigger] generators@[i]).outputs_spec(final(witness)) is None
                && !generators@[i].rejects(final(witness)),
        r == Err::<(), GeneratorError>(GeneratorError::LimbOverflow) ==> exists|i: int|
            0 <= i < generators@.len() && (#[trigger] generators@[i]).rejects(final(witness)),
        r == Err::<(), GeneratorError>(GeneratorError::Conflict) ==> exists|i: int, k: int|
            0 <= i < generators@.len() && generators@[i].outputs_spec(final(witness)) is Some && 0 <= k
                < generators@[i].outputs_spec(final(witness))->Some_0.len() && set_spec(
                final(witness).num_rows,
                final(witness).num_wires,
                final(witness).values@,
                (#[trigger] generators@[i].outputs_spec(final(witness))->Some_0[k]).0,
                generators@[i].outputs_spec(final(witness))->Some_0[k].1,
            ) is Err,
{
    let n = generators.len();
    let mut done: Vec<bool> = Vec::new();
    let mut k: usize = 0;
    while k < n
        invariant
            k <= n,
            done@.len() == k,
            forall|j: int| 0 <= j < k ==> !(#[trigger] done@[j]),
        decreases n - k,
    {
        done.push(false);
        k = k + 1;
    }
    let mut remaining: usize = n;
    let ghost start = *witness;
    proof {
        assert(count_pending(done@, n as int) == n) by {
            lemma_all_pending(done@, n as int);
        }
    }
    loop
        invariant
            n == generators@.len(),
            done@.len() == n,
            forall|i: int| 0 <= i < n ==> (#[trigger] generators@[i]).wf(),
            witness.wf(),
            start.extended_by(witness),
            start == *old(witness),
            remaining <= n,
            remaining == count_pending(done@, n as int),
            forall|i: int| 0 <= i < n && #[trigger] done@[i] ==> satisfied(generators@[i], witness),
        decreases remaining,
    {
        let mut progress = false;
        let ghost pass_start = *witness;
        let ghost rem_start = remaining;
        let mut i: usize = 0;
        while i < n
            invariant
                n == generators@.len(),
                done@.len() == n,
                i <= n,
                forall|j: int| 0 <= j < n ==> (#[trigger] generators@[j]).wf(),
                witness.wf(),
                start.extended_by(witness),
                start == *old(witness),
                pass_start.extended_by(witness),
                remaining <= n,
                remaining == count_pending(done@, n as int),
                forall|j: int| 0 <= j < n && #[trigger] done@[j] ==> satisfied(generators@[j], witness),
                !progress ==> *witness == pass_start,
                !progress ==> forall|j: int|
                    0 <= j < i && !done@[j] ==> (#[trigger] generators@[j]).outputs_spec(witness) is None
                        && !generators@[j].rejects(witness),
                remaining <= rem_start,
                progress ==> remaining < rem_start,
            decreases n - i,
        {
            if !done[i] {
                match generators[i].run_once(witness) {
                    Err(e) => {
                        return Err(e);
                    },
                    Ok(None) => {},
                    Ok(Some(v)) => {
                        let ghost before = *witness;
                        match witness.set_all(&v) {
                            Ok(()) => {},
                            Err(_) => {
                                proof {
                                    lemma_extends_trans(start, before, *witness);
                                    generators@[i as int].lemma_outputs_stable(&before, witness);
                                    let k = choose|k: int|
                                        0 <= k < v@.len() && #[trigger] set_spec(
                                            witness.num_rows,
                                            witness.num_wires,
                                            witness.values@,
                                            v@[k].0,
                                            v@[k].1,
                                        ) is Err;
                                    assert(generators@[i as int].outputs_spec(witness) == Some(v@));
                                }
                                return Err(GeneratorError::Conflict);
                            },
                        }
                        proof {
                            lemma_extends_trans(start, before, *witness);
                            lemma_extends_trans(pass_start, before, *witness);
                            assert forall|j: int| 0 <= j < n && #[trigger] done@[j] implies satisfied(generators@[j], witness) by {
                                lemma_satisfied_stable(generators@[j], &before, witness);
                            }
                            generators@[i as int].lemma_outputs_stable(&before, witness);
                            lemma_count_pending_set(done@, n as int, i as int);
                        }
                        done.set(i, true);
                        remaining = remaining - 1;
                        progress = true;
                    },
                }
            }
            i = i + 1;
        }
        if remaining == 0 {
            proof {
                assert forall|j: int| 0 <= j < n implies satisfied(#[trigger] generators@[j], witness) by {
                    lemma_count_pending_zero(done@, n as int, j);
                }
            }
            return Ok(());
        }
        if !progress {
            proof {
                let j = lemma_count_pending_witness(done@, n as int);
                assert(generators@[j].outputs_spec(witness) is None && !generators@[j].rejects(witness));
            }
            return Err(GeneratorError::UnsatisfiedGenerator);
        }
    }
}

} // verus!
