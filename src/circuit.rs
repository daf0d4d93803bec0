//! A recursive circuit under construction: arithmetic operations over
//! extension-field targets, each operation adding one target. Gates express
//! their constraints in it so that one proof can check another's rows.
use vstd::prelude::*;

use crate::algebra::{alg_add_spec, alg_mul_spec, alg_sub_spec, ExtAlgebra};
use crate::field::{ext_add_spec, ext_mul_spec, ext_sub_spec, Ext};

verus! {

/// One operation; its operands are earlier targets.
#[derive(Clone, Copy, Debug, PartialEq, Eq, Structural)]
pub enum CircuitOp {
    Const(Ext),
    Add(usize, usize),
    Sub(usize, usize),
    Mul(usize, usize),
}

/// Targets `0..num_inputs` are the circuit's inputs; target
/// `num_inputs + k` is the result of `ops[k]`.
pub struct CircuitBuilder {
    pub num_inputs: usize,
    pub ops: Vec<CircuitOp>,
}

/// The value of an operation given the values of the targets before it.
pub open spec fn op_value(op: CircuitOp, vals: Seq<Ext>) -> Ext {
    match op {
        CircuitOp::Const(c) => c,
        CircuitOp::Add(a, b) => ext_add_spec(vals[a as int], vals[b as int]),
        CircuitOp::Sub(a, b) => ext_sub_spec(vals[a as int], vals[b as int]),
        CircuitOp::Mul(a, b) => ext_mul_spec(vals[a as int], vals[b as int]),
    }
}

/// The values of all targets when the inputs hold `asg`.
pub open spec fn target_values(asg: Seq<Ext>, ops: Seq<CircuitOp>) -> Seq<Ext>
    decreases ops.len(),
{
    if ops.len() == 0 {
        asg
    } else {
        let prev = target_values(asg, ops.drop_last());
        prev.push(op_value(ops.last(), prev))
    }
}

proof fn lemma_target_values_len(asg: Seq<Ext>, ops: Seq<CircuitOp>)
    ensures
        target_values(asg, ops).len() == asg.len() + ops.len(),
    decreases ops.len(),
{
    if ops.len() > 0 {
        lemma_target_values_len(asg, ops.drop_last());
    }
}

/// Appending operations leaves the values of existing targets unchanged.
proof fn lemma_target_values_push(asg: Seq<Ext>, ops: Seq<CircuitOp>, op: CircuitOp)
    ensures
        target_values(asg, ops.push(op)) == target_values(asg, ops).push(op_value(op, target_values(asg, ops))),
{
    assert(ops.push(op).drop_last() =~= ops);
}

impl CircuitBuilder {
    /// The value of target `t` when the inputs hold `asg`.
    pub open spec fn value(&self, asg: Seq<Ext>, t: int) -> Ext {
        target_values(asg, self.ops@)[t]
    }

    pub open spec fn num_targets(&self) -> int {
        self.num_inputs + self.ops@.len()
    }

    /// `other` extends this builder: same inputs, these operations first.
    pub open spec fn extended_by(&self, other: &CircuitBuilder) -> bool {
        &&& other.num_inputs == self.num_inputs
        &&& self.ops@.len() <= other.ops@.len()
        &&& forall|asg: Seq<Ext>, t: int|
            asg.len() == self.num_inputs && 0 <= t < self.num_targets() ==> #[trigger] other.value(asg, t) == self.value(
                asg,
                t,
            )
    }

    pub fn new(num_inputs: usize) -> (r: CircuitBuilder)
        ensures
            r.num_inputs == num_inputs,
            r.ops@.len() == 0,
    {
        CircuitBuilder { num_inputs, ops: Vec::new() }
    }

    /// Appends one operation and returns its target.
    pub fn push_op(&mut self, op: CircuitOp) -> (r: usize)
        requires
            old(self).num_targets() < usize::MAX,
        ensures
            r == old(self).num_targets(),
            final(self).ops@ == old(self).ops@.push(op),
            final(self).num_inputs == old(self).num_inputs,
            old(self).extended_by(final(self)),
            forall|asg: Seq<Ext>|
                asg.len() == old(self).num_inputs ==> #[trigger] final(self).value(asg, r as int) == op_value(
                    op,
                    target_values(asg, old(self).ops@),
                ),
    {
        let r = self.num_inputs + self.ops.len();
        self.ops.push(op);
        proof {
            assert forall|asg: Seq<Ext>, t: int|
                asg.len() == old(self).num_inputs && 0 <= t < old(self).num_targets() implies #[trigger] self.value(
                asg,
                t,
            ) == old(self).value(asg, t) by {
                lemma_target_values_push(asg, old(self).ops@, op);
                lemma_target_values_len(asg, old(self).ops@);
            }
            assert forall|asg: Seq<Ext>| asg.len() == old(self).num_inputs implies #[trigger] self.value(asg, r as int)
                == op_value(op, target_values(asg, old(self).ops@)) by {
                lemma_target_values_push(asg, old(self).ops@, op);
                lemma_target_values_len(asg, old(self).ops@);
            }
        }
        r
    }
}

/// Evaluates every target with the inputs holding `asg`; `None` when an
/// operation names a target that does not come before it.
pub fn evaluate(b: &CircuitBuilder, asg: &Vec<Ext>) -> (r: Option<Vec<Ext>>)
    requires
        asg@.len() == b.num_inputs,
        forall|i: int| 0 <= i < asg@.len() ==> (#[trigger] asg@[i]).wf(),
    ensures
        r matches Some(v) ==> v@ == target_values(asg@, b.ops@),
{
    let mut vals: Vec<Ext> = asg.clone();
    proof {
        assert(vals@ =~= asg@);
    }
    let mut k: usize = 0;
    while k < b.ops.len()
        invariant
            k <= b.ops@.len(),
            vals@ == target_values(asg@, b.ops@.take(k as int)),
            vals@.len() == asg@.len() + k,
            forall|i: int| 0 <= i < vals@.len() ==> (#[trigger] vals@[i]).wf(),
        decreases b.ops@.len() - k,
    {
        let n = vals.len();
        let v = match b.ops[k] {
            CircuitOp::Const(c) => {
                if !(c.c0 < crate::field::ORDER && c.c1 < crate::field::ORDER) {
                    return None;
                }
                c
            },
            CircuitOp::Add(x, y) => {
                if x >= n || y >= n {
                    return None;
                }
                crate::field::ext_add(vals[x], vals[y])
            },
            CircuitOp::Sub(x, y) => {
                if x >= n || y >= n {
                    return None;
                }
                crate::field::ext_sub(vals[x], vals[y])
            },
            CircuitOp::Mul(x, y) => {
                if x >= n || y >= n {
                    return None;
                }
                crate::field::ext_mul(vals[x], vals[y])
            },
        };
        proof {
            assert(b.ops@.take(k + 1).drop_last() =~= b.ops@.take(k as int));
        }
        vals.push(v);
        k = k + 1;
    }
    proof {
        assert(b.ops@.take(k as int) =~= b.ops@);
    }
    Some(vals)
}

pub proof fn lemma_extended_trans(a: &CircuitBuilder, b: &CircuitBuilder, c: &CircuitBuilder)
    requires
        a.extended_by(b),
        b.extended_by(c),
    ensures
        a.extended_by(c),
{
    assert forall|asg: Seq<Ext>, t: int| asg.len() == a.num_inputs && 0 <= t < a.num_targets() implies #[trigger] c.value(
        asg,
        t,
    ) == a.value(asg, t) by {
        assert(c.value(asg, t) == b.value(asg, t));
    }
}

/// A pair of targets holding an element of the extension algebra.
pub type AlgTarget = (usize, usize);

pub open spec fn alg_value(b: &CircuitBuilder, asg: Seq<Ext>, x: AlgTarget) -> ExtAlgebra {
    ExtAlgebra { a0: b.value(asg, x.0 as int), a1: b.value(asg, x.1 as int) }
}

pub open spec fn alg_target_valid(b: &CircuitBuilder, x: AlgTarget) -> bool {
    x.0 < b.num_targets() && x.1 < b.num_targets()
}

/// Emits a binary operation of the algebra.
fn emit_ext(b: &mut CircuitBuilder, op: CircuitOp) -> (r: usize)
    requires
        old(b).num_targets() + 16 < usize::MAX,
    ensures
        r == old(b).num_targets(),
        final(b).num_targets() == old(b).num_targets() + 1,
        final(b).num_inputs == old(b).num_inputs,
        old(b).extended_by(final(b)),
        forall|asg: Seq<Ext>|
            asg.len() == old(b).num_inputs ==> #[trigger] final(b).value(asg, r as int) == op_value(
                op,
                target_values(asg, old(b).ops@),
            ),
{
    b.push_op(op)
}

/// Emits `x + y` in the algebra.
pub fn alg_add_circuit(b: &mut CircuitBuilder, x: AlgTarget, y: AlgTarget) -> (r: AlgTarget)
    requires
        alg_target_valid(old(b), x),
        alg_target_valid(old(b), y),
        old(b).num_targets() + 64 < usize::MAX,
    ensures
        alg_target_valid(final(b), r),
        old(b).extended_by(final(b)),
        final(b).num_targets() <= old(b).num_targets() + 2,
        forall|asg: Seq<Ext>|
            asg.len() == old(b).num_inputs ==> #[trigger] alg_value(final(b), asg, r) == alg_add_spec(
                alg_value(old(b), asg, x),
                alg_value(old(b), asg, y),
            ),
{
    let ghost b0 = *b;
    let r0 = emit_ext(b, CircuitOp::Add(x.0, y.0));
    let ghost b1 = *b;
    let r1 = emit_ext(b, CircuitOp::Add(x.1, y.1));
    proof {
        lemma_extended_trans(&b0, &b1, b);
        assert forall|asg: Seq<Ext>| asg.len() == b0.num_inputs implies #[trigger] alg_value(b, asg, (r0, r1))
            == alg_add_spec(alg_value(&b0, asg, x), alg_value(&b0, asg, y)) by {
            assert(b.value(asg, r0 as int) == b1.value(asg, r0 as int));
            assert(b1.value(asg, x.1 as int) == b0.value(asg, x.1 as int));
            assert(b1.value(asg, y.1 as int) == b0.value(asg, y.1 as int));
        }
    }
    (r0, r1)
}

/// Emits `x - y` in the algebra.
pub fn alg_sub_circuit(b: &mut CircuitBuilder, x: AlgTarget, y: AlgTarget) -> (r: AlgTarget)
    requires
        alg_target_valid(old(b), x),
        alg_target_valid(old(b), y),
        old(b).num_targets() + 64 < usize::MAX,
    ensures
        alg_target_valid(final(b), r),
        old(b).extended_by(final(b)),
        final(b).num_targets() <= old(b).num_targets() + 2,
        forall|asg: Seq<Ext>|
            asg.len() == old(b).num_inputs ==> #[trigger] alg_value(final(b), asg, r) == alg_sub_spec(
                alg_value(old(b), asg, x),
                alg_value(old(b), asg, y),
            ),
{
    let ghost b0 = *b;
    let r0 = emit_ext(b, CircuitOp::Sub(x.0, y.0));
    let ghost b1 = *b;
    let r1 = emit_ext(b, CircuitOp::Sub(x.1, y.1));
    proof {
        lemma_extended_trans(&b0, &b1, b);
        assert forall|asg: Seq<Ext>| asg.len() == b0.num_inputs implies #[trigger] alg_value(b, asg, (r0, r1))
            == alg_sub_spec(alg_value(&b0, asg, x), alg_value(&b0, asg, y)) by {
            assert(b.value(asg, r0 as int) == b1.value(asg, r0 as int));
            assert(b1.value(asg, x.1 as int) == b0.value(asg, x.1 as int));
            assert(b1.value(asg, y.1 as int) == b0.value(asg, y.1 as int));
        }
    }
    (r0, r1)
}

/// Emits `x * y` in the algebra: `(x0 y0 + W x1 y1, x0 y1 + x1 y0)`.
pub fn alg_mul_circuit(b: &mut CircuitBuilder, x: AlgTarget, y: AlgTarget) -> (r: AlgTarget)
    requires
        alg_target_valid(old(b), x),
        alg_target_valid(old(b), y),
        old(b).num_targets() + 64 < usize::MAX,
    ensures
        alg_target_valid(final(b), r),
        old(b).extended_by(final(b)),
        final(b).num_targets() <= old(b).num_targets() + 8,
        forall|asg: Seq<Ext>|
            asg.len() == old(b).num_inputs ==> #[trigger] alg_value(final(b), asg, r) == alg_mul_spec(
                alg_value(old(b), asg, x),
                alg_value(old(b), asg, y),
            ),
{
    let ghost b0 = *b;
    let p00 = emit_ext(b, CircuitOp::Mul(x.0, y.0));
    let ghost b1 = *b;
    let p11 = emit_ext(b, CircuitOp::Mul(x.1, y.1));
    let ghost b2 = *b;
    let w = emit_ext(b, CircuitOp::Const(Ext { c0: crate::field::EXT_W, c1: 0 }));
    let ghost b3 = *b;
    let wp = emit_ext(b, CircuitOp::Mul(w, p11));
    let ghost b4 = *b;
    let c0 = emit_ext(b, CircuitOp::Add(p00, wp));
    let ghost b5 = *b;
    let p01 = emit_ext(b, CircuitOp::Mul(x.0, y.1));
    let ghost b6 = *b;
    let p10 = emit_ext(b, CircuitOp::Mul(x.1, y.0));
    let ghost b7 = *b;
    let c1 = emit_ext(b, CircuitOp::Add(p01, p10));
    proof {
        lemma_extended_trans(&b0, &b1, &b2);
        lemma_extended_trans(&b0, &b2, &b3);
        lemma_extended_trans(&b0, &b3, &b4);
        lemma_extended_trans(&b0, &b4, &b5);
        lemma_extended_trans(&b0, &b5, &b6);
        lemma_extended_trans(&b0, &b6, &b7);
        lemma_extended_trans(&b0, &b7, b);
        lemma_extended_trans(&b4, &b5, &b6);
        lemma_extended_trans(&b4, &b6, &b7);
        lemma_extended_trans(&b4, &b7, b);
        lemma_extended_trans(&b1, &b2, &b3);
        lemma_extended_trans(&b2, &b3, &b4);
        assert forall|asg: Seq<Ext>| asg.len() == b0.num_inputs implies #[trigger] alg_value(b, asg, (c0, c1))
            == alg_mul_spec(alg_value(&b0, asg, x), alg_value(&b0, asg, y)) by {
            let xa = alg_value(&b0, asg, x);
            let ya = alg_value(&b0, asg, y);
            assert(b1.value(asg, p00 as int) == ext_mul_spec(xa.a0, ya.a0));
            assert(b1.value(asg, x.1 as int) == b0.value(asg, x.1 as int));
            assert(b1.value(asg, y.1 as int) == b0.value(asg, y.1 as int));
            assert(b2.value(asg, p11 as int) == ext_mul_spec(xa.a1, ya.a1));
            assert(b3.value(asg, w as int) == crate::field::ext_embed(crate::field::EXT_W));
            assert(b3.value(asg, p11 as int) == b2.value(asg, p11 as int));
            assert(b4.value(asg, wp as int) == ext_mul_spec(
                crate::field::ext_embed(crate::field::EXT_W),
                ext_mul_spec(xa.a1, ya.a1),
            ));
            assert(b4.value(asg, p00 as int) == b1.value(asg, p00 as int));
            assert(b.value(asg, c0 as int) == b5.value(asg, c0 as int));
            assert(b5.value(asg, x.0 as int) == b0.value(asg, x.0 as int));
            assert(b5.value(asg, y.1 as int) == b0.value(asg, y.1 as int));
            assert(b6.value(asg, x.1 as int) == b0.value(asg, x.1 as int));
            assert(b6.value(asg, y.0 as int) == b0.value(asg, y.0 as int));
            assert(b6.value(asg, p01 as int) == ext_mul_spec(xa.a0, ya.a1));
            assert(b7.value(asg, p10 as int) == ext_mul_spec(xa.a1, ya.a0));
            assert(b7.value(asg, p01 as int) == b6.value(asg, p01 as int));
        }
    }
    (c0, c1)
}

} // verus!
