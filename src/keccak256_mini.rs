//! A Keccak-style gate that constrains one output to the XOR of five inputs,
//! each input an extension-field element spread over two wires.
use vstd::prelude::*;

use crate::field::{
    canonical, ext_add, ext_add_spec, ext_embed, ext_mul, ext_mul_spec, ext_sub, ext_sub_spec, fadd, fmul, fsub, order,
    Ext, EXT_W,
};
use crate::algebra::{
    alg_add, alg_add_spec, alg_embed, alg_mul, alg_mul_spec, alg_sub, alg_sub_spec, lemma_embed_ops, ExtAlgebra,
};
use crate::circuit::{
    alg_add_circuit, alg_mul_circuit, alg_sub_circuit, alg_target_valid, alg_value, lemma_extended_trans, AlgTarget,
    CircuitBuilder,
};
use crate::witness::{PartitionWitness, Wire};

verus! {

pub const WIDTH: usize = 5;

pub const STATE_SIZE: usize = 25;

/// The degree of the field extension: each value spans this many wires.
pub const D: usize = 2;

/// `a + b - 2ab`, the XOR of two bits written as a polynomial.
#[verifier::opaque]
pub open spec fn xor_spec(a: Ext, b: Ext) -> Ext {
    let ab = ext_mul_spec(a, b);
    ext_sub_spec(ext_add_spec(a, b), ext_add_spec(ab, ab))
}

pub fn xor(a: Ext, b: Ext) -> (r: Ext)
    requires
        a.wf(),
        b.wf(),
    ensures
        r == xor_spec(a, b),
        r.wf(),
{
    proof {
        reveal(xor_spec);
    }
    let ab = ext_mul(a, b);
    ext_sub(ext_add(a, b), ext_add(ab, ab))
}

pub open spec fn calc_xor5_spec(input: Seq<Ext>) -> Ext {
    let xor01 = xor_spec(input[0], input[1]);
    let xor012 = xor_spec(xor01, input[2]);
    let xor34 = xor_spec(input[3], input[4]);
    xor_spec(xor012, xor34)
}

pub open spec fn all_ext_wf(s: Seq<Ext>) -> bool {
    forall|i: int| 0 <= i < s.len() ==> (#[trigger] s[i]).wf()
}

/// The XOR of five values.
pub fn calc_xor5(input: [Ext; 5]) -> (r: Ext)
    requires
        all_ext_wf(input@),
    ensures
        r == calc_xor5_spec(input@),
        r.wf(),
{
    let xor01 = xor(input[0], input[1]);
    let xor012 = xor(xor01, input[2]);
    let xor34 = xor(input[3], input[4]);
    xor(xor012, xor34)
}

/// `a + b - ab - ab` in the algebra.
#[verifier::opaque]
pub open spec fn xor_ext_algebra_spec(a: ExtAlgebra, b: ExtAlgebra) -> ExtAlgebra {
    let ab = alg_mul_spec(a, b);
    alg_sub_spec(alg_sub_spec(alg_add_spec(a, b), ab), ab)
}

pub fn xor_ext_algebra(a: ExtAlgebra, b: ExtAlgebra) -> (r: ExtAlgebra)
    requires
        a.wf(),
        b.wf(),
    ensures
        r == xor_ext_algebra_spec(a, b),
        r.wf(),
{
    proof {
        reveal(xor_ext_algebra_spec);
    }
    let ab = alg_mul(a, b);
    alg_sub(alg_sub(alg_add(a, b), ab), ab)
}

/// Five-way XOR: wires `[2i, 2i+2)` hold input `i`, wires `[10, 12)` the output.
#[derive(Clone, Copy, Debug, Default, PartialEq, Eq, Structural)]
pub struct Xor5Gate {}

/// The extension element on wires `[2i, 2i+2)` of a base-field row.
pub open spec fn ext_at(w: Seq<u64>, i: int) -> Ext {
    Ext { c0: w[D * i], c1: w[D * i + 1] }
}

/// The algebra element on wires `[2i, 2i+2)` of an extension-field row.
pub open spec fn alg_at(w: Seq<Ext>, i: int) -> ExtAlgebra {
    ExtAlgebra { a0: w[D * i], a1: w[D * i + 1] }
}

pub open spec fn xor5_base_spec(w: Seq<u64>) -> Seq<u64> {
    let x01 = xor_spec(ext_at(w, 0), ext_at(w, 1));
    let x012 = xor_spec(x01, ext_at(w, 2));
    let x0123 = xor_spec(x012, ext_at(w, 3));
    let x01234 = xor_spec(x0123, ext_at(w, 4));
    let d = ext_sub_spec(x01234, ext_at(w, 5));
    seq![d.c0, d.c1]
}

pub open spec fn xor5_ext_spec(w: Seq<Ext>) -> Seq<Ext> {
    let x01 = xor_ext_algebra_spec(alg_at(w, 0), alg_at(w, 1));
    let x012 = xor_ext_algebra_spec(x01, alg_at(w, 2));
    let x0123 = xor_ext_algebra_spec(x012, alg_at(w, 3));
    let x01234 = xor_ext_algebra_spec(x0123, alg_at(w, 4));
    let d = alg_sub_spec(x01234, alg_at(w, 5));
    seq![d.a0, d.a1]
}

pub open spec fn all_canonical(s: Seq<u64>) -> bool {
    forall|i: int| 0 <= i < s.len() ==> canonical(#[trigger] s[i])
}

impl Xor5Gate {
    pub fn new() -> (r: Xor5Gate) {
        Xor5Gate {}
    }

    pub fn wires_input(i: usize) -> (r: std::ops::Range<usize>)
        requires
            i < WIDTH,
        ensures
            r.start == i * D,
            r.end == (i + 1) * D,
    {
        (i * D)..((i + 1) * D)
    }

    pub fn wires_output() -> (r: std::ops::Range<usize>)
        ensures
            r.start == WIDTH * D,
            r.end == (WIDTH + 1) * D,
    {
        (WIDTH * D)..((WIDTH + 1) * D)
    }

    /// One past the last wire.
    pub fn end() -> (r: usize)
        ensures
            r == (WIDTH + 1) * D,
    {
        (WIDTH + 1) * D
    }

    pub fn num_wires(&self) -> (r: usize)
        ensures
            r == (WIDTH + 1) * D,
    {
        Self::end()
    }

    pub fn num_constants(&self) -> (r: usize)
        ensures
            r == 0,
    {
        0
    }

    pub fn degree(&self) -> (r: usize)
        ensures
            r == 5,
    {
        5
    }

    pub fn num_constraints(&self) -> (r: usize)
        ensures
            r == D,
    {
        D
    }

    /// The constraints at a trace row over the base field: the output less
    /// the XOR of the inputs, as its two base-field coordinates.
    pub fn eval_unfiltered_base_one(&self, local_wires: &Vec<u64>) -> (r: Vec<u64>)
        requires
            local_wires@.len() >= (WIDTH + 1) * D,
            all_canonical(local_wires@),
        ensures
            r@ == xor5_base_spec(local_wires@),
            r@.len() == D,
    {
        let w = local_wires;
        let i0 = Ext { c0: w[0], c1: w[1] };
        let i1 = Ext { c0: w[2], c1: w[3] };
        let i2 = Ext { c0: w[4], c1: w[5] };
        let i3 = Ext { c0: w[6], c1: w[7] };
        let i4 = Ext { c0: w[8], c1: w[9] };
        let output = Ext { c0: w[10], c1: w[11] };
        let x01 = xor(i0, i1);
        let x012 = xor(x01, i2);
        let x0123 = xor(x012, i3);
        let x01234 = xor(x0123, i4);
        let d = ext_sub(x01234, output);
        let r = vec![d.c0, d.c1];
        assert(r@ =~= xor5_base_spec(local_wires@));
        r
    }

    /// The constraints at an arbitrary point, with every wire an extension
    /// element, computed in the extension algebra.
    pub fn eval_unfiltered(&self, local_wires: &Vec<Ext>) -> (r: Vec<Ext>)
        requires
            local_wires@.len() >= (WIDTH + 1) * D,
            all_ext_wf(local_wires@),
        ensures
            r@ == xor5_ext_spec(local_wires@),
            r@.len() == D,
    {
        let w = local_wires;
        let i0 = ExtAlgebra { a0: w[0], a1: w[1] };
        let i1 = ExtAlgebra { a0: w[2], a1: w[3] };
        let i2 = ExtAlgebra { a0: w[4], a1: w[5] };
        let i3 = ExtAlgebra { a0: w[6], a1: w[7] };
        let i4 = ExtAlgebra { a0: w[8], a1: w[9] };
        let output = ExtAlgebra { a0: w[10], a1: w[11] };
        let x01 = xor_ext_algebra(i0, i1);
        let x012 = xor_ext_algebra(x01, i2);
        let x0123 = xor_ext_algebra(x012, i3);
        let x01234 = xor_ext_algebra(x0123, i4);
        let d = alg_sub(x01234, output);
        let r = vec![d.a0, d.a1];
        assert(r@ =~= xor5_ext_spec(local_wires@));
        r
    }

    pub fn generators(&self, row: usize) -> (r: Vec<Xor5Generator>)
        ensures
            r@ == seq![Xor5Generator { row }],
    {
        vec![Xor5Generator { row }]
    }
}

/// Derives the output wires of one row of an `Xor5Gate` from its inputs.
#[derive(Clone, Copy, Debug, Default, PartialEq, Eq, Structural)]
pub struct Xor5Generator {
    pub row: usize,
}

/// The value of each input `i` of a row as the witness holds it.
pub open spec fn xor5_inputs_spec(wit: &PartitionWitness, row: usize) -> Option<Seq<Ext>> {
    if forall|c: usize| c < WIDTH * D ==> (#[trigger] wit.value(Wire { row, column: c })) is Some {
        Some(
            Seq::new(
                WIDTH as nat,
                |i: int|
                    Ext {
                        c0: wit.value(Wire { row, column: (D * i) as usize })->Some_0,
                        c1: wit.value(Wire { row, column: (D * i + 1) as usize })->Some_0,
                    },
            ),
        )
    } else {
        None
    }
}

impl Xor5Generator {
    /// The input wires of the row.
    pub fn dependencies(&self) -> (r: Vec<Wire>)
        ensures
            r@ == Seq::new((WIDTH * D) as nat, |c: int| Wire { row: self.row, column: c as usize }),
    {
        let mut r: Vec<Wire> = Vec::new();
        let mut c: usize = 0;
        while c < WIDTH * D
            invariant
                c <= WIDTH * D,
                r@ == Seq::new(c as nat, |k: int| Wire { row: self.row, column: k as usize }),
            decreases WIDTH * D - c,
        {
            r.push(Wire { row: self.row, column: c });
            c = c + 1;
            assert(r@ =~= Seq::new(c as nat, |k: int| Wire { row: self.row, column: k as usize }));
        }
        r
    }

    /// The output assignments: the XOR of the five inputs on the output
    /// wires, or `None` while an input is unassigned.
    pub fn run_once(&self, witness: &PartitionWitness) -> (r: Option<Vec<(Wire, u64)>>)
        requires
            witness.wf(),
        ensures
            match xor5_inputs_spec(witness, self.row) {
                None => r is None,
                Some(inputs) => r matches Some(v) && v@ == seq![
                    (Wire { row: self.row, column: 10 }, calc_xor5_spec(inputs).c0),
                    (Wire { row: self.row, column: 11 }, calc_xor5_spec(inputs).c1),
                ],
            },
            r matches Some(v) ==> forall|i: int| 0 <= i < v@.len() ==> canonical(#[trigger] v@[i].1),
    {
        let mut vals: Vec<u64> = Vec::new();
        let mut c: usize = 0;
        while c < WIDTH * D
            invariant
                c <= WIDTH * D,
                witness.wf(),
                vals@.len() == c,
                forall|k: int| 0 <= k < c ==> witness.value(Wire { row: self.row, column: k as usize }) == Some(
                    #[trigger] vals@[k],
                ),
                forall|k: int| 0 <= k < c ==> canonical(#[trigger] vals@[k]),
            decreases WIDTH * D - c,
        {
            match witness.try_get(Wire { row: self.row, column: c }) {
                Some(v) => {
                    vals.push(v);
                },
                None => {
                    proof {
                        assert(!(witness.value(Wire { row: self.row, column: c }) is Some));
                    }
                    return None;
                },
            }
            c = c + 1;
        }
        let inputs: [Ext; 5] = [
            Ext { c0: vals[0], c1: vals[1] },
            Ext { c0: vals[2], c1: vals[3] },
            Ext { c0: vals[4], c1: vals[5] },
            Ext { c0: vals[6], c1: vals[7] },
            Ext { c0: vals[8], c1: vals[9] },
        ];
        proof {
            assert forall|cc: usize| cc < WIDTH * D implies (#[trigger] witness.value(
                Wire { row: self.row, column: cc },
            )) is Some by {
                assert(witness.value(Wire { row: self.row, column: (cc as int) as usize }) == Some(vals@[cc as int]));
            }
            let spec_inputs = xor5_inputs_spec(witness, self.row)->Some_0;
            assert forall|i: int| 0 <= i < 5 implies spec_inputs[i] == inputs@[i] by {
                assert(witness.value(Wire { row: self.row, column: (D * i) as usize }) == Some(vals@[D * i]));
                assert(witness.value(Wire { row: self.row, column: (D * i + 1) as usize }) == Some(vals@[D * i + 1]));
            }
            assert(spec_inputs =~= inputs@);
        }
        let out = calc_xor5(inputs);
        let r = vec![(Wire { row: self.row, column: WIDTH * D }, out.c0), (Wire { row: self.row, column: WIDTH * D + 1 }, out.c1)];
        Some(r)
    }
}


proof fn lemma_sub_twice(s: int, t: int)
    ensures
        fsub(fsub(s, t), t) == fsub(s, fadd(t, t)),
{
    let p = order();
    vstd::arithmetic::div_mod::lemma_sub_mod_noop(s - t, t, p);
    vstd::arithmetic::div_mod::lemma_sub_mod_noop_right(s, t + t, p);
    vstd::arithmetic::div_mod::lemma_mod_twice(s - t, p);
    assert(s - t - t == s - (t + t));
    vstd::arithmetic::div_mod::lemma_sub_mod_noop((s - t) % p, t, p);
    vstd::arithmetic::div_mod::lemma_sub_mod_noop(s - t, t, p);
}

proof fn lemma_alg_xor_embed(x: Ext, y: Ext)
    requires
        x.wf(),
        y.wf(),
    ensures
        xor_ext_algebra_spec(alg_embed(x), alg_embed(y)) == alg_embed(xor_spec(x, y)),
        xor_spec(x, y).wf(),
{
    reveal(xor_spec);
    reveal(xor_ext_algebra_spec);
    let m = ext_mul_spec(x, y);
    let s = ext_add_spec(x, y);
    lemma_embed_ops(x.c0, y.c0);
    lemma_embed_ops(x.c1, y.c1);
    lemma_embed_ops(x.c0, y.c1);
    lemma_embed_ops(x.c1, y.c0);
    lemma_embed_ops(EXT_W, fmul(x.c1 as int, y.c1 as int) as u64);
    lemma_embed_ops(fmul(x.c0 as int, y.c0 as int) as u64, fmul(EXT_W as int, fmul(x.c1 as int, y.c1 as int)) as u64);
    lemma_embed_ops(fmul(x.c0 as int, y.c1 as int) as u64, fmul(x.c1 as int, y.c0 as int) as u64);
    assert(alg_mul_spec(alg_embed(x), alg_embed(y)) == alg_embed(m));
    assert(alg_add_spec(alg_embed(x), alg_embed(y)) == alg_embed(s));
    lemma_embed_ops(s.c0, m.c0);
    lemma_embed_ops(s.c1, m.c1);
    lemma_embed_ops(fsub(s.c0 as int, m.c0 as int) as u64, m.c0);
    lemma_embed_ops(fsub(s.c1 as int, m.c1 as int) as u64, m.c1);
    lemma_sub_twice(s.c0 as int, m.c0 as int);
    lemma_sub_twice(s.c1 as int, m.c1 as int);
    lemma_embed_ops(m.c0, m.c0);
    lemma_embed_ops(m.c1, m.c1);
}

proof fn lemma_embedded_inputs(w: Seq<u64>, i: int)
    requires
        0 <= i < 6,
        w.len() >= (WIDTH + 1) * D,
        all_canonical(w),
    ensures
        alg_at(w.map_values(|v: u64| ext_embed(v)), i) == alg_embed(ext_at(w, i)),
        ext_at(w, i).wf(),
{
    assert(canonical(w[D * i]));
    assert(canonical(w[D * i + 1]));
}

/// Emits `a + b - ab - ab` in the algebra.
pub fn xor_ext_algebra_circuit(b: &mut CircuitBuilder, x: AlgTarget, y: AlgTarget) -> (r: AlgTarget)
    requires
        alg_target_valid(old(b), x),
        alg_target_valid(old(b), y),
        old(b).num_targets() + 128 < usize::MAX,
    ensures
        alg_target_valid(final(b), r),
        old(b).extended_by(final(b)),
        final(b).num_targets() <= old(b).num_targets() + 14,
        forall|asg: Seq<Ext>|
            asg.len() == old(b).num_inputs ==> #[trigger] alg_value(final(b), asg, r) == xor_ext_algebra_spec(
                alg_value(old(b), asg, x),
                alg_value(old(b), asg, y),
            ),
{
    let ghost b0 = *b;
    let ab = alg_mul_circuit(b, x, y);
    let ghost b1 = *b;
    let s = alg_add_circuit(b, x, y);
    let ghost b2 = *b;
    let t = alg_sub_circuit(b, s, ab);
    let ghost b3 = *b;
    let r = alg_sub_circuit(b, t, ab);
    proof {
        reveal(xor_ext_algebra_spec);
        lemma_extended_trans(&b0, &b1, &b2);
        lemma_extended_trans(&b0, &b2, &b3);
        lemma_extended_trans(&b0, &b3, b);
        lemma_extended_trans(&b1, &b2, &b3);
        assert forall|asg: Seq<Ext>| asg.len() == b0.num_inputs implies #[trigger] alg_value(b, asg, r)
            == xor_ext_algebra_spec(alg_value(&b0, asg, x), alg_value(&b0, asg, y)) by {
            assert(alg_value(&b1, asg, x) == alg_value(&b0, asg, x));
            assert(alg_value(&b1, asg, y) == alg_value(&b0, asg, y));
            assert(alg_value(&b2, asg, ab) == alg_value(&b1, asg, ab));
            assert(alg_value(&b3, asg, ab) == alg_value(&b1, asg, ab));
        }
    }
    r
}

/// The value of each of `wires` when the circuit's inputs hold `asg`.
pub open spec fn wire_values(b: &CircuitBuilder, asg: Seq<Ext>, wires: Seq<usize>) -> Seq<Ext> {
    wires.map_values(|t: usize| b.value(asg, t as int))
}

impl Xor5Gate {
    /// Emits the constraints into a recursive circuit, the row's wires being
    /// the targets `wires`: for every assignment of the circuit's inputs, the
    /// returned targets hold what `eval_unfiltered` gives on the wires' values.
    pub fn eval_unfiltered_circuit(&self, b: &mut CircuitBuilder, wires: &Vec<usize>) -> (r: Vec<usize>)
        requires
            wires@.len() >= (WIDTH + 1) * D,
            forall|i: int| 0 <= i < wires@.len() ==> (#[trigger] wires@[i] as int) < old(b).num_targets(),
            old(b).num_targets() + 1024 < usize::MAX,
        ensures
            r@.len() == D,
            old(b).extended_by(final(b)),
            forall|i: int| 0 <= i < r@.len() ==> (#[trigger] r@[i] as int) < final(b).num_targets(),
            forall|asg: Seq<Ext>|
                asg.len() == old(b).num_inputs ==> #[trigger] wire_values(final(b), asg, r@) == xor5_ext_spec(
                    wire_values(old(b), asg, wires@),
                ),
    {
        let ghost b0 = *b;
        let i0 = (wires[0], wires[1]);
        let i1 = (wires[2], wires[3]);
        let i2 = (wires[4], wires[5]);
        let i3 = (wires[6], wires[7]);
        let i4 = (wires[8], wires[9]);
        let out = (wires[10], wires[11]);
        let x01 = xor_ext_algebra_circuit(b, i0, i1);
        let ghost b1 = *b;
        let x012 = xor_ext_algebra_circuit(b, x01, i2);
        let ghost b2 = *b;
        let x0123 = xor_ext_algebra_circuit(b, x012, i3);
        let ghost b3 = *b;
        let x01234 = xor_ext_algebra_circuit(b, x0123, i4);
        let ghost b4 = *b;
        let d = alg_sub_circuit(b, x01234, out);
        let r = vec![d.0, d.1];
        proof {
            lemma_extended_trans(&b0, &b1, &b2);
            lemma_extended_trans(&b0, &b2, &b3);
            lemma_extended_trans(&b0, &b3, &b4);
            lemma_extended_trans(&b0, &b4, b);
            assert forall|asg: Seq<Ext>| asg.len() == b0.num_inputs implies #[trigger] wire_values(b, asg, r@)
                == xor5_ext_spec(wire_values(&b0, asg, wires@)) by {
                let w = wire_values(&b0, asg, wires@);
                assert(alg_value(&b0, asg, i0) == alg_at(w, 0));
                assert(alg_value(&b0, asg, i1) == alg_at(w, 1));
                assert(alg_value(&b1, asg, i2) == alg_at(w, 2));
                assert(alg_value(&b2, asg, i3) == alg_at(w, 3));
                assert(alg_value(&b3, asg, i4) == alg_at(w, 4));
                assert(alg_value(&b4, asg, out) == alg_at(w, 5));
                assert(wire_values(b, asg, r@) =~= seq![alg_value(b, asg, d).a0, alg_value(b, asg, d).a1]);
            }
        }
        r
    }
}

/// The value of little-endian bytes.
pub open spec fn le_value(b: Seq<u8>) -> int
    decreases b.len(),
{
    if b.len() == 0 {
        0
    } else {
        b[0] + 256 * le_value(b.drop_first())
    }
}

#[derive(Clone, Copy, Debug, PartialEq, Eq, Structural)]
pub enum DecodeError {
    /// Fewer bytes than a row index takes.
    UnexpectedEnd,
    /// The encoded row does not fit a `usize`.
    RowOutOfRange,
}

impl Xor5Generator {
    /// The row as eight little-endian bytes.
    pub fn serialize(&self) -> (r: Vec<u8>)
        ensures
            r@.len() == 8,
            le_value(r@) == self.row,
    {
        let mut bytes: Vec<u8> = Vec::new();
        let mut v: u64 = self.row as u64;
        let ghost mut scale: int = 1;
        let mut i: usize = 0;
        while i < 8
            invariant
                i <= 8,
                bytes@.len() == i,
                scale > 0,
                scale * (v as int) <= 0xffff_ffff_ffff_ffff,
                le_value(bytes@) + scale * v == self.row,
                i == 8 ==> scale == 0x1_0000_0000_0000_0000,
                scale == pow256(i as nat),
            decreases 8 - i,
        {
            let ghost old_bytes = bytes@;
            bytes.push((v % 256) as u8);
            proof {
                lemma_le_value_push(old_bytes, (v % 256) as u8, scale);
                assert(scale * (v as int) == scale * (v % 256) + (scale * 256) * (v / 256)) by (nonlinear_arith)
                    requires
                        v == (v % 256) + 256 * (v / 256),
                ;
                assert((scale * 256) * (v / 256) <= scale * (v as int)) by (nonlinear_arith)
                    requires
                        scale > 0,
                        0 <= v % 256,
                        v == (v % 256) + 256 * (v / 256),
                ;
                scale = scale * 256;
                lemma_pow256_8();
            }
            v = v / 256;
            i = i + 1;
        }
        proof {
            assert(v == 0) by (nonlinear_arith)
                requires
                    scale == 0x1_0000_0000_0000_0000,
                    scale * (v as int) <= 0xffff_ffff_ffff_ffff,
                    v >= 0,
            ;
        }
        bytes
    }

    /// Reads a generator written by `serialize`.
    pub fn deserialize(src: &Vec<u8>) -> (r: Result<Xor5Generator, DecodeError>)
        ensures
            src@.len() < 8 ==> r == Err::<Xor5Generator, DecodeError>(DecodeError::UnexpectedEnd),
            src@.len() >= 8 && le_value(src@.take(8)) <= usize::MAX ==> r == Ok::<Xor5Generator, DecodeError>(
                Xor5Generator { row: le_value(src@.take(8)) as usize },
            ),
            src@.len() >= 8 && le_value(src@.take(8)) > usize::MAX ==> r == Err::<Xor5Generator, DecodeError>(
                DecodeError::RowOutOfRange,
            ),
    {
        if src.len() < 8 {
            return Err(DecodeError::UnexpectedEnd);
        }
        let ghost b = src@.take(8);
        let mut acc: u64 = 0;
        let mut i: usize = 8;
        assert(b.skip(8) =~= Seq::<u8>::empty());
        while i > 0
            invariant
                i <= 8,
                src@.len() >= 8,
                b == src@.take(8),
                acc == le_value(b.skip(i as int)),
                (acc as int) < pow256((8 - i) as nat),
            decreases i,
        {
            proof {
                assert(b.skip(i - 1).drop_first() =~= b.skip(i as int));
                lemma_pow256_bound((8 - i) as nat);
                assert(acc * 256 + 255 < 0x1_0000_0000_0000_0000) by (nonlinear_arith)
                    requires
                        (acc as int) < pow256((8 - i) as nat),
                        pow256((8 - i) as nat) * 256 <= 0x1_0000_0000_0000_0000,
                ;
            }
            acc = acc * 256 + src[i - 1] as u64;
            i = i - 1;
        }
        assert(b.skip(0) =~= b);
        if acc > usize::MAX as u64 {
            return Err(DecodeError::RowOutOfRange);
        }
        Ok(Xor5Generator { row: acc as usize })
    }
}

/// `256^k`.
pub open spec fn pow256(k: nat) -> int
    decreases k,
{
    if k == 0 {
        1
    } else {
        256 * pow256((k - 1) as nat)
    }
}

proof fn lemma_pow256_mono(a: nat, b: nat)
    requires
        a <= b,
    ensures
        0 < pow256(a) <= pow256(b),
    decreases b,
{
    if b > a {
        lemma_pow256_mono(a, (b - 1) as nat);
    } else if a > 0 {
        lemma_pow256_mono((a - 1) as nat, (a - 1) as nat);
    }
}

proof fn lemma_pow256_8()
    ensures
        pow256(8) == 0x1_0000_0000_0000_0000,
{
    reveal_with_fuel(pow256, 9);
}

proof fn lemma_pow256_bound(k: nat)
    requires
        k < 8,
    ensures
        pow256(k) * 256 <= 0x1_0000_0000_0000_0000,
        pow256(k) > 0,
{
    lemma_pow256_mono(k + 1, 8);
    lemma_pow256_mono(k, k);
    lemma_pow256_8();
    assert(pow256(k + 1) == 256 * pow256(k));
}

proof fn lemma_le_value_push(s: Seq<u8>, b: u8, scale: int)
    requires
        scale == pow256(s.len()),
    ensures
        le_value(s.push(b)) == le_value(s) + scale * b,
    decreases s.len(),
{
    if s.len() == 0 {
        assert(s.push(b).drop_first() =~= Seq::<u8>::empty());
        assert(le_value(Seq::<u8>::empty()) == 0);
        assert(le_value(s) == 0);
        assert(scale == 1);
    } else {
        assert(s.push(b).drop_first() =~= s.drop_first().push(b));
        assert(s.push(b)[0] == s[0]);
        lemma_le_value_push(s.drop_first(), b, pow256((s.len() - 1) as nat));
        assert(256 * (le_value(s.drop_first()) + pow256((s.len() - 1) as nat) * b) == 256 * le_value(s.drop_first()) + scale * b) by (nonlinear_arith)
            requires
                scale == 256 * pow256((s.len() - 1) as nat),
        ;
    }
}

/// An extension element as a pair of integers, reduced into the field.
pub open spec fn reduce_pair(x: (int, int)) -> Ext {
    Ext { c0: (x.0 % order()) as u64, c1: (x.1 % order()) as u64 }
}

pub open spec fn pair_add(x: (int, int), y: (int, int)) -> (int, int) {
    (x.0 + y.0, x.1 + y.1)
}

pub open spec fn pair_sub(x: (int, int), y: (int, int)) -> (int, int) {
    (x.0 - y.0, x.1 - y.1)
}

pub open spec fn pair_mul(x: (int, int), y: (int, int)) -> (int, int) {
    (x.0 * y.0 + EXT_W * (x.1 * y.1), x.0 * y.1 + x.1 * y.0)
}

pub open spec fn pair_xor(x: (int, int), y: (int, int)) -> (int, int) {
    let m = pair_mul(x, y);
    pair_sub(pair_add(x, y), pair_add(m, m))
}

pub open spec fn pair_of(e: Ext) -> (int, int) {
    (e.c0 as int, e.c1 as int)
}

proof fn lemma_reduce_ops(x: (int, int), y: (int, int))
    ensures
        ext_add_spec(reduce_pair(x), reduce_pair(y)) == reduce_pair(pair_add(x, y)),
        ext_sub_spec(reduce_pair(x), reduce_pair(y)) == reduce_pair(pair_sub(x, y)),
        ext_mul_spec(reduce_pair(x), reduce_pair(y)) == reduce_pair(pair_mul(x, y)),
{
    let p = order();
    vstd::arithmetic::div_mod::lemma_add_mod_noop(x.0, y.0, p);
    vstd::arithmetic::div_mod::lemma_add_mod_noop(x.1, y.1, p);
    vstd::arithmetic::div_mod::lemma_sub_mod_noop(x.0, y.0, p);
    vstd::arithmetic::div_mod::lemma_sub_mod_noop(x.1, y.1, p);
    vstd::arithmetic::div_mod::lemma_mul_mod_noop(x.0, y.0, p);
    vstd::arithmetic::div_mod::lemma_mul_mod_noop(x.1, y.1, p);
    vstd::arithmetic::div_mod::lemma_mul_mod_noop(x.0, y.1, p);
    vstd::arithmetic::div_mod::lemma_mul_mod_noop(x.1, y.0, p);
    vstd::arithmetic::div_mod::lemma_mul_mod_noop_right(EXT_W as int, x.1 * y.1, p);
    vstd::arithmetic::div_mod::lemma_add_mod_noop(x.0 * y.0, EXT_W * (x.1 * y.1), p);
    vstd::arithmetic::div_mod::lemma_add_mod_noop(x.0 * y.1, x.1 * y.0, p);
    vstd::arithmetic::div_mod::lemma_mod_bound(x.0, p);
    vstd::arithmetic::div_mod::lemma_mod_bound(x.1, p);
    vstd::arithmetic::div_mod::lemma_mod_bound(y.0, p);
    vstd::arithmetic::div_mod::lemma_mod_bound(y.1, p);
    assert(fmul(EXT_W as int, fmul(x.1 % p, y.1 % p)) == (EXT_W * (x.1 * y.1)) % p);
}

proof fn lemma_reduce_xor(x: (int, int), y: (int, int))
    ensures
        xor_spec(reduce_pair(x), reduce_pair(y)) == reduce_pair(pair_xor(x, y)),
{
    reveal(xor_spec);
    let m = pair_mul(x, y);
    lemma_reduce_ops(x, y);
    lemma_reduce_ops(m, m);
    lemma_reduce_ops(pair_add(x, y), pair_add(m, m));
}

proof fn lemma_pair_xor_assoc(u: (int, int), d: (int, int), e: (int, int))
    ensures
        pair_xor(pair_xor(u, d), e) == pair_xor(u, pair_xor(d, e)),
{
    let (u0, u1, d0, d1, e0, e1) = (u.0, u.1, d.0, d.1, e.0, e.1);
    let t = pair_xor(u, d);
    let (t0, t1) = (t.0, t.1);
    let s = pair_xor(d, e);
    let (s0, s1) = (s.0, s.1);
    assert(t0 == u0 + d0 - 2 * (u0 * d0 + 7 * (u1 * d1)));
    assert(t1 == u1 + d1 - 2 * (u0 * d1 + u1 * d0));
    assert(s0 == d0 + e0 - 2 * (d0 * e0 + 7 * (d1 * e1)));
    assert(s1 == d1 + e1 - 2 * (d0 * e1 + d1 * e0));
    assert(t0 * e0 == u0 * e0 + d0 * e0 - 2 * (u0 * d0 * e0) - 14 * (u1 * d1 * e0)) by (nonlinear_arith)
        requires
            t0 == u0 + d0 - 2 * (u0 * d0 + 7 * (u1 * d1)),
    ;
    assert(t1 * e1 == u1 * e1 + d1 * e1 - 2 * (u0 * d1 * e1) - 2 * (u1 * d0 * e1)) by (nonlinear_arith)
        requires
            t1 == u1 + d1 - 2 * (u0 * d1 + u1 * d0),
    ;
    assert(t0 * e1 == u0 * e1 + d0 * e1 - 2 * (u0 * d0 * e1) - 14 * (u1 * d1 * e1)) by (nonlinear_arith)
        requires
            t0 == u0 + d0 - 2 * (u0 * d0 + 7 * (u1 * d1)),
    ;
    assert(t1 * e0 == u1 * e0 + d1 * e0 - 2 * (u0 * d1 * e0) - 2 * (u1 * d0 * e0)) by (nonlinear_arith)
        requires
            t1 == u1 + d1 - 2 * (u0 * d1 + u1 * d0),
    ;
    assert(u0 * s0 == u0 * d0 + u0 * e0 - 2 * (u0 * d0 * e0) - 14 * (u0 * d1 * e1)) by (nonlinear_arith)
        requires
            s0 == d0 + e0 - 2 * (d0 * e0 + 7 * (d1 * e1)),
    ;
    assert(u1 * s1 == u1 * d1 + u1 * e1 - 2 * (u1 * d0 * e1) - 2 * (u1 * d1 * e0)) by (nonlinear_arith)
        requires
            s1 == d1 + e1 - 2 * (d0 * e1 + d1 * e0),
    ;
    assert(u0 * s1 == u0 * d1 + u0 * e1 - 2 * (u0 * d0 * e1) - 2 * (u0 * d1 * e0)) by (nonlinear_arith)
        requires
            s1 == d1 + e1 - 2 * (d0 * e1 + d1 * e0),
    ;
    assert(u1 * s0 == u1 * d0 + u1 * e0 - 2 * (u1 * d0 * e0) - 14 * (u1 * d1 * e1)) by (nonlinear_arith)
        requires
            s0 == d0 + e0 - 2 * (d0 * e0 + 7 * (d1 * e1)),
    ;
    assert(u0 * d0 == d0 * u0 && u1 * d1 == d1 * u1 && u0 * d1 == d1 * u0 && u1 * d0 == d0 * u1) by (nonlinear_arith);
    let l = pair_xor(t, e);
    let r = pair_xor(u, s);
    assert(l.0 == r.0);
    assert(l.1 == r.1);
}

proof fn lemma_reduce_pair_of(e: Ext)
    requires
        e.wf(),
    ensures
        reduce_pair(pair_of(e)) == e,
{
    vstd::arithmetic::div_mod::lemma_small_mod(e.c0 as nat, order() as nat);
    vstd::arithmetic::div_mod::lemma_small_mod(e.c1 as nat, order() as nat);
}

/// A row whose output wires hold what the generator writes, the XOR of the
/// inputs, satisfies every constraint of an `Xor5Gate`.
pub proof fn lemma_xor5_generated_row_satisfies_gate(w: Seq<u64>)
    requires
        w.len() >= (WIDTH + 1) * D,
        all_canonical(w),
        ext_at(w, 5) == calc_xor5_spec(Seq::new(5, |i: int| ext_at(w, i))),
    ensures
        xor5_base_spec(w) == seq![0u64, 0u64],
{
    let a = pair_of(ext_at(w, 0));
    let b = pair_of(ext_at(w, 1));
    let c = pair_of(ext_at(w, 2));
    let d = pair_of(ext_at(w, 3));
    let e = pair_of(ext_at(w, 4));
    assert forall|i: int| 0 <= i < 5 implies reduce_pair(pair_of(#[trigger] ext_at(w, i))) == ext_at(w, i) by {
        assert(canonical(w[D * i]));
        assert(canonical(w[D * i + 1]));
        lemma_reduce_pair_of(ext_at(w, i));
    }
    let ab = pair_xor(a, b);
    let abc = pair_xor(ab, c);
    let abcd = pair_xor(abc, d);
    let de = pair_xor(d, e);
    lemma_reduce_xor(a, b);
    lemma_reduce_xor(ab, c);
    lemma_reduce_xor(abc, d);
    lemma_reduce_xor(abcd, e);
    lemma_reduce_xor(d, e);
    lemma_reduce_xor(abc, de);
    lemma_pair_xor_assoc(abc, d, e);
    let inputs = Seq::new(5, |i: int| ext_at(w, i));
    assert(calc_xor5_spec(inputs) == reduce_pair(pair_xor(abc, de)));
    let x = reduce_pair(pair_xor(abcd, e));
    assert(x == ext_at(w, 5));
    vstd::arithmetic::div_mod::lemma_small_mod(0, order() as nat);
    assert(fsub(x.c0 as int, x.c0 as int) == 0);
    assert(fsub(x.c1 as int, x.c1 as int) == 0);
    assert(xor5_base_spec(w) =~= seq![0u64, 0u64]);
}

/// Evaluating over the extension a base-field row, each wire embedded in the
/// extension, yields the base-field constraints, each embedded likewise.
pub proof fn lemma_xor5_contexts_agree(w: Seq<u64>)
    requires
        w.len() >= (WIDTH + 1) * D,
        all_canonical(w),
    ensures
        xor5_ext_spec(w.map_values(|v: u64| ext_embed(v))) == xor5_base_spec(w).map_values(|v: u64| ext_embed(v)),
{
    let ew = w.map_values(|v: u64| ext_embed(v));
    lemma_embedded_inputs(w, 0);
    lemma_embedded_inputs(w, 1);
    lemma_embedded_inputs(w, 2);
    lemma_embedded_inputs(w, 3);
    lemma_embedded_inputs(w, 4);
    lemma_embedded_inputs(w, 5);
    let x01 = xor_spec(ext_at(w, 0), ext_at(w, 1));
    let x012 = xor_spec(x01, ext_at(w, 2));
    let x0123 = xor_spec(x012, ext_at(w, 3));
    let x01234 = xor_spec(x0123, ext_at(w, 4));
    lemma_alg_xor_embed(ext_at(w, 0), ext_at(w, 1));
    let y01 = xor_ext_algebra_spec(alg_at(ew, 0), alg_at(ew, 1));
    assert(y01 == alg_embed(x01));
    lemma_alg_xor_embed(x01, ext_at(w, 2));
    let y012 = xor_ext_algebra_spec(y01, alg_at(ew, 2));
    assert(y012 == alg_embed(x012));
    lemma_alg_xor_embed(x012, ext_at(w, 3));
    let y0123 = xor_ext_algebra_spec(y012, alg_at(ew, 3));
    assert(y0123 == alg_embed(x0123));
    lemma_alg_xor_embed(x0123, ext_at(w, 4));
    let y01234 = xor_ext_algebra_spec(y0123, alg_at(ew, 4));
    assert(y01234 == alg_embed(x01234));
    lemma_embed_ops(x01234.c0, ext_at(w, 5).c0);
    lemma_embed_ops(x01234.c1, ext_at(w, 5).c1);
    assert(xor5_ext_spec(ew) =~= xor5_base_spec(w).map_values(|v: u64| ext_embed(v)));
}

} // verus!
