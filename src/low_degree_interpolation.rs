//! A gate that checks an interpolation: the coefficients of the polynomial of
//! degree `< n` through `n` values on a shifted subgroup of order `n = 2^bits`,
//! and its value at an evaluation point. Every constraint has degree at most 2,
//! which takes extra wires for the powers of the shift and of the point.
use vstd::prelude::*;

use crate::algebra::{
    alg_add, alg_add_spec, alg_embed, alg_mul, alg_mul_spec, alg_scalar_mul, alg_scalar_mul_spec, alg_sub, alg_sub_spec,
    alg_zero, lemma_alg_ops_embed, lemma_alg_scalar_embed, lemma_embed_ops, ExtAlgebra,
};
use crate::challenger::ext_elements;
use crate::field::{
    canonical, exp_u64, ext_add, ext_add_spec, ext_embed, ext_from_base, ext_mul, ext_mul_spec, ext_one,
    ext_pow_spec, ext_scalar_mul, ext_scalar_mul_spec, ext_sub, ext_sub_spec, ext_zero, ext_zero_exec, field_mul,
    field_sub, fmul, fpow, fsub, inverse, Ext, ORDER,
};
use crate::fri::{all_wf, primitive_root_of_unity, root_of_unity_spec};
use crate::keccak256_mini::D;
use crate::witness::{PartitionWitness, Wire};

verus! {

#[derive(Clone, Copy, Debug, PartialEq, Eq, Structural)]
pub struct LowDegreeInterpolationGate {
    pub subgroup_bits: usize,
}

/// The algebra coordinates of a sequence of algebra elements, in order.
pub open spec fn alg_elements(es: Seq<ExtAlgebra>) -> Seq<Ext>
    decreases es.len(),
{
    if es.len() == 0 {
        Seq::empty()
    } else {
        alg_elements(es.drop_last()) + seq![es.last().a0, es.last().a1]
    }
}

/// `sum_k c[k] x^k` by Horner's rule, for a base-field point.
pub open spec fn horner_base_spec(c: Seq<Ext>, x: u64) -> Ext
    decreases c.len(),
{
    if c.len() == 0 {
        ext_zero()
    } else {
        ext_add_spec(ext_scalar_mul_spec(x, horner_base_spec(c.drop_first(), x)), c[0])
    }
}

/// `sum_k c[k] x^k` by Horner's rule, in the algebra at an extension point.
pub open spec fn horner_alg_spec(c: Seq<ExtAlgebra>, x: Ext) -> ExtAlgebra
    decreases c.len(),
{
    if c.len() == 0 {
        alg_zero()
    } else {
        alg_add_spec(alg_scalar_mul_spec(x, horner_alg_spec(c.drop_first(), x)), c[0])
    }
}

/// `c[0] + sum_{1 <= i <= k} powers[i-1] * c[i]`.
pub open spec fn eval_with_powers_spec(c: Seq<Ext>, powers: Seq<Ext>, k: int) -> Ext
    decreases k,
{
    if k <= 0 {
        c[0]
    } else {
        ext_add_spec(eval_with_powers_spec(c, powers, k - 1), ext_mul_spec(powers[k - 1], c[k]))
    }
}

pub open spec fn eval_with_powers_alg_spec(c: Seq<ExtAlgebra>, powers: Seq<ExtAlgebra>, k: int) -> ExtAlgebra
    decreases k,
{
    if k <= 0 {
        c[0]
    } else {
        alg_add_spec(eval_with_powers_alg_spec(c, powers, k - 1), alg_mul_spec(powers[k - 1], c[k]))
    }
}

/// The extension element on wires `[s, s+2)` of a base-field row.
pub open spec fn ext_wire(w: Seq<u64>, s: int) -> Ext {
    Ext { c0: w[s], c1: w[s + 1] }
}

/// The algebra element on wires `[s, s+2)` of an extension-field row.
pub open spec fn alg_wire(w: Seq<Ext>, s: int) -> ExtAlgebra {
    ExtAlgebra { a0: w[s], a1: w[s + 1] }
}

fn ext_wire_exec(w: &Vec<u64>, s: usize) -> (r: Ext)
    requires
        s < 0x1000_0000,
        s + 1 < w@.len(),
        canonical(w@[s as int]),
        canonical(w@[s + 1]),
    ensures
        r == ext_wire(w@, s as int),
        r.wf(),
{
    Ext { c0: w[s], c1: w[s + 1] }
}

fn alg_wire_exec(w: &Vec<Ext>, s: usize) -> (r: ExtAlgebra)
    requires
        s < 0x1000_0000,
        s + 1 < w@.len(),
        w@[s as int].wf(),
        w@[s + 1].wf(),
    ensures
        r == alg_wire(w@, s as int),
        r.wf(),
{
    ExtAlgebra { a0: w[s], a1: w[s + 1] }
}

pub fn horner_base(c: &Vec<Ext>, x: u64) -> (r: Ext)
    requires
        all_wf(c@),
        canonical(x),
    ensures
        r == horner_base_spec(c@, x),
        r.wf(),
{
    let mut acc = ext_zero_exec();
    let mut i: usize = c.len();
    assert(c@.skip(i as int) =~= Seq::<Ext>::empty());
    while i > 0
        invariant
            i <= c@.len(),
            all_wf(c@),
            canonical(x),
            acc.wf(),
            acc == horner_base_spec(c@.skip(i as int), x),
        decreases i,
    {
        assert(c@.skip(i - 1).drop_first() =~= c@.skip(i as int));
        acc = ext_add(ext_scalar_mul(x, acc), c[i - 1]);
        i = i - 1;
    }
    assert(c@.skip(0) =~= c@);
    acc
}

pub open spec fn all_alg_wf(s: Seq<ExtAlgebra>) -> bool {
    forall|i: int| 0 <= i < s.len() ==> (#[trigger] s[i]).wf()
}

fn horner_alg(c: &Vec<ExtAlgebra>, x: Ext) -> (r: ExtAlgebra)
    requires
        all_alg_wf(c@),
        x.wf(),
    ensures
        r == horner_alg_spec(c@, x),
        r.wf(),
{
    let z = Ext { c0: 0, c1: 0 };
    let mut acc = ExtAlgebra { a0: z, a1: z };
    let mut i: usize = c.len();
    assert(c@.skip(i as int) =~= Seq::<ExtAlgebra>::empty());
    while i > 0
        invariant
            i <= c@.len(),
            all_alg_wf(c@),
            x.wf(),
            acc.wf(),
            acc == horner_alg_spec(c@.skip(i as int), x),
        decreases i,
    {
        assert(c@.skip(i - 1).drop_first() =~= c@.skip(i as int));
        acc = alg_add(alg_scalar_mul(x, acc), c[i - 1]);
        i = i - 1;
    }
    assert(c@.skip(0) =~= c@);
    acc
}

pub fn eval_with_powers(c: &Vec<Ext>, powers: &Vec<Ext>) -> (r: Ext)
    requires
        c@.len() == powers@.len() + 1,
        all_wf(c@),
        all_wf(powers@),
    ensures
        r == eval_with_powers_spec(c@, powers@, powers@.len() as int),
        r.wf(),
{
    let mut acc = c[0];
    let mut k: usize = 0;
    while k < powers.len()
        invariant
            k <= powers@.len(),
            c@.len() == powers@.len() + 1,
            all_wf(c@),
            all_wf(powers@),
            acc.wf(),
            acc == eval_with_powers_spec(c@, powers@, k as int),
        decreases powers@.len() - k,
    {
        acc = ext_add(acc, ext_mul(powers[k], c[k + 1]));
        k = k + 1;
    }
    acc
}

fn eval_with_powers_alg(c: &Vec<ExtAlgebra>, powers: &Vec<ExtAlgebra>) -> (r: ExtAlgebra)
    requires
        c@.len() == powers@.len() + 1,
        all_alg_wf(c@),
        all_alg_wf(powers@),
    ensures
        r == eval_with_powers_alg_spec(c@, powers@, powers@.len() as int),
        r.wf(),
{
    let mut acc = c[0];
    let mut k: usize = 0;
    while k < powers.len()
        invariant
            k <= powers@.len(),
            c@.len() == powers@.len() + 1,
            all_alg_wf(c@),
            all_alg_wf(powers@),
            acc.wf(),
            acc == eval_with_powers_alg_spec(c@, powers@, k as int),
        decreases powers@.len() - k,
    {
        acc = alg_add(acc, alg_mul(powers[k], c[k + 1]));
        k = k + 1;
    }
    acc
}

proof fn lemma_ext_elements_push(s: Seq<Ext>, e: Ext)
    ensures
        ext_elements(s.push(e)) == ext_elements(s) + seq![e.c0, e.c1],
{
    assert(s.push(e).drop_last() =~= s);
}

proof fn lemma_alg_elements_push(s: Seq<ExtAlgebra>, e: ExtAlgebra)
    ensures
        alg_elements(s.push(e)) == alg_elements(s) + seq![e.a0, e.a1],
{
    assert(s.push(e).drop_last() =~= s);
}

pub open spec fn all_canonical(s: Seq<u64>) -> bool {
    forall|i: int| 0 <= i < s.len() ==> canonical(#[trigger] s[i])
}

impl LowDegreeInterpolationGate {
    /// At least four points (with two the powers of the evaluation point
    /// would overlap the coefficients), and few enough that every wire index
    /// fits a `usize`.
    pub open spec fn wf(&self) -> bool {
        2 <= self.subgroup_bits <= 24
    }

    pub open spec fn n(&self) -> int {
        vstd::arithmetic::power2::pow2(self.subgroup_bits as nat) as int
    }

    pub open spec fn start_coeffs_spec(&self) -> int {
        1 + self.n() * D + 2 * D
    }

    pub open spec fn end_coeffs_spec(&self) -> int {
        self.start_coeffs_spec() + self.n() * D
    }

    pub open spec fn powers_shift_spec(&self, i: int) -> int {
        if i == 1 {
            0
        } else {
            self.end_coeffs_spec() + i - 2
        }
    }

    pub open spec fn powers_evaluation_point_spec(&self, i: int) -> int {
        if i == 1 {
            1 + self.n() * D
        } else {
            self.end_coeffs_spec() + self.n() - 2 + (i - 2) * D
        }
    }

    pub open spec fn end_spec(&self) -> int {
        self.powers_evaluation_point_spec(self.n() - 1) + D
    }

    pub fn new(subgroup_bits: usize) -> (r: LowDegreeInterpolationGate)
        ensures
            r.subgroup_bits == subgroup_bits,
    {
        LowDegreeInterpolationGate { subgroup_bits }
    }

    proof fn lemma_sizes(&self)
        requires
            self.wf(),
        ensures
            4 <= self.n() <= 0x100_0000,
            self.end_spec() < 0x1000_0000,
            self.end_coeffs_spec() + 3 * self.n() < 0x1000_0000,
            self.end_spec() == self.end_coeffs_spec() + self.n() - 2 + (self.n() - 2) * D,
            self.end_coeffs_spec() + 2 <= self.end_spec(),
    {
        vstd::arithmetic::power2::lemma2_to64();
        vstd::arithmetic::power2::lemma_pow2_unfold(self.subgroup_bits as nat);
        vstd::arithmetic::power2::lemma_pow2_unfold((self.subgroup_bits - 1) as nat);
        if self.subgroup_bits < 24 {
            vstd::arithmetic::power2::lemma_pow2_strictly_increases(self.subgroup_bits as nat, 24);
        }
        vstd::arithmetic::power2::lemma_pow2_pos((self.subgroup_bits - 2) as nat);
    }

    pub fn num_points(&self) -> (r: usize)
        requires
            self.wf(),
        ensures
            r == self.n(),
            4 <= r <= 0x100_0000,
    {
        proof {
            self.lemma_sizes();
        }
        crate::plonk_proof::pow2_usize(self.subgroup_bits)
    }

    pub fn wire_shift(&self) -> (r: usize)
        ensures
            r == 0,
    {
        0
    }

    pub fn wires_value(&self, i: usize) -> (r: std::ops::Range<usize>)
        requires
            self.wf(),
            i < self.n(),
        ensures
            r.start == 1 + i * D,
            r.end == 1 + (i + 1) * D,
    {
        proof {
            self.lemma_sizes();
        }
        (1 + i * D)..(1 + (i + 1) * D)
    }

    pub fn wires_evaluation_point(&self) -> (r: std::ops::Range<usize>)
        requires
            self.wf(),
        ensures
            r.start == 1 + self.n() * D,
            r.end == 1 + self.n() * D + D,
    {
        let n = self.num_points();
        (1 + n * D)..(1 + n * D + D)
    }

    pub fn wires_evaluation_value(&self) -> (r: std::ops::Range<usize>)
        requires
            self.wf(),
        ensures
            r.start == 1 + self.n() * D + D,
            r.end == 1 + self.n() * D + 2 * D,
    {
        let n = self.num_points();
        (1 + n * D + D)..(1 + n * D + 2 * D)
    }

    pub fn start_coeffs(&self) -> (r: usize)
        requires
            self.wf(),
        ensures
            r == self.start_coeffs_spec(),
    {
        let n = self.num_points();
        1 + n * D + 2 * D
    }

    pub fn wires_coeff(&self, i: usize) -> (r: std::ops::Range<usize>)
        requires
            self.wf(),
            i < self.n(),
        ensures
            r.start == self.start_coeffs_spec() + i * D,
            r.end == self.start_coeffs_spec() + (i + 1) * D,
    {
        proof {
            self.lemma_sizes();
        }
        let s = self.start_coeffs();
        (s + i * D)..(s + (i + 1) * D)
    }

    pub fn end_coeffs(&self) -> (r: usize)
        requires
            self.wf(),
        ensures
            r == self.end_coeffs_spec(),
    {
        proof {
            self.lemma_sizes();
        }
        self.start_coeffs() + self.num_points() * D
    }

    /// The wire of `shift^i`.
    pub fn powers_shift(&self, i: usize) -> (r: usize)
        requires
            self.wf(),
            0 < i < self.n(),
        ensures
            r == self.powers_shift_spec(i as int),
    {
        proof {
            self.lemma_sizes();
        }
        if i == 1 {
            return self.wire_shift();
        }
        self.end_coeffs() + i - 2
    }

    /// The wires of `evaluation_point^i`.
    pub fn powers_evaluation_point(&self, i: usize) -> (r: std::ops::Range<usize>)
        requires
            self.wf(),
            0 < i < self.n(),
        ensures
            r.start == self.powers_evaluation_point_spec(i as int),
            r.end == self.powers_evaluation_point_spec(i as int) + D,
    {
        proof {
            self.lemma_sizes();
        }
        if i == 1 {
            return self.wires_evaluation_point();
        }
        let start = self.end_coeffs() + self.num_points() - 2 + (i - 2) * D;
        start..start + D
    }

    /// One past the last wire.
    pub fn end(&self) -> (r: usize)
        requires
            self.wf(),
        ensures
            r == self.end_spec(),
    {
        let n = self.num_points();
        self.powers_evaluation_point(n - 1).end
    }

    /// The points `shift * g^k`, `k < n`, with `g` of order `n`.
    pub fn coset(&self, shift: u64) -> (r: Vec<u64>)
        requires
            self.wf(),
            canonical(shift),
        ensures
            r@.len() == self.n(),
            forall|k: int| 0 <= k < self.n() ==> #[trigger] r@[k] == fmul(
                fpow(root_of_unity_spec(self.subgroup_bits as nat), k as nat),
                shift as int,
            ),
    {
        proof {
            self.lemma_sizes();
        }
        let g = primitive_root_of_unity(self.subgroup_bits);
        let size = self.num_points();
        let mut r: Vec<u64> = Vec::new();
        let mut x: u64 = 1;
        let mut k: usize = 0;
        while k < size
            invariant
                k <= size,
                size == self.n(),
                canonical(g),
                canonical(shift),
                g == root_of_unity_spec(self.subgroup_bits as nat),
                canonical(x),
                x == fpow(g as int, k as nat),
                r@.len() == k,
                forall|j: int| 0 <= j < k ==> #[trigger] r@[j] == fmul(fpow(g as int, j as nat), shift as int),
            decreases size - k,
        {
            r.push(field_mul(x, shift));
            x = field_mul(g, x);
            k = k + 1;
        }
        r
    }

    pub fn num_wires(&self) -> (r: usize)
        requires
            self.wf(),
        ensures
            r == self.end_spec(),
    {
        self.end()
    }

    pub fn num_constants(&self) -> (r: usize)
        ensures
            r == 0,
    {
        0
    }

    pub fn degree(&self) -> (r: usize)
        ensures
            r == 2,
    {
        2
    }

    /// `n * D` constraints tie the coefficients to the values, `D` the
    /// evaluation value, and `(D + 1) * (n - 2)` the powers of the shift and
    /// of the evaluation point.
    pub fn num_constraints(&self) -> (r: usize)
        requires
            self.wf(),
        ensures
            r == self.n() * D + D + (D + 1) * (self.n() - 2),
    {
        proof {
            self.lemma_sizes();
        }
        let n = self.num_points();
        n * D + D + (D + 1) * (n - 2)
    }

    // -----------------------------------------------------------------------
    // Constraints over the base field
    // -----------------------------------------------------------------------

    /// `shift^k` for `k < n`, the first read as one, the others from their wires.
    pub open spec fn shift_powers_base(&self, w: Seq<u64>) -> Seq<u64> {
        Seq::new(self.n() as nat, |k: int| if k == 0 { 1u64 } else { w[self.powers_shift_spec(k)] })
    }

    pub open spec fn coeffs_base(&self, w: Seq<u64>) -> Seq<Ext> {
        Seq::new(self.n() as nat, |i: int| ext_wire(w, self.start_coeffs_spec() + i * D))
    }

    /// `c_i * shift^i`: the coefficients of `x -> p(shift * x)`.
    pub open spec fn altered_coeffs_base(&self, w: Seq<u64>) -> Seq<Ext> {
        Seq::new(
            self.n() as nat,
            |i: int| ext_scalar_mul_spec(self.shift_powers_base(w)[i], self.coeffs_base(w)[i]),
        )
    }

    pub open spec fn eval_point_powers_base(&self, w: Seq<u64>) -> Seq<Ext> {
        Seq::new((self.n() - 1) as nat, |k: int| ext_wire(w, self.powers_evaluation_point_spec(k + 1)))
    }

    pub open spec fn subgroup_point(&self, i: int) -> u64 {
        fpow(root_of_unity_spec(self.subgroup_bits as nat), i as nat) as u64
    }

    /// `shift^(j+1) * shift - shift^(j+2)`.
    pub open spec fn shift_constraint_base(&self, w: Seq<u64>, j: int) -> u64 {
        let ps = self.shift_powers_base(w);
        fsub(fmul(ps[j + 1] as int, w[0] as int), ps[j + 2] as int) as u64
    }

    /// Value `i` less the interpolant at `shift * g^i`.
    pub open spec fn value_constraint_base(&self, w: Seq<u64>, i: int) -> Ext {
        ext_sub_spec(ext_wire(w, 1 + i * D), horner_base_spec(self.altered_coeffs_base(w), self.subgroup_point(i)))
    }

    /// `point^(j+1) * point - point^(j+2)`.
    pub open spec fn power_constraint_base(&self, w: Seq<u64>, j: int) -> Ext {
        let epp = self.eval_point_powers_base(w);
        ext_sub_spec(ext_mul_spec(epp[j], epp[0]), epp[j + 1])
    }

    #[verifier::opaque]
    pub open spec fn shift_part_base(&self, w: Seq<u64>) -> Seq<u64> {
        Seq::new((self.n() - 2) as nat, |j: int| self.shift_constraint_base(w, j))
    }

    #[verifier::opaque]
    pub open spec fn value_part_base(&self, w: Seq<u64>) -> Seq<Ext> {
        Seq::new(self.n() as nat, |i: int| self.value_constraint_base(w, i))
    }

    #[verifier::opaque]
    pub open spec fn power_part_base(&self, w: Seq<u64>) -> Seq<Ext> {
        Seq::new((self.n() - 2) as nat, |j: int| self.power_constraint_base(w, j))
    }

    /// The evaluation value less the interpolant at the evaluation point.
    #[verifier::opaque]
    pub open spec fn last_base(&self, w: Seq<u64>) -> Ext {
        ext_sub_spec(
            ext_wire(w, 1 + self.n() * D + D),
            eval_with_powers_spec(self.coeffs_base(w), self.eval_point_powers_base(w), self.n() - 1),
        )
    }

    #[verifier::opaque]
    pub open spec fn eval_base_spec(&self, w: Seq<u64>) -> Seq<u64> {
        self.shift_part_base(w) + ext_elements(self.value_part_base(w)) + ext_elements(self.power_part_base(w))
            + seq![self.last_base(w).c0, self.last_base(w).c1]
    }

    fn shift_constraints_base(&self, w: &Vec<u64>) -> (r: Vec<u64>)
        requires
            self.wf(),
            w@.len() >= self.end_spec(),
            all_canonical(w@),
        ensures
            r@ == self.shift_part_base(w@),
    {
        reveal(LowDegreeInterpolationGate::shift_part_base);
        proof {
            self.lemma_sizes();
        }
        let n = self.num_points();
        let shift = w[0];
        let mut r: Vec<u64> = Vec::new();
        let mut i: usize = 1;
        while i < n - 1
            invariant
                1 <= i <= n - 1,
                n == self.n(),
                self.wf(),
                w@.len() >= self.end_spec(),
                self.end_coeffs_spec() + 3 * self.n() < 0x1000_0000,
                all_canonical(w@),
                shift == w@[0],
                r@ == Seq::new((i - 1) as nat, |j: int| self.shift_constraint_base(w@, j)),
            decreases n - 1 - i,
        {
            let a = w[self.powers_shift(i)];
            let b = w[self.powers_shift(i + 1)];
            r.push(field_sub(field_mul(a, shift), b));
            i = i + 1;
            proof {
                assert(r@ =~= Seq::new((i - 1) as nat, |j: int| self.shift_constraint_base(w@, j)));
            }
        }
        r
    }

    fn coefficients_base(&self, w: &Vec<u64>) -> (r: (Vec<Ext>, Vec<Ext>))
        requires
            self.wf(),
            w@.len() >= self.end_spec(),
            all_canonical(w@),
        ensures
            r.0@ == self.coeffs_base(w@),
            r.1@ == self.altered_coeffs_base(w@),
            all_wf(r.0@),
            all_wf(r.1@),
    {
        proof {
            self.lemma_sizes();
        }
        let n = self.num_points();
        let mut coeffs: Vec<Ext> = Vec::new();
        let mut altered: Vec<Ext> = Vec::new();
        let sc = self.start_coeffs();
        let mut k: usize = 0;
        while k < n
            invariant
                k <= n,
                n == self.n(),
                self.wf(),
                sc == self.start_coeffs_spec(),
                w@.len() >= self.end_spec(),
                self.end_coeffs_spec() + 2 <= self.end_spec(),
                self.end_coeffs_spec() == self.start_coeffs_spec() + self.n() * D,
                self.end_coeffs_spec() + 3 * self.n() < 0x1000_0000,
                all_canonical(w@),
                coeffs@ == self.coeffs_base(w@).take(k as int),
                altered@ == self.altered_coeffs_base(w@).take(k as int),
                all_wf(coeffs@),
                all_wf(altered@),
            decreases n - k,
        {
            let c = ext_wire_exec(w, sc + k * D);
            let p: u64 = if k == 0 { 1 } else { w[self.powers_shift(k)] };
            coeffs.push(c);
            altered.push(ext_scalar_mul(p, c));
            k = k + 1;
            proof {
                assert(coeffs@ =~= self.coeffs_base(w@).take(k as int));
                assert(altered@ =~= self.altered_coeffs_base(w@).take(k as int));
            }
        }
        proof {
            assert(coeffs@ =~= self.coeffs_base(w@));
            assert(altered@ =~= self.altered_coeffs_base(w@));
        }
        (coeffs, altered)
    }

    fn value_constraints_base(&self, w: &Vec<u64>, altered: &Vec<Ext>) -> (r: Vec<u64>)
        requires
            self.wf(),
            w@.len() >= self.end_spec(),
            all_canonical(w@),
            altered@ == self.altered_coeffs_base(w@),
            all_wf(altered@),
        ensures
            r@ == ext_elements(self.value_part_base(w@)),
    {
        reveal(LowDegreeInterpolationGate::value_part_base);
        proof {
            self.lemma_sizes();
        }
        let n = self.num_points();
        let g = primitive_root_of_unity(self.subgroup_bits);
        let mut r: Vec<u64> = Vec::new();
        let mut point: u64 = 1;
        let mut i: usize = 0;
        proof {
            assert(Seq::new(0, |i: int| self.value_constraint_base(w@, i)) =~= Seq::<Ext>::empty());
        }
        while i < n
            invariant
                i <= n,
                n == self.n(),
                self.wf(),
                w@.len() >= self.end_spec(),
                self.end_coeffs_spec() + 3 * self.n() < 0x1000_0000,
                all_canonical(w@),
                altered@ == self.altered_coeffs_base(w@),
                all_wf(altered@),
                g == root_of_unity_spec(self.subgroup_bits as nat),
                canonical(g),
                canonical(point),
                point == fpow(g as int, i as nat),
                r@ == ext_elements(Seq::new(i as nat, |k: int| self.value_constraint_base(w@, k))),
            decreases n - i,
        {
            let value = ext_wire_exec(w, 1 + i * D);
            let d = ext_sub(value, horner_base(altered, point));
            proof {
                assert(d == self.value_constraint_base(w@, i as int));
                lemma_ext_elements_push(Seq::new(i as nat, |k: int| self.value_constraint_base(w@, k)), d);
                assert(Seq::new(i as nat, |k: int| self.value_constraint_base(w@, k)).push(d)
                    =~= Seq::new((i + 1) as nat, |k: int| self.value_constraint_base(w@, k)));
            }
            r.push(d.c0);
            r.push(d.c1);
            point = field_mul(g, point);
            i = i + 1;
        }
        r
    }

    fn eval_point_powers_base_exec(&self, w: &Vec<u64>) -> (r: Vec<Ext>)
        requires
            self.wf(),
            w@.len() >= self.end_spec(),
            all_canonical(w@),
        ensures
            r@ == self.eval_point_powers_base(w@),
            all_wf(r@),
    {
        proof {
            self.lemma_sizes();
        }
        let n = self.num_points();
        let mut epp: Vec<Ext> = Vec::new();
        let mut k: usize = 1;
        while k < n
            invariant
                1 <= k <= n,
                n == self.n(),
                self.wf(),
                w@.len() >= self.end_spec(),
                self.end_coeffs_spec() + 3 * self.n() < 0x1000_0000,
                all_canonical(w@),
                epp@ == self.eval_point_powers_base(w@).take((k - 1) as int),
                all_wf(epp@),
            decreases n - k,
        {
            let s = self.powers_evaluation_point(k).start;
            epp.push(ext_wire_exec(w, s));
            k = k + 1;
            proof {
                assert(epp@ =~= self.eval_point_powers_base(w@).take((k - 1) as int));
            }
        }
        proof {
            assert(epp@ =~= self.eval_point_powers_base(w@));
        }
        epp
    }

    fn power_constraints_base(&self, w: &Vec<u64>, epp: &Vec<Ext>) -> (r: Vec<u64>)
        requires
            self.wf(),
            epp@ == self.eval_point_powers_base(w@),
            all_wf(epp@),
        ensures
            r@ == ext_elements(self.power_part_base(w@)),
    {
        reveal(LowDegreeInterpolationGate::power_part_base);
        proof {
            self.lemma_sizes();
        }
        let n = self.num_points();
        let mut r: Vec<u64> = Vec::new();
        let mut j: usize = 0;
        proof {
            assert(Seq::new(0, |k: int| self.power_constraint_base(w@, k)) =~= Seq::<Ext>::empty());
        }
        while j + 2 < n
            invariant
                j + 2 <= n,
                n == self.n(),
                epp@ == self.eval_point_powers_base(w@),
                epp@.len() == n - 1,
                all_wf(epp@),
                r@ == ext_elements(Seq::new(j as nat, |k: int| self.power_constraint_base(w@, k))),
            decreases n - j,
        {
            let d = ext_sub(ext_mul(epp[j], epp[0]), epp[j + 1]);
            proof {
                assert(d == self.power_constraint_base(w@, j as int));
                lemma_ext_elements_push(Seq::new(j as nat, |k: int| self.power_constraint_base(w@, k)), d);
                assert(Seq::new(j as nat, |k: int| self.power_constraint_base(w@, k)).push(d)
                    =~= Seq::new((j + 1) as nat, |k: int| self.power_constraint_base(w@, k)));
            }
            r.push(d.c0);
            r.push(d.c1);
            j = j + 1;
        }
        r
    }

    /// The constraints at a trace row over the base field.
    pub fn eval_unfiltered_base_one(&self, local_wires: &Vec<u64>) -> (r: Vec<u64>)
        requires
            self.wf(),
            local_wires@.len() >= self.end_spec(),
            all_canonical(local_wires@),
        ensures
            r@ == self.eval_base_spec(local_wires@),
    {
        proof {
            self.lemma_sizes();
        }
        let w = local_wires;
        let n = self.num_points();
        let mut r = self.shift_constraints_base(w);
        let (coeffs, altered) = self.coefficients_base(w);
        let mut values = self.value_constraints_base(w, &altered);
        r.append(&mut values);
        let epp = self.eval_point_powers_base_exec(w);
        let mut powers = self.power_constraints_base(w, &epp);
        r.append(&mut powers);
        let ev = ext_wire_exec(w, 1 + n * D + D);
        let e = eval_with_powers(&coeffs, &epp);
        let d = ext_sub(ev, e);
        proof {
            assert(e == eval_with_powers_spec(self.coeffs_base(w@), self.eval_point_powers_base(w@), n - 1));
            reveal(LowDegreeInterpolationGate::last_base);
            assert(d == self.last_base(w@));
        }
        let ghost front = r@;
        r.push(d.c0);
        r.push(d.c1);
        proof {
            assert(front == self.shift_part_base(w@) + ext_elements(self.value_part_base(w@)) + ext_elements(
                self.power_part_base(w@),
            ));
            assert(r@ =~= front + seq![d.c0, d.c1]);
            reveal(LowDegreeInterpolationGate::eval_base_spec);
        }
        r
    }

    // -----------------------------------------------------------------------
    // Constraints at an arbitrary extension point
    // -----------------------------------------------------------------------

    /// `shift^k` for `k < n` in the extension.
    pub open spec fn shift_powers_ext(&self, w: Seq<Ext>) -> Seq<Ext> {
        Seq::new(self.n() as nat, |k: int| if k == 0 { ext_one() } else { w[self.powers_shift_spec(k)] })
    }

    pub open spec fn coeffs_ext(&self, w: Seq<Ext>) -> Seq<ExtAlgebra> {
        Seq::new(self.n() as nat, |i: int| alg_wire(w, self.start_coeffs_spec() + i * D))
    }

    pub open spec fn altered_coeffs_ext(&self, w: Seq<Ext>) -> Seq<ExtAlgebra> {
        Seq::new(
            self.n() as nat,
            |i: int| alg_scalar_mul_spec(self.shift_powers_ext(w)[i], self.coeffs_ext(w)[i]),
        )
    }

    pub open spec fn eval_point_powers_ext(&self, w: Seq<Ext>) -> Seq<ExtAlgebra> {
        Seq::new((self.n() - 1) as nat, |k: int| alg_wire(w, self.powers_evaluation_point_spec(k + 1)))
    }

    pub open spec fn shift_constraint_ext(&self, w: Seq<Ext>, j: int) -> Ext {
        let ps = self.shift_powers_ext(w);
        ext_sub_spec(ext_mul_spec(ps[j + 1], w[0]), ps[j + 2])
    }

    pub open spec fn value_constraint_ext(&self, w: Seq<Ext>, i: int) -> ExtAlgebra {
        alg_sub_spec(
            alg_wire(w, 1 + i * D),
            horner_alg_spec(self.altered_coeffs_ext(w), ext_embed(self.subgroup_point(i))),
        )
    }

    pub open spec fn power_constraint_ext(&self, w: Seq<Ext>, j: int) -> ExtAlgebra {
        let epp = self.eval_point_powers_ext(w);
        alg_sub_spec(alg_mul_spec(epp[j], epp[0]), epp[j + 1])
    }

    #[verifier::opaque]
    pub open spec fn shift_part_ext(&self, w: Seq<Ext>) -> Seq<Ext> {
        Seq::new((self.n() - 2) as nat, |j: int| self.shift_constraint_ext(w, j))
    }

    #[verifier::opaque]
    pub open spec fn value_part_ext(&self, w: Seq<Ext>) -> Seq<ExtAlgebra> {
        Seq::new(self.n() as nat, |i: int| self.value_constraint_ext(w, i))
    }

    #[verifier::opaque]
    pub open spec fn power_part_ext(&self, w: Seq<Ext>) -> Seq<ExtAlgebra> {
        Seq::new((self.n() - 2) as nat, |j: int| self.power_constraint_ext(w, j))
    }

    /// The evaluation value less the interpolant at the evaluation point.
    #[verifier::opaque]
    pub open spec fn last_ext(&self, w: Seq<Ext>) -> ExtAlgebra {
        alg_sub_spec(
            alg_wire(w, 1 + self.n() * D + D),
            eval_with_powers_alg_spec(self.coeffs_ext(w), self.eval_point_powers_ext(w), self.n() - 1),
        )
    }

    #[verifier::opaque]
    pub open spec fn eval_ext_spec(&self, w: Seq<Ext>) -> Seq<Ext> {
        self.shift_part_ext(w) + alg_elements(self.value_part_ext(w)) + alg_elements(self.power_part_ext(w))
            + seq![self.last_ext(w).a0, self.last_ext(w).a1]
    }

    fn shift_constraints_ext(&self, w: &Vec<Ext>) -> (r: Vec<Ext>)
        requires
            self.wf(),
            w@.len() >= self.end_spec(),
            all_wf(w@),
        ensures
            r@ == self.shift_part_ext(w@),
    {
        reveal(LowDegreeInterpolationGate::shift_part_ext);
        proof {
            self.lemma_sizes();
        }
        let n = self.num_points();
        let shift = w[0];
        let mut r: Vec<Ext> = Vec::new();
        let mut i: usize = 1;
        while i < n - 1
            invariant
                1 <= i <= n - 1,
                n == self.n(),
                self.wf(),
                w@.len() >= self.end_spec(),
                self.end_coeffs_spec() + 3 * self.n() < 0x1000_0000,
                all_wf(w@),
                shift == w@[0],
                r@ == Seq::new((i - 1) as nat, |j: int| self.shift_constraint_ext(w@, j)),
            decreases n - 1 - i,
        {
            let a = w[self.powers_shift(i)];
            let b = w[self.powers_shift(i + 1)];
            r.push(ext_sub(ext_mul(a, shift), b));
            i = i + 1;
            proof {
                assert(r@ =~= Seq::new((i - 1) as nat, |j: int| self.shift_constraint_ext(w@, j)));
            }
        }
        r
    }

    fn coefficients_ext(&self, w: &Vec<Ext>) -> (r: (Vec<ExtAlgebra>, Vec<ExtAlgebra>))
        requires
            self.wf(),
            w@.len() >= self.end_spec(),
            all_wf(w@),
        ensures
            r.0@ == self.coeffs_ext(w@),
            r.1@ == self.altered_coeffs_ext(w@),
            all_alg_wf(r.0@),
            all_alg_wf(r.1@),
    {
        proof {
            self.lemma_sizes();
        }
        let n = self.num_points();
        let mut coeffs: Vec<ExtAlgebra> = Vec::new();
        let mut altered: Vec<ExtAlgebra> = Vec::new();
        let sc = self.start_coeffs();
        let mut k: usize = 0;
        while k < n
            invariant
                k <= n,
                n == self.n(),
                self.wf(),
                sc == self.start_coeffs_spec(),
                w@.len() >= self.end_spec(),
                self.end_coeffs_spec() + 2 <= self.end_spec(),
                self.end_coeffs_spec() == self.start_coeffs_spec() + self.n() * D,
                self.end_coeffs_spec() + 3 * self.n() < 0x1000_0000,
                all_wf(w@),
                coeffs@ == self.coeffs_ext(w@).take(k as int),
                altered@ == self.altered_coeffs_ext(w@).take(k as int),
                all_alg_wf(coeffs@),
                all_alg_wf(altered@),
            decreases n - k,
        {
            let c = alg_wire_exec(w, sc + k * D);
            let p: Ext = if k == 0 { Ext { c0: 1, c1: 0 } } else { w[self.powers_shift(k)] };
            coeffs.push(c);
            altered.push(alg_scalar_mul(p, c));
            k = k + 1;
            proof {
                assert(coeffs@ =~= self.coeffs_ext(w@).take(k as int));
                assert(altered@ =~= self.altered_coeffs_ext(w@).take(k as int));
            }
        }
        proof {
            assert(coeffs@ =~= self.coeffs_ext(w@));
            assert(altered@ =~= self.altered_coeffs_ext(w@));
        }
        (coeffs, altered)
    }

    fn value_constraints_ext(&self, w: &Vec<Ext>, altered: &Vec<ExtAlgebra>) -> (r: Vec<Ext>)
        requires
            self.wf(),
            w@.len() >= self.end_spec(),
            all_wf(w@),
            altered@ == self.altered_coeffs_ext(w@),
            all_alg_wf(altered@),
        ensures
            r@ == alg_elements(self.value_part_ext(w@)),
    {
        reveal(LowDegreeInterpolationGate::value_part_ext);
        proof {
            self.lemma_sizes();
        }
        let n = self.num_points();
        let g = primitive_root_of_unity(self.subgroup_bits);
        let mut r: Vec<Ext> = Vec::new();
        let mut point: u64 = 1;
        let mut i: usize = 0;
        proof {
            assert(Seq::new(0, |i: int| self.value_constraint_ext(w@, i)) =~= Seq::<ExtAlgebra>::empty());
        }
        while i < n
            invariant
                i <= n,
                n == self.n(),
                self.wf(),
                w@.len() >= self.end_spec(),
                self.end_coeffs_spec() + 3 * self.n() < 0x1000_0000,
                all_wf(w@),
                altered@ == self.altered_coeffs_ext(w@),
                all_alg_wf(altered@),
                g == root_of_unity_spec(self.subgroup_bits as nat),
                canonical(g),
                canonical(point),
                point == fpow(g as int, i as nat),
                r@ == alg_elements(Seq::new(i as nat, |k: int| self.value_constraint_ext(w@, k))),
            decreases n - i,
        {
            let value = alg_wire_exec(w, 1 + i * D);
            let d = alg_sub(value, horner_alg(altered, ext_from_base(point)));
            proof {
                assert(d == self.value_constraint_ext(w@, i as int));
                lemma_alg_elements_push(Seq::new(i as nat, |k: int| self.value_constraint_ext(w@, k)), d);
                assert(Seq::new(i as nat, |k: int| self.value_constraint_ext(w@, k)).push(d)
                    =~= Seq::new((i + 1) as nat, |k: int| self.value_constraint_ext(w@, k)));
            }
            r.push(d.a0);
            r.push(d.a1);
            point = field_mul(g, point);
            i = i + 1;
        }
        r
    }

    fn eval_point_powers_ext_exec(&self, w: &Vec<Ext>) -> (r: Vec<ExtAlgebra>)
        requires
            self.wf(),
            w@.len() >= self.end_spec(),
            all_wf(w@),
        ensures
            r@ == self.eval_point_powers_ext(w@),
            all_alg_wf(r@),
    {
        proof {
            self.lemma_sizes();
        }
        let n = self.num_points();
        let mut epp: Vec<ExtAlgebra> = Vec::new();
        let mut k: usize = 1;
        while k < n
            invariant
                1 <= k <= n,
                n == self.n(),
                self.wf(),
                w@.len() >= self.end_spec(),
                self.end_coeffs_spec() + 3 * self.n() < 0x1000_0000,
                all_wf(w@),
                epp@ == self.eval_point_powers_ext(w@).take((k - 1) as int),
                all_alg_wf(epp@),
            decreases n - k,
        {
            let s = self.powers_evaluation_point(k).start;
            epp.push(alg_wire_exec(w, s));
            k = k + 1;
            proof {
                assert(epp@ =~= self.eval_point_powers_ext(w@).take((k - 1) as int));
            }
        }
        proof {
            assert(epp@ =~= self.eval_point_powers_ext(w@));
        }
        epp
    }

    fn power_constraints_ext(&self, w: &Vec<Ext>, epp: &Vec<ExtAlgebra>) -> (r: Vec<Ext>)
        requires
            self.wf(),
            epp@ == self.eval_point_powers_ext(w@),
            all_alg_wf(epp@),
        ensures
            r@ == alg_elements(self.power_part_ext(w@)),
    {
        reveal(LowDegreeInterpolationGate::power_part_ext);
        proof {
            self.lemma_sizes();
        }
        let n = self.num_points();
        let mut r: Vec<Ext> = Vec::new();
        let mut j: usize = 0;
        proof {
            assert(Seq::new(0, |k: int| self.power_constraint_ext(w@, k)) =~= Seq::<ExtAlgebra>::empty());
        }
        while j + 2 < n
            invariant
                j + 2 <= n,
                n == self.n(),
                epp@ == self.eval_point_powers_ext(w@),
                epp@.len() == n - 1,
                all_alg_wf(epp@),
                r@ == alg_elements(Seq::new(j as nat, |k: int| self.power_constraint_ext(w@, k))),
            decreases n - j,
        {
            let d = alg_sub(alg_mul(epp[j], epp[0]), epp[j + 1]);
            proof {
                assert(d == self.power_constraint_ext(w@, j as int));
                lemma_alg_elements_push(Seq::new(j as nat, |k: int| self.power_constraint_ext(w@, k)), d);
                assert(Seq::new(j as nat, |k: int| self.power_constraint_ext(w@, k)).push(d)
                    =~= Seq::new((j + 1) as nat, |k: int| self.power_constraint_ext(w@, k)));
            }
            r.push(d.a0);
            r.push(d.a1);
            j = j + 1;
        }
        r
    }

    /// The constraints at an arbitrary point, every wire an extension element,
    /// computed in the extension algebra.
    pub fn eval_unfiltered(&self, local_wires: &Vec<Ext>) -> (r: Vec<Ext>)
        requires
            self.wf(),
            local_wires@.len() >= self.end_spec(),
            all_wf(local_wires@),
        ensures
            r@ == self.eval_ext_spec(local_wires@),
    {
        proof {
            self.lemma_sizes();
        }
        let w = local_wires;
        let n = self.num_points();
        let mut r = self.shift_constraints_ext(w);
        let (coeffs, altered) = self.coefficients_ext(w);
        let mut values = self.value_constraints_ext(w, &altered);
        r.append(&mut values);
        let epp = self.eval_point_powers_ext_exec(w);
        let mut powers = self.power_constraints_ext(w, &epp);
        r.append(&mut powers);
        let ev = alg_wire_exec(w, 1 + n * D + D);
        let e = eval_with_powers_alg(&coeffs, &epp);
        let d = alg_sub(ev, e);
        proof {
            assert(e == eval_with_powers_alg_spec(self.coeffs_ext(w@), self.eval_point_powers_ext(w@), n - 1));
            reveal(LowDegreeInterpolationGate::last_ext);
            assert(d == self.last_ext(w@));
        }
        let ghost front = r@;
        r.push(d.a0);
        r.push(d.a1);
        proof {
            assert(front == self.shift_part_ext(w@) + alg_elements(self.value_part_ext(w@)) + alg_elements(
                self.power_part_ext(w@),
            ));
            assert(r@ =~= front + seq![d.a0, d.a1]);
            reveal(LowDegreeInterpolationGate::eval_ext_spec);
        }
        r
    }
}

/// `sum_k c[k] x^k` by Horner's rule, at an extension point.
pub open spec fn horner_ext_spec(c: Seq<Ext>, x: Ext) -> Ext
    decreases c.len(),
{
    if c.len() == 0 {
        ext_zero()
    } else {
        ext_add_spec(ext_mul_spec(horner_ext_spec(c.drop_first(), x), x), c[0])
    }
}

pub fn horner_ext(c: &Vec<Ext>, x: Ext) -> (r: Ext)
    requires
        all_wf(c@),
        x.wf(),
    ensures
        r == horner_ext_spec(c@, x),
        r.wf(),
{
    let mut acc = ext_zero_exec();
    let mut i: usize = c.len();
    assert(c@.skip(i as int) =~= Seq::<Ext>::empty());
    while i > 0
        invariant
            i <= c@.len(),
            all_wf(c@),
            x.wf(),
            acc.wf(),
            acc == horner_ext_spec(c@.skip(i as int), x),
        decreases i,
    {
        assert(c@.skip(i - 1).drop_first() =~= c@.skip(i as int));
        acc = ext_add(ext_mul(acc, x), c[i - 1]);
        i = i - 1;
    }
    assert(c@.skip(0) =~= c@);
    acc
}

/// `x^(p-2)`, the inverse of a nonzero `x`.
pub open spec fn finv(x: int) -> int {
    fpow(x, (ORDER - 2) as nat)
}

/// Coefficient `k` of the polynomial of degree `< n` through the values
/// `values[i]` at the points `shift * g^i`, with `g` of order `n`, by the
/// inverse transform: `n^-1 * shift^-k * sum_i values[i] * g^(-i k)`.
pub open spec fn coset_interpolant_coeff(values: Seq<Ext>, shift: u64, g: u64, k: int) -> Ext {
    ext_scalar_mul_spec(
        fmul(finv(values.len() as int), fpow(finv(shift as int), k as nat)) as u64,
        horner_base_spec(values, fpow(finv(g as int), k as nat) as u64),
    )
}

/// The coefficients of the polynomial of degree `< n` through `values` on the
/// coset `shift * <g>` of the subgroup of order `n = 2^bits`.
pub fn interpolant_on_coset(values: &Vec<Ext>, shift: u64, bits: usize) -> (r: Vec<Ext>)
    requires
        2 <= bits <= 24,
        values@.len() == vstd::arithmetic::power2::pow2(bits as nat),
        all_wf(values@),
        canonical(shift),
    ensures
        r@.len() == values@.len(),
        forall|k: int| 0 <= k < r@.len() ==> #[trigger] r@[k] == coset_interpolant_coeff(
            values@,
            shift,
            root_of_unity_spec(bits as nat) as u64,
            k,
        ),
        all_wf(r@),
{
    let n = values.len();
    proof {
        vstd::arithmetic::power2::lemma2_to64();
        vstd::arithmetic::power2::lemma_pow2_strictly_increases(bits as nat, 32);
    }
    let g = primitive_root_of_unity(bits);
    let g_inv = inverse(g);
    let shift_inv = inverse(shift);
    let n_inv = inverse(n as u64);
    let mut r: Vec<Ext> = Vec::new();
    let mut k: usize = 0;
    while k < n
        invariant
            k <= n,
            n == values@.len(),
            n < 0x1_0000_0000,
            all_wf(values@),
            canonical(g),
            g == root_of_unity_spec(bits as nat),
            canonical(g_inv),
            g_inv == finv(g as int),
            canonical(shift_inv),
            shift_inv == finv(shift as int),
            canonical(n_inv),
            n_inv == finv(n as int),
            r@.len() == k,
            forall|j: int| 0 <= j < k ==> #[trigger] r@[j] == coset_interpolant_coeff(values@, shift, g, j),
            all_wf(r@),
        decreases n - k,
    {
        let x = exp_u64(g_inv, k as u64);
        let s = field_mul(n_inv, exp_u64(shift_inv, k as u64));
        let c = ext_scalar_mul(s, horner_base(values, x));
        r.push(c);
        k = k + 1;
    }
    r
}

/// The value of an assigned cell.
pub open spec fn cell(wit: &PartitionWitness, row: usize, c: int) -> u64 {
    wit.value(Wire { row, column: c as usize })->Some_0
}

/// Derives every wire of one row of a `LowDegreeInterpolationGate` but its
/// inputs: the shift, the values and the evaluation point.
#[derive(Clone, Copy, Debug, PartialEq, Eq, Structural)]
pub struct InterpolationGenerator {
    pub row: usize,
    pub gate: LowDegreeInterpolationGate,
}

impl LowDegreeInterpolationGate {
    pub fn generators(&self, row: usize) -> (r: Vec<InterpolationGenerator>)
        ensures
            r@ == seq![InterpolationGenerator { row, gate: *self }],
    {
        vec![InterpolationGenerator { row, gate: *self }]
    }

    /// The inputs of row `row` as the witness holds them: the shift, the
    /// evaluation point and the values; `None` while one is unassigned.
    pub open spec fn inputs_present(&self, wit: &PartitionWitness, row: usize) -> bool {
        forall|c: int| 0 <= c < 1 + self.n() * D + D ==> (#[trigger] wit.value(Wire { row, column: c as usize })) is Some
    }

    pub open spec fn inputs_spec(&self, wit: &PartitionWitness, row: usize) -> Option<(u64, Ext, Seq<Ext>)> {
        let ep = 1 + self.n() * D;
        if self.inputs_present(wit, row) {
            Some(
                (
                    cell(wit, row, 0),
                    Ext { c0: cell(wit, row, ep), c1: cell(wit, row, ep + 1) },
                    Seq::new(self.n() as nat, |i: int| Ext { c0: cell(wit, row, 1 + i * D), c1: cell(wit, row, 2 + i * D) }),
                ),
            )
        } else {
            None
        }
    }

    /// What the generator writes for the inputs `(shift, point, values)`:
    /// the powers of the shift, the coefficients of the interpolant, the
    /// powers of the point, and the interpolant's value at the point.
    pub open spec fn assignments_spec(&self, row: usize, shift: u64, point: Ext, values: Seq<Ext>) -> Seq<(Wire, u64)> {
        let n = self.n();
        let g = root_of_unity_spec(self.subgroup_bits as nat) as u64;
        let coeffs = Seq::new(n as nat, |k: int| coset_interpolant_coeff(values, shift, g, k));
        let sc = self.start_coeffs_spec();
        let shift_part = Seq::new(
            (n - 2) as nat,
            |j: int| (Wire { row, column: self.powers_shift_spec(j + 2) as usize }, fpow(shift as int, (j + 2) as nat) as u64),
        );
        let coeff_part = Seq::new(
            (2 * n) as nat,
            |m: int| (Wire { row, column: (sc + m) as usize }, if m % 2 == 0 { coeffs[m / 2].c0 } else { coeffs[m / 2].c1 }),
        );
        let point_part = Seq::new(
            (2 * (n - 2)) as nat,
            |m: int|
                (
                    Wire { row, column: (self.powers_evaluation_point_spec(m / 2 + 2) + m % 2) as usize },
                    if m % 2 == 0 {
                        ext_pow_spec(point, (m / 2 + 2) as nat).c0
                    } else {
                        ext_pow_spec(point, (m / 2 + 2) as nat).c1
                    },
                ),
        );
        let value = horner_ext_spec(coeffs, point);
        let ev = 1 + n * D + D;
        shift_part + coeff_part + point_part + seq![
            (Wire { row, column: ev as usize }, value.c0),
            (Wire { row, column: (ev + 1) as usize }, value.c1),
        ]
    }
}

impl InterpolationGenerator {
    /// The input wires: the shift, the evaluation point and the values.
    pub fn dependencies(&self) -> (r: Vec<Wire>)
        requires
            self.gate.wf(),
        ensures
            r@.len() == 1 + D + self.gate.n() * D,
            r@[0] == (Wire { row: self.row, column: 0 }),
            forall|k: int| 0 <= k < D ==> #[trigger] r@[1 + k] == (Wire { row: self.row, column: (1 + self.gate.n() * D + k) as usize }),
            forall|k: int| 0 <= k < self.gate.n() * D ==> #[trigger] r@[1 + D + k] == (Wire { row: self.row, column: (1 + k) as usize }),
    {
        let n = self.gate.num_points();
        let mut deps: Vec<Wire> = Vec::new();
        deps.push(Wire { row: self.row, column: 0 });
        let ep = self.gate.wires_evaluation_point();
        deps.push(Wire { row: self.row, column: ep.start });
        deps.push(Wire { row: self.row, column: ep.start + 1 });
        let mut c: usize = 1;
        while c < 1 + n * D
            invariant
                1 <= c <= 1 + n * D,
                n == self.gate.n(),
                4 <= n <= 0x100_0000,
                deps@.len() == 1 + D + (c - 1),
                deps@[0] == (Wire { row: self.row, column: 0 }),
                forall|k: int| 0 <= k < D ==> #[trigger] deps@[1 + k] == (Wire { row: self.row, column: (1 + n * D + k) as usize }),
                forall|k: int| 0 <= k < c - 1 ==> #[trigger] deps@[1 + D + k] == (Wire { row: self.row, column: (1 + k) as usize }),
            decreases 1 + n * D - c,
        {
            deps.push(Wire { row: self.row, column: c });
            c = c + 1;
        }
        deps
    }

    fn read(witness: &PartitionWitness, row: usize, column: usize) -> (r: Option<u64>)
        requires
            witness.wf(),
        ensures
            r == witness.value(Wire { row, column }),
            r matches Some(x) ==> canonical(x),
    {
        witness.try_get(Wire { row, column })
    }

    /// The assignments of the row, or `None` while an input is unassigned.
    pub fn run_once(&self, witness: &PartitionWitness) -> (r: Option<Vec<(Wire, u64)>>)
        requires
            witness.wf(),
            self.gate.wf(),
        ensures
            match self.gate.inputs_spec(witness, self.row) {
                None => r is None,
                Some(inp) => r matches Some(v) && v@ == self.gate.assignments_spec(self.row, inp.0, inp.1, inp.2),
            },
            r matches Some(v) ==> forall|i: int| 0 <= i < v@.len() ==> canonical(#[trigger] v@[i].1),
    {
        let g = self.gate;
        proof {
            g.lemma_sizes();
        }
        let n = g.num_points();
        let ep = 1 + n * D;
        // Every input wire, in column order.
        let mut inputs: Vec<u64> = Vec::new();
        let mut c: usize = 0;
        while c < ep + D
            invariant
                g == self.gate,
                c <= ep + D,
                ep == 1 + g.n() * D,
                n == g.n(),
                g.wf(),
                4 <= n <= 0x100_0000,
                witness.wf(),
                inputs@.len() == c,
                forall|k: int| 0 <= k < c ==> witness.value(Wire { row: self.row, column: k as usize }) == Some(#[trigger] inputs@[k]),
                forall|k: int| 0 <= k < c ==> canonical(#[trigger] inputs@[k]),
            decreases ep + D - c,
        {
            match Self::read(witness, self.row, c) {
                Some(x) => inputs.push(x),
                None => {
                    proof {
                        assert(!(witness.value(Wire { row: self.row, column: (c as int) as usize }) is Some));
                        assert(!g.inputs_present(witness, self.row));

                    }
                    return None;
                },
            }
            c = c + 1;
        }
        let ghost inp = g.inputs_spec(witness, self.row);
        proof {
            assert forall|k: int| 0 <= k < ep + D implies (#[trigger] witness.value(Wire { row: self.row, column: k as usize })) is Some by {
                assert(witness.value(Wire { row: self.row, column: k as usize }) == Some(inputs@[k]));
            }
            assert(g.inputs_present(witness, self.row));
        }
        let shift = inputs[0];
        let point = Ext { c0: inputs[ep], c1: inputs[ep + 1] };
        let mut values: Vec<Ext> = Vec::new();
        let mut i: usize = 0;
        while i < n
            invariant
                i <= n,
                n == g.n(),
                4 <= n <= 0x100_0000,
                ep == 1 + n * D,
                inputs@.len() == ep + D,
                forall|k: int| 0 <= k < inputs@.len() ==> canonical(#[trigger] inputs@[k]),
                values@ == Seq::new(i as nat, |j: int| Ext { c0: inputs@[1 + j * D], c1: inputs@[2 + j * D] }),
                all_wf(values@),
            decreases n - i,
        {
            values.push(Ext { c0: inputs[1 + i * D], c1: inputs[2 + i * D] });
            i = i + 1;
            proof {
                assert(values@ =~= Seq::new(i as nat, |j: int| Ext { c0: inputs@[1 + j * D], c1: inputs@[2 + j * D] }));
            }
        }
        proof {
            assert forall|c: int| 0 <= c < ep + D implies #[trigger] cell(witness, self.row, c) == inputs@[c] by {
                assert(witness.value(Wire { row: self.row, column: c as usize }) == Some(inputs@[c]));
            }
            assert(values@ =~= inp->Some_0.2);
            assert(shift == inp->Some_0.0);
            assert(point == inp->Some_0.1);
        }
        let coeffs = interpolant_on_coset(&values, shift, g.subgroup_bits);
        let ghost target = g.assignments_spec(self.row, shift, point, values@);
        let mut out: Vec<(Wire, u64)> = Vec::new();
        // Powers of the shift.
        let mut power: u64 = field_mul(shift, shift);
        let mut k: usize = 2;
        proof {
            assert(fpow(shift as int, 0) == 1);
            assert(fpow(shift as int, 1) == fmul(shift as int, 1));
            vstd::arithmetic::div_mod::lemma_small_mod(shift as nat, crate::field::order() as nat);
            assert(fpow(shift as int, 2) == fmul(shift as int, fpow(shift as int, 1)));
        }
        while k < n
            invariant
                2 <= k <= n,
                n == g.n(),
                g.wf(),
                4 <= n <= 0x100_0000,
                canonical(shift),
                canonical(power),
                power == fpow(shift as int, k as nat),
                target == g.assignments_spec(self.row, shift, point, values@),
                out@ == target.take((k - 2) as int),
                forall|j: int| 0 <= j < out@.len() ==> canonical(#[trigger] out@[j].1),
            decreases n - k,
        {
            proof {
                g.lemma_sizes();
            }
            out.push((Wire { row: self.row, column: g.powers_shift(k) }, power));
            power = field_mul(shift, power);
            k = k + 1;
            proof {
                assert(out@ =~= target.take((k - 2) as int));
            }
        }
        // The coefficients.
        let sc = g.start_coeffs();
        let mut m: usize = 0;
        while m < 2 * n
            invariant
                m <= 2 * n,
                n == g.n(),
                g.wf(),
                4 <= n <= 0x100_0000,
                sc == g.start_coeffs_spec(),
                sc + 2 * n < 0x1000_0000,
                coeffs@.len() == n,
                all_wf(coeffs@),
                forall|j: int| 0 <= j < n ==> #[trigger] coeffs@[j] == coset_interpolant_coeff(
                    values@,
                    shift,
                    root_of_unity_spec(g.subgroup_bits as nat) as u64,
                    j,
                ),
                target == g.assignments_spec(self.row, shift, point, values@),
                out@ == target.take((n - 2) + m),
                forall|j: int| 0 <= j < out@.len() ==> canonical(#[trigger] out@[j].1),
            decreases 2 * n - m,
        {
            let c = coeffs[m / 2];
            let x = if m % 2 == 0 { c.c0 } else { c.c1 };
            proof {
                let gg = root_of_unity_spec(g.subgroup_bits as nat) as u64;
                let cs = Seq::new(n as nat, |k: int| coset_interpolant_coeff(values@, shift, gg, k));
                assert(cs[(m / 2) as int] == c);
                let sp = Seq::new(
                    (n - 2) as nat,
                    |j: int| (Wire { row: self.row, column: g.powers_shift_spec(j + 2) as usize }, fpow(shift as int, (j + 2) as nat) as u64),
                );
                let cp = Seq::new(
                    (2 * n) as nat,
                    |mm: int| (Wire { row: self.row, column: (sc + mm) as usize }, if mm % 2 == 0 { cs[mm / 2].c0 } else { cs[mm / 2].c1 }),
                );
                assert(cp[m as int] == (Wire { row: self.row, column: (sc + m) as usize }, x));
                assert(target[(n - 2) + m] == (sp + cp)[(n - 2) + m]);
                assert(target[(n - 2) + m] == cp[m as int]);
            }
            out.push((Wire { row: self.row, column: sc + m }, x));
            m = m + 1;
            proof {
                assert(out@ =~= target.take((n - 2) + m));
            }
        }
        // Powers of the evaluation point.
        let mut ppow = ext_mul(point, point);
        let mut k: usize = 2;
        proof {
            assert(ext_pow_spec(point, 0) == ext_one());
            assert(ext_pow_spec(point, 2) == ext_mul_spec(point, ext_pow_spec(point, 1)));
            assert(ext_pow_spec(point, 1) == ext_mul_spec(point, ext_one()));
            lemma_ext_mul_one(point);
        }
        while k < n
            invariant
                2 <= k <= n,
                n == g.n(),
                g.wf(),
                4 <= n <= 0x100_0000,
                point.wf(),
                ppow.wf(),
                ppow == ext_pow_spec(point, k as nat),
                target == g.assignments_spec(self.row, shift, point, values@),
                out@ == target.take((n - 2) + 2 * n + 2 * (k - 2)),
                forall|j: int| 0 <= j < out@.len() ==> canonical(#[trigger] out@[j].1),
            decreases n - k,
        {
            proof {
                g.lemma_sizes();
            }
            let s = g.powers_evaluation_point(k).start;
            out.push((Wire { row: self.row, column: s }, ppow.c0));
            out.push((Wire { row: self.row, column: s + 1 }, ppow.c1));
            ppow = ext_mul(point, ppow);
            k = k + 1;
            proof {
                assert(out@ =~= target.take((n - 2) + 2 * n + 2 * (k - 2)));
            }
        }
        // The value at the evaluation point.
        proof {
            assert(coeffs@ =~= Seq::new(n as nat, |j: int| coset_interpolant_coeff(values@, shift, root_of_unity_spec(g.subgroup_bits as nat) as u64, j)));
        }
        let value = horner_ext(&coeffs, point);
        let ev = 1 + n * D + D;
        out.push((Wire { row: self.row, column: ev }, value.c0));
        out.push((Wire { row: self.row, column: ev + 1 }, value.c1));
        proof {
            assert(out@ =~= target);
        }
        Some(out)
    }
}

proof fn lemma_ext_mul_one(a: Ext)
    requires
        a.wf(),
    ensures
        ext_mul_spec(a, ext_one()) == a,
{
    let p = crate::field::order();
    vstd::arithmetic::div_mod::lemma_small_mod(a.c0 as nat, p as nat);
    vstd::arithmetic::div_mod::lemma_small_mod(a.c1 as nat, p as nat);
    vstd::arithmetic::div_mod::lemma_small_mod(0, p as nat);
    assert(fmul(a.c0 as int, 1) == a.c0);
    assert(fmul(a.c1 as int, 0) == 0);
    assert(fmul(a.c0 as int, 0) == 0);
    assert(fmul(a.c1 as int, 1) == a.c1);
    assert(fmul(crate::field::EXT_W as int, 0) == 0);
}

// Agreement of the base-field and extension evaluations.

pub open spec fn embed_row(w: Seq<u64>) -> Seq<Ext> {
    w.map_values(|v: u64| ext_embed(v))
}

proof fn lemma_embed_concat(a: Seq<u64>, b: Seq<u64>)
    ensures
        embed_row(a + b) == embed_row(a) + embed_row(b),
{
    assert(embed_row(a + b) =~= embed_row(a) + embed_row(b));
}

proof fn lemma_horner_embed(c: Seq<Ext>, x: u64)
    requires
        all_wf(c),
        canonical(x),
    ensures
        horner_alg_spec(c.map_values(|e: Ext| alg_embed(e)), ext_embed(x)) == alg_embed(horner_base_spec(c, x)),
        horner_base_spec(c, x).wf(),
    decreases c.len(),
{
    let cm = c.map_values(|e: Ext| alg_embed(e));
    if c.len() == 0 {
        assert(alg_zero() == alg_embed(ext_zero()));
    } else {
        assert(cm.drop_first() =~= c.drop_first().map_values(|e: Ext| alg_embed(e)));
        assert(all_wf(c.drop_first()));
        lemma_horner_embed(c.drop_first(), x);
        let h = horner_base_spec(c.drop_first(), x);
        lemma_alg_scalar_embed(x, h);
        lemma_alg_ops_embed(ext_scalar_mul_spec(x, h), c[0]);
    }
}

proof fn lemma_eval_with_powers_embed(c: Seq<Ext>, p: Seq<Ext>, k: int)
    requires
        all_wf(c),
        all_wf(p),
        0 <= k < c.len(),
        k <= p.len(),
    ensures
        eval_with_powers_alg_spec(c.map_values(|e: Ext| alg_embed(e)), p.map_values(|e: Ext| alg_embed(e)), k)
            == alg_embed(eval_with_powers_spec(c, p, k)),
        eval_with_powers_spec(c, p, k).wf(),
    decreases k,
{
    if k > 0 {
        lemma_eval_with_powers_embed(c, p, k - 1);
        lemma_alg_ops_embed(p[k - 1], c[k]);
        lemma_alg_ops_embed(eval_with_powers_spec(c, p, k - 1), ext_mul_spec(p[k - 1], c[k]));
    }
}

proof fn lemma_elements_embed(s: Seq<Ext>)
    ensures
        alg_elements(s.map_values(|e: Ext| alg_embed(e))) == ext_elements(s).map_values(|v: u64| ext_embed(v)),
    decreases s.len(),
{
    let sm = s.map_values(|e: Ext| alg_embed(e));
    if s.len() == 0 {
        assert(ext_elements(s).map_values(|v: u64| ext_embed(v)) =~= Seq::<Ext>::empty());
    } else {
        assert(sm.drop_last() =~= s.drop_last().map_values(|e: Ext| alg_embed(e)));
        lemma_elements_embed(s.drop_last());
        assert(ext_elements(s).map_values(|v: u64| ext_embed(v)) =~= ext_elements(s.drop_last()).map_values(
            |v: u64| ext_embed(v),
        ) + seq![ext_embed(s.last().c0), ext_embed(s.last().c1)]);
    }
}

impl LowDegreeInterpolationGate {
    proof fn lemma_wires_embed(&self, w: Seq<u64>)
        requires
            all_canonical(w),
        ensures
            forall|s: int|
                0 <= s && s + 1 < w.len() ==> #[trigger] alg_wire(embed_row(w), s) == alg_embed(ext_wire(w, s))
                    && ext_wire(w, s).wf(),
    {
        assert forall|s: int| 0 <= s && s + 1 < w.len() implies #[trigger] alg_wire(embed_row(w), s) == alg_embed(
            ext_wire(w, s),
        ) && ext_wire(w, s).wf() by {
            assert(canonical(w[s]));
            assert(canonical(w[s + 1]));
        }
    }

    proof fn lemma_shift_part_agrees(&self, w: Seq<u64>)
        requires
            self.wf(),
            w.len() >= self.end_spec(),
            all_canonical(w),
        ensures
            self.shift_part_ext(embed_row(w)) == embed_row(self.shift_part_base(w)),
    {
        reveal(LowDegreeInterpolationGate::shift_part_base);
        reveal(LowDegreeInterpolationGate::shift_part_ext);
        self.lemma_sizes();
        let ew = embed_row(w);
        let n = self.n();
        let ps = self.shift_powers_base(w);
        assert forall|k: int| 0 <= k < n implies #[trigger] self.shift_powers_ext(ew)[k] == ext_embed(ps[k]) && canonical(
            ps[k],
        ) by {
            if k > 0 {
                assert(canonical(w[self.powers_shift_spec(k)]));
            }
        }
        assert forall|j: int| 0 <= j < n - 2 implies #[trigger] self.shift_part_ext(ew)[j] == ext_embed(
            self.shift_part_base(w)[j],
        ) by {
            assert(canonical(w[0]));
            lemma_embed_ops(ps[j + 1], w[0]);
            lemma_embed_ops(crate::field::fmul(ps[j + 1] as int, w[0] as int) as u64, ps[j + 2]);
        }
        assert(self.shift_part_ext(ew) =~= embed_row(self.shift_part_base(w)));
    }

    proof fn lemma_coeffs_agree(&self, w: Seq<u64>)
        requires
            self.wf(),
            w.len() >= self.end_spec(),
            all_canonical(w),
        ensures
            self.coeffs_ext(embed_row(w)) == self.coeffs_base(w).map_values(|e: Ext| alg_embed(e)),
            self.altered_coeffs_ext(embed_row(w)) == self.altered_coeffs_base(w).map_values(|e: Ext| alg_embed(e)),
            self.eval_point_powers_ext(embed_row(w)) == self.eval_point_powers_base(w).map_values(|e: Ext| alg_embed(e)),
            all_wf(self.coeffs_base(w)),
            all_wf(self.altered_coeffs_base(w)),
            all_wf(self.eval_point_powers_base(w)),
    {
        self.lemma_sizes();
        self.lemma_wires_embed(w);
        let ew = embed_row(w);
        let n = self.n();
        let ps = self.shift_powers_base(w);
        let cb = self.coeffs_base(w);
        let ab = self.altered_coeffs_base(w);
        let eb = self.eval_point_powers_base(w);
        assert forall|k: int| 0 <= k < n implies #[trigger] self.shift_powers_ext(ew)[k] == ext_embed(ps[k]) && canonical(
            ps[k],
        ) by {
            if k > 0 {
                assert(canonical(w[self.powers_shift_spec(k)]));
            }
        }
        assert forall|i: int| 0 <= i < n implies #[trigger] self.coeffs_ext(ew)[i] == alg_embed(cb[i]) && cb[i].wf() by {}
        assert forall|i: int| 0 <= i < n implies #[trigger] self.altered_coeffs_ext(ew)[i] == alg_embed(ab[i]) && ab[i].wf() by {
            lemma_alg_scalar_embed(ps[i], cb[i]);
        }
        assert forall|k: int| 0 <= k < n - 1 implies #[trigger] self.eval_point_powers_ext(ew)[k] == alg_embed(eb[k])
            && eb[k].wf() by {}
        assert(self.coeffs_ext(ew) =~= cb.map_values(|e: Ext| alg_embed(e)));
        assert(self.altered_coeffs_ext(ew) =~= ab.map_values(|e: Ext| alg_embed(e)));
        assert(self.eval_point_powers_ext(ew) =~= eb.map_values(|e: Ext| alg_embed(e)));
    }

    proof fn lemma_value_part_agrees(&self, w: Seq<u64>)
        requires
            self.wf(),
            w.len() >= self.end_spec(),
            all_canonical(w),
        ensures
            self.value_part_ext(embed_row(w)) == self.value_part_base(w).map_values(|e: Ext| alg_embed(e)),
    {
        reveal(LowDegreeInterpolationGate::value_part_base);
        reveal(LowDegreeInterpolationGate::value_part_ext);
        self.lemma_sizes();
        self.lemma_wires_embed(w);
        self.lemma_coeffs_agree(w);
        let ew = embed_row(w);
        let n = self.n();
        let ab = self.altered_coeffs_base(w);
        assert forall|i: int| 0 <= i < n implies #[trigger] self.value_part_ext(ew)[i] == alg_embed(
            self.value_part_base(w)[i],
        ) by {
            let x = self.subgroup_point(i);
            crate::field::lemma_fpow_canonical(root_of_unity_spec(self.subgroup_bits as nat), i as nat);
            lemma_horner_embed(ab, x);
            lemma_alg_ops_embed(ext_wire(w, 1 + i * D), horner_base_spec(ab, x));
        }
        assert(self.value_part_ext(ew) =~= self.value_part_base(w).map_values(|e: Ext| alg_embed(e)));
    }

    proof fn lemma_power_part_agrees(&self, w: Seq<u64>)
        requires
            self.wf(),
            w.len() >= self.end_spec(),
            all_canonical(w),
        ensures
            self.power_part_ext(embed_row(w)) == self.power_part_base(w).map_values(|e: Ext| alg_embed(e)),
            alg_embed(self.last_base(w)) == self.last_ext(embed_row(w)),
    {
        reveal(LowDegreeInterpolationGate::power_part_base);
        reveal(LowDegreeInterpolationGate::power_part_ext);
        reveal(LowDegreeInterpolationGate::last_base);
        reveal(LowDegreeInterpolationGate::last_ext);
        self.lemma_sizes();
        self.lemma_wires_embed(w);
        self.lemma_coeffs_agree(w);
        let ew = embed_row(w);
        let n = self.n();
        let eb = self.eval_point_powers_base(w);
        let cb = self.coeffs_base(w);
        assert forall|j: int| 0 <= j < n - 2 implies #[trigger] self.power_part_ext(ew)[j] == alg_embed(
            self.power_part_base(w)[j],
        ) by {
            lemma_alg_ops_embed(eb[j], eb[0]);
            lemma_alg_ops_embed(ext_mul_spec(eb[j], eb[0]), eb[j + 1]);
        }
        assert(self.power_part_ext(ew) =~= self.power_part_base(w).map_values(|e: Ext| alg_embed(e)));
        lemma_eval_with_powers_embed(cb, eb, n - 1);
        lemma_alg_ops_embed(ext_wire(w, 1 + n * D + D), eval_with_powers_spec(cb, eb, n - 1));
    }

    /// Evaluating over the extension a base-field row, each wire embedded in
    /// the extension, yields the base-field constraints, each embedded likewise.
    pub proof fn lemma_contexts_agree(&self, w: Seq<u64>)
        requires
            self.wf(),
            w.len() >= self.end_spec(),
            all_canonical(w),
        ensures
            self.eval_ext_spec(embed_row(w)) == embed_row(self.eval_base_spec(w)),
    {
        let ew = embed_row(w);
        let sb = self.shift_part_base(w);
        let vb = ext_elements(self.value_part_base(w));
        let pb = ext_elements(self.power_part_base(w));
        let lb = self.last_base(w);
        let le = self.last_ext(ew);
        self.lemma_shift_part_agrees(w);
        self.lemma_value_part_agrees(w);
        self.lemma_power_part_agrees(w);
        lemma_elements_embed(self.value_part_base(w));
        lemma_elements_embed(self.power_part_base(w));
        assert(le.a0 == ext_embed(lb.c0) && le.a1 == ext_embed(lb.c1));
        lemma_embed_concat(sb, vb);
        lemma_embed_concat(sb + vb, pb);
        lemma_embed_concat(sb + vb + pb, seq![lb.c0, lb.c1]);
        assert(embed_row(seq![lb.c0, lb.c1]) =~= seq![le.a0, le.a1]);
        reveal(LowDegreeInterpolationGate::eval_ext_spec);
        reveal(LowDegreeInterpolationGate::eval_base_spec);
    }
}

} // verus!
