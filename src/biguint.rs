//! A gate that multiplies two big unsigned integers held as 32-bit limbs,
//! least significant limb first, one limb per wire.
use vstd::prelude::*;

use vstd::arithmetic::power::pow;

use crate::field::{canonical, field_sub, fsub};
use crate::generator::GeneratorError;
use crate::witness::{PartitionWitness, Wire};

verus! {

/// The limb base `2^32`.
pub open spec fn limb_base() -> int {
    0x1_0000_0000
}

/// The value of little-endian base-`2^32` limbs.
pub open spec fn limbs_val(s: Seq<u64>) -> int
    decreases s.len(),
{
    if s.len() == 0 {
        0
    } else {
        s[0] + limb_base() * limbs_val(s.drop_first())
    }
}

/// The value of little-endian base-`2^32` digits.
pub open spec fn digits_val(s: Seq<u32>) -> int
    decreases s.len(),
{
    if s.len() == 0 {
        0
    } else {
        s[0] + limb_base() * digits_val(s.drop_first())
    }
}

/// Limb `i` of the base-`2^32` expansion of `v`.
pub open spec fn limb_of(v: int, i: nat) -> int {
    (v / pow(limb_base(), i)) % limb_base()
}

pub open spec fn all_limbs(s: Seq<u64>) -> bool {
    forall|i: int| 0 <= i < s.len() ==> (#[trigger] s[i]) < limb_base()
}

/// Whether every value is below `2^32`.
pub fn fits_limbs(v: &Vec<u64>) -> (r: bool)
    ensures
        r == all_limbs(v@),
{
    let mut i: usize = 0;
    while i < v.len()
        invariant
            i <= v@.len(),
            forall|k: int| 0 <= k < i ==> (#[trigger] v@[k]) < limb_base(),
        decreases v@.len() - i,
    {
        if v[i] >= 0x1_0000_0000 {
            return false;
        }
        i = i + 1;
    }
    true
}

/// Relies on `num::BigUint` multiplication: the digits of the product of
/// the numbers with digits `a` and `b`, without high zero digits.
#[verifier::external_body]
fn biguint_mul_digits(a: &Vec<u32>, b: &Vec<u32>) -> (r: Vec<u32>)
    ensures
        digits_val(r@) == digits_val(a@) * digits_val(b@),
        r@.len() == 0 || r@.last() != 0,
{
    (num::BigUint::new(a.clone()) * num::BigUint::new(b.clone())).to_u32_digits()
}

/// Multiplies two integers, `multiplicand0_num_limbs` and
/// `multiplicand1_num_limbs` limbs long; the product takes wires
/// `[total_input_limbs, 2 * total_input_limbs)`.
#[derive(Clone, Copy, Debug, PartialEq, Eq, Structural)]
pub struct MulBigUintGate {
    pub multiplicand0_num_limbs: usize,
    pub multiplicand1_num_limbs: usize,
    pub total_input_limbs: usize,
}

impl MulBigUintGate {
    pub open spec fn wf(&self) -> bool {
        &&& self.total_input_limbs == self.multiplicand0_num_limbs + self.multiplicand1_num_limbs
        &&& 2 * self.total_input_limbs <= usize::MAX
    }

    pub fn new(multiplicand0_num_limbs: usize, multiplicand1_num_limbs: usize) -> (r: MulBigUintGate)
        requires
            2 * (multiplicand0_num_limbs + multiplicand1_num_limbs) <= usize::MAX,
        ensures
            r.wf(),
            r.multiplicand0_num_limbs == multiplicand0_num_limbs,
            r.multiplicand1_num_limbs == multiplicand1_num_limbs,
    {
        let total_input_limbs = multiplicand0_num_limbs + multiplicand1_num_limbs;
        MulBigUintGate { multiplicand0_num_limbs, multiplicand1_num_limbs, total_input_limbs }
    }

    pub fn wire_ith_limb_of_multiplicand_0(&self, i: usize) -> (r: usize)
        requires
            i < self.multiplicand0_num_limbs,
        ensures
            r == i,
    {
        i
    }

    pub fn wire_ith_limb_of_multiplicand_1(&self, i: usize) -> (r: usize)
        requires
            self.wf(),
            i < self.multiplicand1_num_limbs,
        ensures
            r == self.multiplicand0_num_limbs + i,
    {
        self.multiplicand0_num_limbs + i
    }

    pub fn wire_ith_limb_of_output(&self, i: usize) -> (r: usize)
        requires
            self.wf(),
            i < self.total_input_limbs,
        ensures
            r == self.total_input_limbs + i,
    {
        self.total_input_limbs + i
    }

    pub fn wires_multiplicand_0(&self) -> (r: std::ops::Range<usize>)
        ensures
            r.start == 0,
            r.end == self.multiplicand0_num_limbs,
    {
        0..self.multiplicand0_num_limbs
    }

    pub fn wires_multiplicand_1(&self) -> (r: std::ops::Range<usize>)
        ensures
            r.start == self.multiplicand0_num_limbs,
            r.end == self.total_input_limbs,
    {
        self.multiplicand0_num_limbs..self.total_input_limbs
    }

    pub fn wires_output(&self) -> (r: std::ops::Range<usize>)
        requires
            self.wf(),
        ensures
            r.start == self.total_input_limbs,
            r.end == 2 * self.total_input_limbs,
    {
        self.total_input_limbs..self.total_input_limbs * 2
    }

    pub fn num_wires(&self) -> (r: usize)
        requires
            self.wf(),
        ensures
            r == 2 * self.total_input_limbs,
    {
        self.total_input_limbs * 2
    }

    pub fn num_constants(&self) -> (r: usize)
        ensures
            r == 0,
    {
        0
    }

    pub fn degree(&self) -> (r: usize)
        ensures
            r == 1,
    {
        1
    }

    /// One constraint per output limb.
    pub fn num_constraints(&self) -> (r: usize)
        ensures
            r == self.total_input_limbs,
    {
        self.total_input_limbs
    }

    pub fn generators(&self, row: usize) -> (r: Vec<MulBigUintGenerator>)
        ensures
            r@ == seq![MulBigUintGenerator { gate: *self, row }],
    {
        vec![MulBigUintGenerator { gate: *self, row }]
    }

    /// The multiplicand limbs of a base-field row whose multiplicand wires
    /// all hold values below `2^32`.
    pub open spec fn operand_spec(&self, w: Seq<u64>, start: int, len: int) -> Seq<u32> {
        Seq::new(len as nat, |i: int| w[start + i] as u32)
    }

    /// The constraints at a base-field row: for each output limb, the wire
    /// less the same limb of the product of the multiplicands.
    pub open spec fn eval_base_spec(&self, w: Seq<u64>, product: Seq<u32>) -> Seq<u64> {
        Seq::new(
            self.total_input_limbs as nat,
            |i: int|
                fsub(
                    w[self.total_input_limbs + i] as int,
                    if i < product.len() {
                        product[i] as int
                    } else {
                        0
                    },
                ) as u64,
        )
    }

    fn operand(&self, w: &Vec<u64>, start: usize, len: usize) -> (r: Vec<u32>)
        requires
            start + len <= w@.len(),
        ensures
            r@ == self.operand_spec(w@, start as int, len as int),
    {
        let mut r: Vec<u32> = Vec::new();
        let mut i: usize = 0;
        let wl = w.len();
        while i < len
            invariant
                i <= len,
                start + len <= w@.len(),
                wl == w@.len(),
                r@ == self.operand_spec(w@, start as int, i as int),
            decreases len - i,
        {
            r.push(w[start + i] as u32);
            i = i + 1;
            assert(r@ =~= self.operand_spec(w@, start as int, i as int));
        }
        r
    }

    /// The constraints at a trace row over the base field. Every one is zero
    /// exactly when each output wire holds the matching limb of the product.
    /// A row whose multiplicand wires are not all below `2^32` holds no
    /// integers: it is refused with `None`.
    pub fn eval_unfiltered_base_one(&self, local_wires: &Vec<u64>) -> (r: Option<Vec<u64>>)
        requires
            self.wf(),
            local_wires@.len() >= 2 * self.total_input_limbs,
            forall|i: int| 0 <= i < local_wires@.len() ==> canonical(#[trigger] local_wires@[i]),
        ensures
            r is Some <==> all_limbs(local_wires@.take(self.total_input_limbs as int)),
            r matches Some(c) ==> ({
                let m0 = self.operand_spec(local_wires@, 0, self.multiplicand0_num_limbs as int);
                let m1 = self.operand_spec(local_wires@, self.multiplicand0_num_limbs as int, self.multiplicand1_num_limbs as int);
                exists|product: Seq<u32>|
                    #![trigger digits_val(product)]
                    digits_val(product) == digits_val(m0) * digits_val(m1) && (product.len() == 0 || product.last() != 0)
                        && c@ == self.eval_base_spec(local_wires@, product)
            }),
    {
        let mut i: usize = 0;
        while i < self.total_input_limbs
            invariant
                i <= self.total_input_limbs,
                local_wires@.len() >= 2 * self.total_input_limbs,
                forall|k: int| 0 <= k < i ==> (#[trigger] local_wires@[k]) < limb_base(),
            decreases self.total_input_limbs - i,
        {
            if local_wires[i] >= 0x1_0000_0000 {
                proof {
                    assert(local_wires@.take(self.total_input_limbs as int)[i as int] == local_wires@[i as int]);
                }
                return None;
            }
            i = i + 1;
        }
        proof {
            assert forall|k: int| 0 <= k < self.total_input_limbs implies (#[trigger] local_wires@.take(self.total_input_limbs as int)[k]) < limb_base() by {
                assert(local_wires@[k] < limb_base());
            }
        }
        let m0 = self.operand(local_wires, 0, self.multiplicand0_num_limbs);
        let m1 = self.operand(local_wires, self.multiplicand0_num_limbs, self.multiplicand1_num_limbs);
        let product = biguint_mul_digits(&m0, &m1);
        let n = self.total_input_limbs;
        let mut r: Vec<u64> = Vec::new();
        let mut i: usize = 0;
        while i < n
            invariant
                i <= n,
                n == self.total_input_limbs,
                self.wf(),
                local_wires@.len() >= 2 * n,
                forall|k: int| 0 <= k < local_wires@.len() ==> canonical(#[trigger] local_wires@[k]),
                r@ == self.eval_base_spec(local_wires@, product@).take(i as int),
            decreases n - i,
        {
            let p: u64 = if i < product.len() {
                product[i] as u64
            } else {
                0
            };
            r.push(field_sub(local_wires[n + i], p % crate::field::ORDER));
            proof {
                vstd::arithmetic::div_mod::lemma_small_mod(p as nat, crate::field::order() as nat);
                assert(r@ =~= self.eval_base_spec(local_wires@, product@).take(i + 1));
            }
            i = i + 1;
        }
        assert(r@ =~= self.eval_base_spec(local_wires@, product@));
        Some(r)
    }
}

/// Derives the product limbs of one row of a `MulBigUintGate`.
#[derive(Clone, Copy, Debug, PartialEq, Eq, Structural)]
pub struct MulBigUintGenerator {
    pub gate: MulBigUintGate,
    pub row: usize,
}

/// `B^k` with `B = 2^32`.
proof fn lemma_pow_succ(k: nat)
    ensures
        pow(limb_base(), k + 1) == limb_base() * pow(limb_base(), k),
        pow(limb_base(), k) > 0,
{
    vstd::arithmetic::power::lemma_pow_positive(limb_base(), k);
    vstd::arithmetic::power::lemma_pow_adds(limb_base(), 1, k);
    vstd::arithmetic::power::lemma_pow1(limb_base());
    assert(1 + k == k + 1);
}

/// Adding `x` to entry `k` adds `x * B^k` to the value.
proof fn lemma_limbs_val_update(s: Seq<u64>, k: int, v: u64)
    requires
        0 <= k < s.len(),
    ensures
        limbs_val(s.update(k, v)) == limbs_val(s) + (v - s[k]) * pow(limb_base(), k as nat),
    decreases s.len(),
{
    if k == 0 {
        assert(s.update(0, v).drop_first() =~= s.drop_first());
        assert(pow(limb_base(), 0) == 1) by {
            vstd::arithmetic::power::lemma_pow0(limb_base());
        }
    } else {
        assert(s.update(k, v).drop_first() =~= s.drop_first().update(k - 1, v));
        lemma_limbs_val_update(s.drop_first(), k - 1, v);
        lemma_pow_succ((k - 1) as nat);
        let p = pow(limb_base(), (k - 1) as nat);
        assert(limb_base() * ((v - s[k]) * p) == (v - s[k]) * (limb_base() * p)) by (nonlinear_arith);
    }
}

/// The value of a prefix one longer.
proof fn lemma_limbs_val_take(s: Seq<u64>, j: int)
    requires
        0 <= j < s.len(),
    ensures
        limbs_val(s.take(j + 1)) == limbs_val(s.take(j)) + s[j] * pow(limb_base(), j as nat),
    decreases j,
{
    if j == 0 {
        assert(s.take(1).drop_first() =~= Seq::<u64>::empty());
        assert(s.take(0) =~= Seq::<u64>::empty());
        assert(pow(limb_base(), 0) == 1) by {
            vstd::arithmetic::power::lemma_pow0(limb_base());
        }
    } else {
        assert(s.take(j + 1).drop_first() =~= s.drop_first().take(j));
        assert(s.take(j).drop_first() =~= s.drop_first().take(j - 1));
        lemma_limbs_val_take(s.drop_first(), j - 1);
        lemma_pow_succ((j - 1) as nat);
        let p = pow(limb_base(), (j - 1) as nat);
        let x = limbs_val(s.drop_first().take(j - 1));
        assert(s.drop_first()[j - 1] == s[j]);
        assert(limb_base() * (x + s[j] * p) == limb_base() * x + s[j] * (limb_base() * p)) by (nonlinear_arith);
        assert(limbs_val(s.take(j + 1)) == s[0] + limb_base() * limbs_val(s.drop_first().take(j)));
        assert(limbs_val(s.take(j)) == s[0] + limb_base() * x);
    }
}

/// Limbs below the base bound their value.
proof fn lemma_limbs_val_bound(s: Seq<u64>)
    requires
        all_limbs(s),
    ensures
        0 <= limbs_val(s) < pow(limb_base(), s.len()),
    decreases s.len(),
{
    if s.len() == 0 {
        vstd::arithmetic::power::lemma_pow0(limb_base());
    } else {
        lemma_limbs_val_bound(s.drop_first());
        lemma_pow_succ((s.len() - 1) as nat);
        let p = pow(limb_base(), (s.len() - 1) as nat);
        let v = limbs_val(s.drop_first());
        assert(s[0] + limb_base() * v < limb_base() * p) by (nonlinear_arith)
            requires
                0 <= s[0] < limb_base(),
                0 <= v < p,
        ;
        assert(0 <= limb_base() * v) by (nonlinear_arith)
            requires
                0 <= v,
        ;
    }
}

/// Each limb of a limb sequence is the matching limb of its value.
proof fn lemma_limbs_are_limbs_of_val(s: Seq<u64>, i: int)
    requires
        all_limbs(s),
        0 <= i < s.len(),
    ensures
        s[i] == limb_of(limbs_val(s), i as nat),
    decreases i,
{
    let b = limb_base();
    lemma_limbs_val_bound(s.drop_first());
    let v = limbs_val(s.drop_first());
    vstd::arithmetic::div_mod::lemma_fundamental_div_mod_converse(limbs_val(s), b, v, s[0] as int);
    if i == 0 {
        vstd::arithmetic::power::lemma_pow0(b);
    } else {
        lemma_limbs_are_limbs_of_val(s.drop_first(), i - 1);
        vstd::arithmetic::power::lemma_pow_positive(b, (i - 1) as nat);
        lemma_pow_succ((i - 1) as nat);
        vstd::arithmetic::div_mod::lemma_div_denominator(limbs_val(s), b, pow(b, (i - 1) as nat));
    }
}

impl MulBigUintGenerator {
    /// The input wires: the limbs of both multiplicands.
    pub fn dependencies(&self) -> (r: Vec<Wire>)
        requires
            self.gate.wf(),
        ensures
            r@ == Seq::new(self.gate.total_input_limbs as nat, |c: int| Wire { row: self.row, column: c as usize }),
    {
        let n = self.gate.total_input_limbs;
        let mut r: Vec<Wire> = Vec::new();
        let mut c: usize = 0;
        while c < n
            invariant
                c <= n,
                r@ == Seq::new(c as nat, |k: int| Wire { row: self.row, column: k as usize }),
            decreases n - c,
        {
            r.push(Wire { row: self.row, column: c });
            c = c + 1;
            assert(r@ =~= Seq::new(c as nat, |k: int| Wire { row: self.row, column: k as usize }));
        }
        r
    }

    /// The product limbs of two limb sequences by schoolbook multiplication,
    /// propagating the carry limb by limb along each row. Every partial sum
    /// fits a `u64`, and the product fits the combined number of limbs, so
    /// no carry is left over.
    pub fn mul_limbs(m0: &Vec<u64>, m1: &Vec<u64>) -> (r: Vec<u64>)
        requires
            all_limbs(m0@),
            all_limbs(m1@),
            m0@.len() + m1@.len() <= usize::MAX,
        ensures
            r@.len() == m0@.len() + m1@.len(),
            all_limbs(r@),
            limbs_val(r@) == limbs_val(m0@) * limbs_val(m1@),
    {
        let n0 = m0.len();
        let n1 = m1.len();
        let total = n0 + n1;
        let mut out: Vec<u64> = Vec::new();
        let mut k: usize = 0;
        while k < total
            invariant
                k <= total,
                out@.len() == k,
                forall|m: int| 0 <= m < k ==> out@[m] == 0,
            decreases total - k,
        {
            out.push(0);
            k = k + 1;
        }
        proof {
            lemma_zero_limbs(out@);
            assert(m0@.take(0) =~= Seq::<u64>::empty());
        }
        let mut i: usize = 0;
        while i < n0
            invariant
                i <= n0,
                n0 == m0@.len(),
                n1 == m1@.len(),
                total == n0 + n1,
                all_limbs(m0@),
                all_limbs(m1@),
                out@.len() == total,
                all_limbs(out@),
                forall|m: int| i + n1 <= m < total ==> out@[m] == 0,
                limbs_val(out@) == limbs_val(m0@.take(i as int)) * limbs_val(m1@),
            decreases n0 - i,
        {
            let a = m0[i];
            let mut carry: u64 = 0;
            let mut j: usize = 0;
            proof {
                assert(m1@.take(0) =~= Seq::<u64>::empty());
                assert(a * 0 * pow(limb_base(), i as nat) == 0) by (nonlinear_arith);
                vstd::arithmetic::power::lemma_pow0(limb_base());
            }
            while j < n1
                invariant
                    i < n0,
                    j <= n1,
                    n0 == m0@.len(),
                    n1 == m1@.len(),
                    total == n0 + n1,
                    all_limbs(m0@),
                    all_limbs(m1@),
                    a == m0@[i as int],
                    out@.len() == total,
                    all_limbs(out@),
                    carry < limb_base(),
                    forall|m: int| i + n1 <= m < total ==> out@[m] == 0,
                    limbs_val(out@) + carry * pow(limb_base(), (i + j) as nat) == limbs_val(m0@.take(i as int))
                        * limbs_val(m1@) + a * limbs_val(m1@.take(j as int)) * pow(limb_base(), i as nat),
                decreases n1 - j,
            {
                let b = m1[j];
                let o = out[i + j];
                proof {
                    assert(a * b <= 0xffff_ffff * 0xffff_ffff) by (nonlinear_arith)
                        requires
                            a <= 0xffff_ffff,
                            b <= 0xffff_ffff,
                    ;
                }
                let t: u64 = o + a * b + carry;
                let ghost before = out@;
                let ghost old_carry = carry;
                out.set(i + j, t % 0x1_0000_0000);
                carry = t / 0x1_0000_0000;
                proof {
                    let bb = limb_base();
                    let p = pow(bb, (i + j) as nat);
                    let bi = pow(bb, i as nat);
                    let pj = pow(bb, j as nat);
                    lemma_limbs_val_update(before, (i + j) as int, (t % 0x1_0000_0000) as u64);
                    lemma_pow_succ((i + j) as nat);
                    lemma_limbs_val_take(m1@, j as int);
                    vstd::arithmetic::power::lemma_pow_adds(bb, i as nat, j as nat);
                    let ti = t as int;
                    assert(ti == ti % bb + bb * (ti / bb));
                    assert((ti % bb - o) * p + (ti / bb) * (bb * p) == (ti - o) * p) by (nonlinear_arith)
                        requires
                            ti == ti % bb + bb * (ti / bb),
                    ;
                    assert((ti - o) * p == (a * b) * p + old_carry * p) by (nonlinear_arith)
                        requires
                            ti == o + a * b + old_carry,
                    ;
                    assert(a * (limbs_val(m1@.take(j as int)) + b * pj) * bi == a * limbs_val(m1@.take(j as int)) * bi
                        + (a * b) * (bi * pj)) by (nonlinear_arith);
                }
                j = j + 1;
            }
            // The row's last carry lands in a limb that is still zero.
            let ghost before = out@;
            out.set(i + n1, carry);
            proof {
                let bb = limb_base();
                lemma_limbs_val_update(before, (i + n1) as int, carry);
                assert(m1@.take(n1 as int) =~= m1@);
                lemma_limbs_val_take(m0@, i as int);
                let bi = pow(bb, i as nat);
                assert(limbs_val(m0@.take(i as int)) * limbs_val(m1@) + a * limbs_val(m1@) * bi
                    == (limbs_val(m0@.take(i as int)) + a * bi) * limbs_val(m1@)) by (nonlinear_arith);
            }
            i = i + 1;
        }
        proof {
            assert(m0@.take(n0 as int) =~= m0@);
        }
        out
    }

    fn read_operand(witness: &PartitionWitness, row: usize, start: usize, len: usize) -> (r: Option<Vec<u64>>)
        requires
            witness.wf(),
            start + len <= usize::MAX,
        ensures
            match operand_from_witness(witness, row, start as int, len as int) {
                Some(s) => r matches Some(v) && v@ == s,
                None => r is None,
            },
    {
        let mut v: Vec<u64> = Vec::new();
        let mut i: usize = 0;
        while i < len
            invariant
                i <= len,
                start + len <= usize::MAX,
                witness.wf(),
                v@.len() == i,
                forall|k: int| 0 <= k < i ==> (#[trigger] witness.value(Wire { row, column: (start + k) as usize })) is Some,
                v@ == Seq::new(i as nat, |k: int| witness.value(Wire { row, column: (start + k) as usize })->Some_0),
            decreases len - i,
        {
            match witness.try_get(Wire { row, column: start + i }) {
                Some(x) => {
                    v.push(x);
                },
                None => {
                    proof {
                        assert(!(witness.value(Wire { row, column: (start + (i as int)) as usize }) is Some));
                    }
                    return None;
                },
            }
            i = i + 1;
            proof {
                assert(v@ =~= Seq::new(i as nat, |k: int| witness.value(Wire { row, column: (start + k) as usize })->Some_0));
            }
        }
        Some(v)
    }

    /// The output assignments of the row: the limbs of the product of the
    /// multiplicands; `Ok(None)` while an input is unassigned. An input wire
    /// that holds `2^32` or more is no limb: it is refused with
    /// `LimbOverflow`, never truncated.
    pub fn run_once(&self, witness: &PartitionWitness) -> (r: Result<Option<Vec<(Wire, u64)>>, GeneratorError>)
        requires
            witness.wf(),
            self.gate.wf(),
        ensures
            match (
                operand_from_witness(witness, self.row, 0, self.gate.multiplicand0_num_limbs as int),
                operand_from_witness(
                    witness,
                    self.row,
                    self.gate.multiplicand0_num_limbs as int,
                    self.gate.multiplicand1_num_limbs as int,
                ),
            ) {
                (Some(m0), Some(m1)) => if all_limbs(m0) && all_limbs(m1) {
                    r matches Ok(Some(v)) && v@ == product_assignments(self.gate, self.row, m0, m1)
                } else {
                    r == Err::<Option<Vec<(Wire, u64)>>, GeneratorError>(GeneratorError::LimbOverflow)
                },
                _ => r == Ok::<Option<Vec<(Wire, u64)>>, GeneratorError>(None),
            },
            r matches Ok(Some(v)) ==> forall|i: int| 0 <= i < v@.len() ==> canonical(#[trigger] v@[i].1),
    {
        let g = self.gate;
        let m0 = match Self::read_operand(witness, self.row, 0, g.multiplicand0_num_limbs) {
            Some(v) => v,
            None => {
                return Ok(None);
            },
        };
        let m1 = match Self::read_operand(witness, self.row, g.multiplicand0_num_limbs, g.multiplicand1_num_limbs) {
            Some(v) => v,
            None => {
                return Ok(None);
            },
        };
        if !fits_limbs(&m0) || !fits_limbs(&m1) {
            return Err(GeneratorError::LimbOverflow);
        }
        let limbs = Self::mul_limbs(&m0, &m1);
        let n = g.total_input_limbs;
        let mut out: Vec<(Wire, u64)> = Vec::new();
        let mut i: usize = 0;
        while i < n
            invariant
                i <= n,
                n == g.total_input_limbs,
                g.wf(),
                limbs@.len() == n,
                all_limbs(limbs@),
                limbs_val(limbs@) == limbs_val(m0@) * limbs_val(m1@),
                out@ == product_assignments(g, self.row, m0@, m1@).take(i as int),
            decreases n - i,
        {
            proof {
                lemma_limbs_are_limbs_of_val(limbs@, i as int);
            }
            out.push((Wire { row: self.row, column: n + i }, limbs[i]));
            i = i + 1;
            proof {
                assert(out@ =~= product_assignments(g, self.row, m0@, m1@).take(i as int));
            }
        }
        proof {
            assert(out@ =~= product_assignments(g, self.row, m0@, m1@));
            assert forall|k: int| 0 <= k < out@.len() implies canonical(#[trigger] out@[k].1) by {
                lemma_limbs_are_limbs_of_val(limbs@, k);
                assert(out@[k].1 == limbs@[k]);
            }
        }
        Ok(Some(out))
    }
}

/// The values that the witness holds on the multiplicand wires of a row, or
/// `None` while one is unassigned.
pub open spec fn operand_from_witness(wit: &PartitionWitness, row: usize, start: int, len: int) -> Option<Seq<u64>> {
    if forall|i: int| 0 <= i < len ==> (#[trigger] wit.value(Wire { row, column: (start + i) as usize })) is Some {
        Some(Seq::new(len as nat, |i: int| wit.value(Wire { row, column: (start + i) as usize })->Some_0))
    } else {
        None
    }
}

/// The output wires of a row paired with the limbs of `m0 * m1`.
pub open spec fn product_assignments(gate: MulBigUintGate, row: usize, m0: Seq<u64>, m1: Seq<u64>) -> Seq<(Wire, u64)> {
    Seq::new(
        gate.total_input_limbs as nat,
        |i: int|
            (
                Wire { row, column: (gate.total_input_limbs + i) as usize },
                limb_of(limbs_val(m0) * limbs_val(m1), i as nat) as u64,
            ),
    )
}

proof fn lemma_zero_limbs(s: Seq<u64>)
    requires
        forall|m: int| 0 <= m < s.len() ==> s[m] == 0,
    ensures
        limbs_val(s) == 0,
    decreases s.len(),
{
    if s.len() > 0 {
        lemma_zero_limbs(s.drop_first());
    }
}

/// Digits and limbs of equal entries have equal values.
proof fn lemma_digits_as_limbs(d: Seq<u32>)
    ensures
        digits_val(d) == limbs_val(d.map_values(|x: u32| x as u64)),
        all_limbs(d.map_values(|x: u32| x as u64)),
    decreases d.len(),
{
    if d.len() > 0 {
        lemma_digits_as_limbs(d.drop_first());
        assert(d.map_values(|x: u32| x as u64).drop_first() =~= d.drop_first().map_values(|x: u32| x as u64));
    }
}

/// Limb `i` of the value of digits `d`: the digit itself, or zero past the end.
proof fn lemma_digit_or_zero(d: Seq<u32>, i: nat)
    ensures
        limb_of(digits_val(d), i) == if i < d.len() {
            d[i as int] as int
        } else {
            0
        },
{
    let l = d.map_values(|x: u32| x as u64);
    lemma_digits_as_limbs(d);
    if i < d.len() {
        lemma_limbs_are_limbs_of_val(l, i as int);
    } else {
        lemma_limbs_val_bound(l);
        vstd::arithmetic::power::lemma_pow_increases(limb_base() as nat, d.len(), i);
        vstd::arithmetic::power::lemma_pow_positive(limb_base(), i);
        vstd::arithmetic::div_mod::lemma_basic_div(limbs_val(l), pow(limb_base(), i));
    }
}

/// The constraints of a `MulBigUintGate` vanish on every row whose output
/// wires hold what its generator writes there: the limbs of the product of
/// the multiplicand limbs.
pub proof fn lemma_generated_row_satisfies_gate(gate: MulBigUintGate, w: Seq<u64>, product: Seq<u32>)
    requires
        gate.wf(),
        w.len() >= 2 * gate.total_input_limbs,
        digits_val(product) == digits_val(gate.operand_spec(w, 0, gate.multiplicand0_num_limbs as int)) * digits_val(
            gate.operand_spec(w, gate.multiplicand0_num_limbs as int, gate.multiplicand1_num_limbs as int),
        ),
        forall|i: int|
            0 <= i < gate.total_input_limbs ==> #[trigger] w[gate.total_input_limbs + i] == limb_of(
                digits_val(gate.operand_spec(w, 0, gate.multiplicand0_num_limbs as int)) * digits_val(
                    gate.operand_spec(w, gate.multiplicand0_num_limbs as int, gate.multiplicand1_num_limbs as int),
                ),
                i as nat,
            ),
    ensures
        forall|i: int| 0 <= i < gate.total_input_limbs ==> #[trigger] gate.eval_base_spec(w, product)[i] == 0,
{
    assert forall|i: int| 0 <= i < gate.total_input_limbs implies #[trigger] gate.eval_base_spec(w, product)[i] == 0 by {
        lemma_digit_or_zero(product, i as nat);
        let x = w[gate.total_input_limbs + i] as int;
        assert(fsub(x, x) == 0);
    }
}

} // verus!
