//! Verifier-side FRI arithmetic: query points, the initial combination of
//! opened values, and the folding of a coset at a challenge point.
use vstd::prelude::*;

use crate::field::{
    canonical, exp_power_of_2, exp_u64, ext_add, ext_add_spec, ext_embed, ext_from_base, ext_inverse, ext_inverse_spec, ext_mul, ext_mul_spec, ext_one, ext_one_exec, ext_scalar_mul, ext_scalar_mul_spec, ext_sub, ext_sub_spec, ext_zero, ext_zero_exec, field_mul, field_sub, fmul, fpow, fsub, inverse, Ext, MULTIPLICATIVE_GROUP_GENERATOR, ORDER,
};

verus! {

/// The two-adicity of the multiplicative group of the field.
pub const TWO_ADICITY: usize = 32;

/// A generator of the subgroup of order `2^32`.
pub const POWER_OF_TWO_GENERATOR: u64 = 1753635133440165772;

/// `n` with its lowest `bits` bits reversed (higher bits dropped).
pub open spec fn reverse_bits_spec(n: nat, bits: nat) -> nat
    decreases bits,
{
    if bits == 0 {
        0
    } else {
        (n % 2) * vstd::arithmetic::power2::pow2((bits - 1) as nat) + reverse_bits_spec(n / 2, (bits - 1) as nat)
    }
}

pub proof fn lemma_reverse_bits_bound(n: nat, bits: nat)
    ensures
        reverse_bits_spec(n, bits) < vstd::arithmetic::power2::pow2(bits),
    decreases bits,
{
    vstd::arithmetic::power2::lemma_pow2_pos(bits);
    if bits > 0 {
        lemma_reverse_bits_bound(n / 2, (bits - 1) as nat);
        vstd::arithmetic::power2::lemma_pow2_unfold(bits);
        let p = vstd::arithmetic::power2::pow2((bits - 1) as nat);
        assert((n % 2) * p <= p) by (nonlinear_arith)
            requires
                n % 2 <= 1,
                p > 0,
        ;
    }
}

pub fn reverse_bits(n: usize, bits: usize) -> (r: usize)
    requires
        bits <= 32,
    ensures
        r == reverse_bits_spec(n as nat, bits as nat),
        (r as nat) < vstd::arithmetic::power2::pow2(bits as nat),
{
    let mut acc: usize = 0;
    let mut m: usize = n;
    let mut b: usize = bits;
    proof {
        vstd::arithmetic::power2::lemma2_to64();
    }
    // acc * 2^b + rev(m, b) == rev(n, bits)
    while b > 0
        invariant
            b <= bits <= 32,
            (acc as nat) < vstd::arithmetic::power2::pow2((bits - b) as nat),
            acc * vstd::arithmetic::power2::pow2(b as nat) + reverse_bits_spec(m as nat, b as nat)
                == reverse_bits_spec(n as nat, bits as nat),
        decreases b,
    {
        proof {
            vstd::arithmetic::power2::lemma2_to64();
            vstd::arithmetic::power2::lemma_pow2_unfold(b as nat);
            vstd::arithmetic::power2::lemma_pow2_unfold((bits - b + 1) as nat);
            vstd::arithmetic::power2::lemma_pow2_adds((bits - b) as nat, b as nat);
            vstd::arithmetic::power2::lemma_pow2_pos((b - 1) as nat);
            let p = vstd::arithmetic::power2::pow2((b - 1) as nat);
            assert(acc * (2 * p) + (m % 2) * p == (2 * acc + m % 2) * p) by (nonlinear_arith);
            assert((acc as nat) < vstd::arithmetic::power2::pow2((bits - b) as nat));
            assert(2 * acc + 1 < vstd::arithmetic::power2::pow2((bits - b + 1) as nat));
            if ((bits - b + 1) as nat) < 32 {
                vstd::arithmetic::power2::lemma_pow2_strictly_increases((bits - b + 1) as nat, 32);
            }
        }
        acc = 2 * acc + m % 2;
        m = m / 2;
        b = b - 1;
    }
    proof {
        assert(reverse_bits_spec(m as nat, 0) == 0);
        assert(vstd::arithmetic::power2::pow2(0) == 1) by {
            vstd::arithmetic::power2::lemma2_to64();
        }
        assert(acc * 1 == acc);
        lemma_reverse_bits_bound(n as nat, bits as nat);
    }
    acc
}

/// The generator of the subgroup of order `2^bits`.
pub open spec fn root_of_unity_spec(bits: nat) -> int {
    fpow(POWER_OF_TWO_GENERATOR as int, vstd::arithmetic::power2::pow2((TWO_ADICITY - bits) as nat))
}

pub fn primitive_root_of_unity(bits: usize) -> (r: u64)
    requires
        bits <= TWO_ADICITY,
    ensures
        r == root_of_unity_spec(bits as nat),
        canonical(r),
{
    exp_power_of_2(POWER_OF_TWO_GENERATOR, TWO_ADICITY - bits)
}

/// The query point for position `x_index` of the evaluation domain of size
/// `2^log_n`: the coset shift times the bit-reversed power of the root.
pub open spec fn query_point_spec(x_index: usize, log_n: usize) -> int {
    fmul(
        MULTIPLICATIVE_GROUP_GENERATOR as int,
        fpow(root_of_unity_spec(log_n as nat), reverse_bits_spec(x_index as nat, log_n as nat)),
    )
}

pub fn query_point(x_index: usize, log_n: usize) -> (r: u64)
    requires
        log_n <= TWO_ADICITY,
    ensures
        r == query_point_spec(x_index, log_n),
        canonical(r),
{
    let root = primitive_root_of_unity(log_n);
    let rev = reverse_bits(x_index, log_n);
    field_mul(MULTIPLICATIVE_GROUP_GENERATOR, exp_u64(root, rev as u64))
}

/// `sum_i alpha^i * terms[i]`, evaluated by Horner's rule.
pub open spec fn reduce_spec(alpha: Ext, terms: Seq<Ext>) -> Ext
    decreases terms.len(),
{
    if terms.len() == 0 {
        ext_zero()
    } else {
        ext_add_spec(ext_mul_spec(reduce_spec(alpha, terms.drop_first()), alpha), terms[0])
    }
}

pub open spec fn all_wf(s: Seq<Ext>) -> bool {
    forall|i: int| 0 <= i < s.len() ==> (#[trigger] s[i]).wf()
}

pub fn reduce(alpha: Ext, terms: &Vec<Ext>) -> (r: Ext)
    requires
        alpha.wf(),
        all_wf(terms@),
    ensures
        r == reduce_spec(alpha, terms@),
        r.wf(),
{
    let mut acc = ext_zero_exec();
    let mut i: usize = terms.len();
    assert(terms@.skip(i as int) =~= Seq::<Ext>::empty());
    while i > 0
        invariant
            i <= terms@.len(),
            alpha.wf(),
            all_wf(terms@),
            acc.wf(),
            acc == reduce_spec(alpha, terms@.skip(i as int)),
        decreases i,
    {
        assert(terms@.skip(i - 1).drop_first() =~= terms@.skip(i as int));
        acc = ext_add(ext_mul(acc, alpha), terms[i - 1]);
        i = i - 1;
    }
    assert(terms@.skip(0) =~= terms@);
    acc
}

/// The base-field values `vals` seen in the extension.
pub open spec fn embed_all(vals: Seq<u64>) -> Seq<Ext> {
    vals.map_values(|v: u64| ext_embed(v))
}

/// The initial combination of one query round: the alpha-reduction of the
/// values opened at the query point `x`, less the alpha-reduction of the
/// claimed openings at `zeta`, divided by `x - zeta`.
pub open spec fn combine_initial_spec(leaves: Seq<u64>, openings: Seq<Ext>, alpha: Ext, zeta: Ext, x: u64) -> Ext {
    ext_mul_spec(
        ext_sub_spec(reduce_spec(alpha, embed_all(leaves)), reduce_spec(alpha, openings)),
        ext_inverse_spec(ext_sub_spec(ext_embed(x), zeta)),
    )
}

pub fn combine_initial(leaves: &Vec<u64>, openings: &Vec<Ext>, alpha: Ext, zeta: Ext, x: u64) -> (r: Ext)
    requires
        forall|i: int| 0 <= i < leaves@.len() ==> canonical(#[trigger] leaves@[i]),
        all_wf(openings@),
        alpha.wf(),
        zeta.wf(),
        canonical(x),
    ensures
        r == combine_initial_spec(leaves@, openings@, alpha, zeta, x),
        r.wf(),
{
    let mut embedded: Vec<Ext> = Vec::new();
    let mut i: usize = 0;
    while i < leaves.len()
        invariant
            i <= leaves@.len(),
            forall|k: int| 0 <= k < leaves@.len() ==> canonical(#[trigger] leaves@[k]),
            embedded@ == embed_all(leaves@.take(i as int)),
            all_wf(embedded@),
        decreases leaves@.len() - i,
    {
        embedded.push(ext_from_base(leaves[i]));
        assert(embed_all(leaves@.take(i + 1)) =~= embed_all(leaves@.take(i as int)).push(ext_embed(leaves@[i as int])));
        i = i + 1;
    }
    assert(leaves@.take(i as int) =~= leaves@);
    let num = ext_sub(reduce(alpha, &embedded), reduce(alpha, openings));
    let den = ext_sub(ext_from_base(x), zeta);
    ext_mul(num, ext_inverse(den))
}

/// The points `start * g^k` for `k < n`.
pub open spec fn coset_points_spec(start: int, g: int, n: nat) -> Seq<int>
    decreases n,
{
    if n == 0 {
        Seq::empty()
    } else {
        let prev = coset_points_spec(start, g, (n - 1) as nat);
        prev.push(if n == 1 { start } else { fmul(prev.last(), g) })
    }
}

/// The product over `j < k`, `j != i`, of `(at - xs[j]) / (xs[i] - xs[j])`.
pub open spec fn lagrange_basis_spec(xs: Seq<u64>, i: int, at: Ext, k: int) -> Ext
    decreases k,
{
    if k <= 0 {
        ext_one()
    } else {
        let prev = lagrange_basis_spec(xs, i, at, k - 1);
        if k - 1 == i {
            prev
        } else {
            ext_mul_spec(
                prev,
                ext_scalar_mul_spec(
                    fpow(fsub(xs[i] as int, xs[k - 1] as int), (ORDER - 2) as nat) as u64,
                    ext_sub_spec(at, ext_embed(xs[k - 1])),
                ),
            )
        }
    }
}

/// The value at `at` of the polynomial of degree `< n` through the first `n`
/// points `(xs[i], ys[i])`, in Lagrange form.
pub open spec fn lagrange_spec(xs: Seq<u64>, ys: Seq<Ext>, at: Ext, n: int) -> Ext
    decreases n,
{
    if n <= 0 {
        ext_zero()
    } else {
        ext_add_spec(
            lagrange_spec(xs, ys, at, n - 1),
            ext_mul_spec(ys[n - 1], lagrange_basis_spec(xs, n - 1, at, xs.len() as int)),
        )
    }
}

fn lagrange_basis(xs: &Vec<u64>, i: usize, at: Ext) -> (r: Ext)
    requires
        i < xs@.len(),
        forall|k: int| 0 <= k < xs@.len() ==> canonical(#[trigger] xs@[k]),
        at.wf(),
    ensures
        r == lagrange_basis_spec(xs@, i as int, at, xs@.len() as int),
        r.wf(),
{
    let mut acc = ext_one_exec();
    let mut k: usize = 0;
    while k < xs.len()
        invariant
            k <= xs@.len(),
            i < xs@.len(),
            forall|j: int| 0 <= j < xs@.len() ==> canonical(#[trigger] xs@[j]),
            at.wf(),
            acc.wf(),
            acc == lagrange_basis_spec(xs@, i as int, at, k as int),
        decreases xs@.len() - k,
    {
        if k != i {
            let d = inverse(field_sub(xs[i], xs[k]));
            acc = ext_mul(acc, ext_scalar_mul(d, ext_sub(at, ext_from_base(xs[k]))));
        }
        k = k + 1;
    }
    acc
}

/// Evaluates at `at` the polynomial through the points `(xs[i], ys[i])`.
pub fn lagrange_eval(xs: &Vec<u64>, ys: &Vec<Ext>, at: Ext) -> (r: Ext)
    requires
        xs@.len() == ys@.len(),
        forall|k: int| 0 <= k < xs@.len() ==> canonical(#[trigger] xs@[k]),
        all_wf(ys@),
        at.wf(),
    ensures
        r == lagrange_spec(xs@, ys@, at, xs@.len() as int),
        r.wf(),
{
    let mut acc = ext_zero_exec();
    let mut i: usize = 0;
    while i < xs.len()
        invariant
            i <= xs@.len(),
            xs@.len() == ys@.len(),
            forall|k: int| 0 <= k < xs@.len() ==> canonical(#[trigger] xs@[k]),
            all_wf(ys@),
            at.wf(),
            acc.wf(),
            acc == lagrange_spec(xs@, ys@, at, i as int),
        decreases xs@.len() - i,
    {
        acc = ext_add(acc, ext_mul(ys[i], lagrange_basis(xs, i, at)));
        i = i + 1;
    }
    acc
}

/// `evals` listed in bit-reversed order of their indices.
pub open spec fn reverse_index_bits_spec(evals: Seq<Ext>, bits: nat) -> Seq<Ext> {
    Seq::new(evals.len(), |k: int| evals[reverse_bits_spec(k as nat, bits) as int])
}

/// The coset of size `2^arity_bits` that holds the point `x` at position
/// `x_index_within_coset`, in natural order.
pub open spec fn fold_points_spec(x: u64, x_index_within_coset: usize, arity_bits: usize) -> Seq<int> {
    let g = root_of_unity_spec(arity_bits as nat);
    let arity = vstd::arithmetic::power2::pow2(arity_bits as nat);
    let g_inv = fpow(g, (arity - 1) as nat);
    let rev = reverse_bits_spec(x_index_within_coset as nat, arity_bits as nat);
    let coset_start = fmul(x as int, fpow(g_inv, rev));
    coset_points_spec(coset_start, g, arity)
}

/// One FRI folding step: interpolates the coset evaluations `evals` (in
/// bit-reversed order) and evaluates the interpolant at `beta`.
pub open spec fn compute_evaluation_spec(
    x: u64,
    x_index_within_coset: usize,
    arity_bits: usize,
    evals: Seq<Ext>,
    beta: Ext,
) -> Ext {
    let pts = fold_points_spec(x, x_index_within_coset, arity_bits);
    lagrange_spec(
        pts.map_values(|p: int| p as u64),
        reverse_index_bits_spec(evals, arity_bits as nat),
        beta,
        evals.len() as int,
    )
}

pub fn compute_evaluation(x: u64, x_index_within_coset: usize, arity_bits: usize, evals: &Vec<Ext>, beta: Ext) -> (r: Ext)
    requires
        canonical(x),
        arity_bits <= 16,
        evals@.len() == vstd::arithmetic::power2::pow2(arity_bits as nat),
        all_wf(evals@),
        beta.wf(),
    ensures
        r == compute_evaluation_spec(x, x_index_within_coset, arity_bits, evals@, beta),
        r.wf(),
{
    proof {
        vstd::arithmetic::power2::lemma2_to64();
        vstd::arithmetic::power2::lemma_pow2_strictly_increases(arity_bits as nat, 17);
    }
    let arity: usize = evals.len();
    let g = primitive_root_of_unity(arity_bits);
    let g_inv = exp_u64(g, (arity - 1) as u64);
    let rev = reverse_bits(x_index_within_coset, arity_bits);
    let coset_start = field_mul(x, exp_u64(g_inv, rev as u64));
    let ghost pts = fold_points_spec(x, x_index_within_coset, arity_bits);
    let mut xs: Vec<u64> = Vec::new();
    let mut ys: Vec<Ext> = Vec::new();
    let mut cur: u64 = coset_start;
    let mut k: usize = 0;
    while k < arity
        invariant
            k <= arity,
            arity == evals@.len(),
            arity == vstd::arithmetic::power2::pow2(arity_bits as nat),
            arity_bits <= 16,
            all_wf(evals@),
            canonical(cur),
            canonical(g),
            g == root_of_unity_spec(arity_bits as nat),
            coset_start == fmul(x as int, fpow(fpow(g as int, (arity - 1) as nat), reverse_bits_spec(x_index_within_coset as nat, arity_bits as nat))),
            k == 0 ==> cur == coset_start,
            xs@.len() == k,
            ys@.len() == k,
            xs@ == coset_points_spec(coset_start as int, g as int, k as nat).map_values(|p: int| p as u64),
            k > 0 ==> cur == fmul(coset_points_spec(coset_start as int, g as int, k as nat).last(), g as int),
            forall|j: int| 0 <= j < k ==> canonical(#[trigger] xs@[j]),
            ys@ == reverse_index_bits_spec(evals@, arity_bits as nat).take(k as int),
            all_wf(ys@),
        decreases arity - k,
    {
        let rk = reverse_bits(k, arity_bits);
        proof {
            assert(coset_points_spec(coset_start as int, g as int, (k + 1) as nat).last() == cur as int);
        }
        xs.push(cur);
        ys.push(evals[rk]);
        proof {
            assert(xs@ =~= coset_points_spec(coset_start as int, g as int, (k + 1) as nat).map_values(|p: int| p as u64));
            assert(ys@ =~= reverse_index_bits_spec(evals@, arity_bits as nat).take(k + 1));
        }
        cur = field_mul(cur, g);
        k = k + 1;
    }
    proof {
        assert(ys@ =~= reverse_index_bits_spec(evals@, arity_bits as nat));
    }
    lagrange_eval(&xs, &ys, beta)
}

} // verus!
