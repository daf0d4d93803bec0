//! Arithmetic in the Goldilocks field `F_p`, `p = 2^64 - 2^32 + 1`, and in its
//! quadratic extension `F_p[X] / (X^2 - 7)`.
//!
//! Base-field elements are `u64` values in canonical form (`< p`).
use vstd::prelude::*;

verus! {

/// The field order `2^64 - 2^32 + 1`.
pub const ORDER: u64 = 0xffff_ffff_0000_0001;

/// The quadratic non-residue `W` with `X^2 = W` in the extension.
pub const EXT_W: u64 = 7;

/// The multiplicative group generator used to shift evaluation domains.
pub const MULTIPLICATIVE_GROUP_GENERATOR: u64 = 7;

pub open spec fn order() -> int {
    ORDER as int
}

pub open spec fn canonical(x: u64) -> bool {
    x < ORDER
}

pub open spec fn fadd(a: int, b: int) -> int {
    (a + b) % order()
}

pub open spec fn fsub(a: int, b: int) -> int {
    (a - b) % order()
}

pub open spec fn fmul(a: int, b: int) -> int {
    (a * b) % order()
}

/// `a^e` reduced into the field.
pub open spec fn fpow(a: int, e: nat) -> int
    decreases e,
{
    if e == 0 {
        1
    } else {
        fmul(a, fpow(a, (e - 1) as nat))
    }
}

pub fn field_add(a: u64, b: u64) -> (r: u64)
    requires
        canonical(a),
        canonical(b),
    ensures
        r == fadd(a as int, b as int),
        canonical(r),
{
    let s: u128 = a as u128 + b as u128;
    (s % (ORDER as u128)) as u64
}

pub fn field_sub(a: u64, b: u64) -> (r: u64)
    requires
        canonical(a),
        canonical(b),
    ensures
        r == fsub(a as int, b as int),
        canonical(r),
{
    let s: u128 = a as u128 + ORDER as u128 - b as u128;
    proof {
        assert((a - b) % order() == (a - b + order()) % order()) by {
            vstd::arithmetic::div_mod::lemma_mod_add_multiples_vanish((a - b) as int, order());
        }
    }
    (s % (ORDER as u128)) as u64
}

pub fn neg(a: u64) -> (r: u64)
    requires
        canonical(a),
    ensures
        r == fsub(0, a as int),
        canonical(r),
{
    field_sub(0, a)
}

pub fn field_mul(a: u64, b: u64) -> (r: u64)
    requires
        canonical(a),
        canonical(b),
    ensures
        r == fmul(a as int, b as int),
        canonical(r),
{
    let x: u128 = a as u128;
    let y: u128 = b as u128;
    assert(x * y <= 0xffff_ffff_ffff_ffff_u128 * 0xffff_ffff_ffff_ffff_u128) by (nonlinear_arith)
        requires
            x <= 0xffff_ffff_ffff_ffff_u128,
            y <= 0xffff_ffff_ffff_ffff_u128,
    ;
    let prod: u128 = x * y;
    (prod % (ORDER as u128)) as u64
}

/// `a^e` by square-and-multiply.
pub fn exp_u64(a: u64, e: u64) -> (r: u64)
    requires
        canonical(a),
    ensures
        r == fpow(a as int, e as nat),
        canonical(r),
{
    let mut result: u64 = 1;
    let mut base: u64 = a;
    let mut k: u64 = e;
    proof {
        lemma_fpow_canonical(a as int, e as nat);
        vstd::arithmetic::div_mod::lemma_small_mod(fpow(a as int, e as nat) as nat, order() as nat);
    }
    while k > 0
        invariant
            canonical(result),
            canonical(base),
            fmul(result as int, fpow(base as int, k as nat)) == fpow(a as int, e as nat),
        decreases k,
    {
        if k % 2 == 1 {
            proof {
                lemma_fpow_split_odd(base as int, k as nat);
                lemma_fmul_assoc(result as int, base as int, fpow(fmul(base as int, base as int), (k / 2) as nat));
            }
            result = field_mul(result, base);
        } else {
            proof {
                lemma_fpow_split_even(base as int, k as nat);
            }
        }
        base = field_mul(base, base);
        k = k / 2;
    }
    proof {
        assert(fpow(base as int, 0) == 1);
        assert(fmul(result as int, 1) == result as int) by {
            vstd::arithmetic::div_mod::lemma_small_mod(result as nat, order() as nat);
        }
    }
    result
}

/// `a^(p-2)`, the multiplicative inverse of a nonzero `a` by Fermat's little theorem.
pub fn inverse(a: u64) -> (r: u64)
    requires
        canonical(a),
    ensures
        r == fpow(a as int, (ORDER - 2) as nat),
        canonical(r),
{
    exp_u64(a, ORDER - 2)
}

pub proof fn lemma_fmul_canonical(a: int, b: int)
    ensures
        0 <= fmul(a, b) < order(),
{
}

pub proof fn lemma_fpow_canonical(a: int, e: nat)
    ensures
        0 <= fpow(a, e) < order(),
{
    if e > 0 {
        lemma_fmul_canonical(a, fpow(a, (e - 1) as nat));
    }
}

pub proof fn lemma_fmul_comm(a: int, b: int)
    ensures
        fmul(a, b) == fmul(b, a),
{
    assert(a * b == b * a) by (nonlinear_arith);
}

pub proof fn lemma_fmul_assoc(a: int, b: int, c: int)
    ensures
        fmul(fmul(a, b), c) == fmul(a, fmul(b, c)),
{
    let p = order();
    vstd::arithmetic::div_mod::lemma_mul_mod_noop_left(a * b, c, p);
    vstd::arithmetic::div_mod::lemma_mul_mod_noop_right(a, b * c, p);
    assert(a * b * c == a * (b * c)) by (nonlinear_arith);
}

pub proof fn lemma_fpow_add(a: int, m: nat, n: nat)
    ensures
        fpow(a, m + n) == fmul(fpow(a, m), fpow(a, n)),
    decreases m,
{
    if m == 0 {
        lemma_fpow_canonical(a, n);
        vstd::arithmetic::div_mod::lemma_small_mod(fpow(a, n) as nat, order() as nat);
    } else {
        lemma_fpow_add(a, (m - 1) as nat, n);
        assert((m + n - 1) as nat == ((m - 1) as nat + n) as nat);
        lemma_fmul_assoc(a, fpow(a, (m - 1) as nat), fpow(a, n));
    }
}

pub proof fn lemma_fpow_mul(a: int, m: nat, n: nat)
    ensures
        fpow(a, m * n) == fpow(fpow(a, m), n),
    decreases n,
{
    if n == 0 {
        assert(m * 0 == 0);
    } else {
        lemma_fpow_mul(a, m, (n - 1) as nat);
        assert(m * n == m * ((n - 1) as nat) + m) by (nonlinear_arith)
            requires
                n > 0,
        ;
        lemma_fpow_add(a, m * ((n - 1) as nat), m);
        lemma_fmul_comm(fpow(a, m * ((n - 1) as nat)), fpow(a, m));
    }
}

proof fn lemma_fpow_square(b: int, n: nat)
    ensures
        fpow(fmul(b, b), n) == fpow(b, 2 * n),
{
    lemma_fpow_mul(b, 2, n);
    assert(fpow(b, 2) == fmul(b, b)) by {
        assert(fpow(b, 0) == 1);
        assert(fpow(b, 1) == fmul(b, 1));
        vstd::arithmetic::div_mod::lemma_mul_mod_noop_left(b, 1, order());
        vstd::arithmetic::div_mod::lemma_mul_mod_noop_right(b, b % order(), order());
        vstd::arithmetic::div_mod::lemma_mul_mod_noop_left(b, b, order());
    }
}

proof fn lemma_fpow_split_even(b: int, k: nat)
    requires
        k % 2 == 0,
    ensures
        fpow(b, k) == fpow(fmul(b, b), k / 2),
{
    lemma_fpow_square(b, k / 2);
    assert(2 * (k / 2) == k);
}

proof fn lemma_fpow_split_odd(b: int, k: nat)
    requires
        k % 2 == 1,
    ensures
        fpow(b, k) == fmul(b, fpow(fmul(b, b), k / 2)),
{
    lemma_fpow_square(b, k / 2);
    assert(2 * (k / 2) + 1 == k);
    assert(((k - 1) as nat) == 2 * (k / 2));
}

// ---------------------------------------------------------------------------
// Quadratic extension
// ---------------------------------------------------------------------------

/// An element `c0 + c1 X` of `F_p[X] / (X^2 - 7)`.
#[derive(Clone, Copy, Debug, PartialEq, Eq, Structural)]
pub struct Ext {
    pub c0: u64,
    pub c1: u64,
}

impl Ext {
    pub open spec fn wf(self) -> bool {
        canonical(self.c0) && canonical(self.c1)
    }
}

pub open spec fn ext_of(c0: int, c1: int) -> Ext {
    Ext { c0: c0 as u64, c1: c1 as u64 }
}

/// The base-field element `x` seen in the extension.
pub open spec fn ext_embed(x: u64) -> Ext {
    Ext { c0: x, c1: 0 }
}

pub open spec fn ext_add_spec(a: Ext, b: Ext) -> Ext {
    ext_of(fadd(a.c0 as int, b.c0 as int), fadd(a.c1 as int, b.c1 as int))
}

pub open spec fn ext_sub_spec(a: Ext, b: Ext) -> Ext {
    ext_of(fsub(a.c0 as int, b.c0 as int), fsub(a.c1 as int, b.c1 as int))
}

pub open spec fn ext_mul_spec(a: Ext, b: Ext) -> Ext {
    ext_of(
        fadd(fmul(a.c0 as int, b.c0 as int), fmul(EXT_W as int, fmul(a.c1 as int, b.c1 as int))),
        fadd(fmul(a.c0 as int, b.c1 as int), fmul(a.c1 as int, b.c0 as int)),
    )
}

pub open spec fn ext_scalar_mul_spec(s: u64, a: Ext) -> Ext {
    ext_of(fmul(s as int, a.c0 as int), fmul(s as int, a.c1 as int))
}

/// `a^e` in the extension.
pub open spec fn ext_pow_spec(a: Ext, e: nat) -> Ext
    decreases e,
{
    if e == 0 {
        ext_one()
    } else {
        ext_mul_spec(a, ext_pow_spec(a, (e - 1) as nat))
    }
}

pub open spec fn ext_one() -> Ext {
    Ext { c0: 1, c1: 0 }
}

pub open spec fn ext_zero() -> Ext {
    Ext { c0: 0, c1: 0 }
}

/// The inverse of a nonzero `a = a0 + a1 X`: `(a0 - a1 X) / (a0^2 - 7 a1^2)`.
pub open spec fn ext_inverse_spec(a: Ext) -> Ext {
    let norm = fsub(fmul(a.c0 as int, a.c0 as int), fmul(EXT_W as int, fmul(a.c1 as int, a.c1 as int)));
    let inv = fpow(norm, (ORDER - 2) as nat);
    ext_of(fmul(a.c0 as int, inv), fmul(fsub(0, a.c1 as int), inv))
}

pub fn ext_zero_exec() -> (r: Ext)
    ensures
        r == ext_zero(),
{
    Ext { c0: 0, c1: 0 }
}

pub fn ext_one_exec() -> (r: Ext)
    ensures
        r == ext_one(),
{
    Ext { c0: 1, c1: 0 }
}

pub fn ext_from_base(x: u64) -> (r: Ext)
    ensures
        r == ext_embed(x),
{
    Ext { c0: x, c1: 0 }
}

pub fn ext_add(a: Ext, b: Ext) -> (r: Ext)
    requires
        a.wf(),
        b.wf(),
    ensures
        r == ext_add_spec(a, b),
        r.wf(),
{
    Ext { c0: field_add(a.c0, b.c0), c1: field_add(a.c1, b.c1) }
}

pub fn ext_sub(a: Ext, b: Ext) -> (r: Ext)
    requires
        a.wf(),
        b.wf(),
    ensures
        r == ext_sub_spec(a, b),
        r.wf(),
{
    Ext { c0: field_sub(a.c0, b.c0), c1: field_sub(a.c1, b.c1) }
}

pub fn ext_mul(a: Ext, b: Ext) -> (r: Ext)
    requires
        a.wf(),
        b.wf(),
    ensures
        r == ext_mul_spec(a, b),
        r.wf(),
{
    let c0 = field_add(field_mul(a.c0, b.c0), field_mul(EXT_W, field_mul(a.c1, b.c1)));
    let c1 = field_add(field_mul(a.c0, b.c1), field_mul(a.c1, b.c0));
    Ext { c0, c1 }
}

pub fn ext_scalar_mul(s: u64, a: Ext) -> (r: Ext)
    requires
        canonical(s),
        a.wf(),
    ensures
        r == ext_scalar_mul_spec(s, a),
        r.wf(),
{
    Ext { c0: field_mul(s, a.c0), c1: field_mul(s, a.c1) }
}

pub fn ext_inverse(a: Ext) -> (r: Ext)
    requires
        a.wf(),
    ensures
        r == ext_inverse_spec(a),
        r.wf(),
{
    let norm = field_sub(field_mul(a.c0, a.c0), field_mul(EXT_W, field_mul(a.c1, a.c1)));
    let inv = inverse(norm);
    Ext { c0: field_mul(a.c0, inv), c1: field_mul(neg(a.c1), inv) }
}

/// `a^(2^bits)`, by repeated squaring.
pub fn exp_power_of_2(a: u64, bits: usize) -> (r: u64)
    requires
        canonical(a),
    ensures
        r == fpow(a as int, vstd::arithmetic::power2::pow2(bits as nat)),
        canonical(r),
{
    let mut r: u64 = a;
    let mut i: usize = 0;
    proof {
        vstd::arithmetic::power2::lemma2_to64();
        assert(fpow(a as int, 0) == 1);
        assert(fpow(a as int, 1) == fmul(a as int, 1));
        vstd::arithmetic::div_mod::lemma_small_mod(a as nat, order() as nat);
    }
    while i < bits
        invariant
            i <= bits,
            canonical(r),
            r == fpow(a as int, vstd::arithmetic::power2::pow2(i as nat)),
        decreases bits - i,
    {
        proof {
            vstd::arithmetic::power2::lemma_pow2_unfold((i + 1) as nat);
            lemma_fpow_square(a as int, vstd::arithmetic::power2::pow2(i as nat));
            lemma_fpow_mul(a as int, vstd::arithmetic::power2::pow2(i as nat), 2);
            assert(fpow(r as int, 2) == fmul(r as int, r as int)) by {
                lemma_fpow_square(r as int, 1);
                assert(fpow(fmul(r as int, r as int), 0) == 1);
                assert(fpow(fmul(r as int, r as int), 1) == fmul(fmul(r as int, r as int), 1));
                lemma_fmul_canonical(r as int, r as int);
                vstd::arithmetic::div_mod::lemma_small_mod(fmul(r as int, r as int) as nat, order() as nat);
            }
            assert(vstd::arithmetic::power2::pow2(i as nat) * 2 == vstd::arithmetic::power2::pow2((i + 1) as nat));
        }
        r = field_mul(r, r);
        i = i + 1;
    }
    r
}

} // verus!
