//! The algebra `F_p^2[Y] / (Y^2 - W)` over the quadratic extension: pairs of
//! extension elements. Constraints evaluated at an arbitrary extension point
//! compute in it.
use vstd::prelude::*;

use crate::field::{
    canonical, ext_add, ext_add_spec, ext_embed, ext_mul, ext_mul_spec, ext_scalar_mul_spec, ext_sub, ext_sub_spec, fadd,
    fmul, fsub, order, Ext, EXT_W,
};

verus! {

#[derive(Clone, Copy, Debug, PartialEq, Eq, Structural)]
pub struct ExtAlgebra {
    pub a0: Ext,
    pub a1: Ext,
}

impl ExtAlgebra {
    pub open spec fn wf(self) -> bool {
        self.a0.wf() && self.a1.wf()
    }
}

pub open spec fn alg_add_spec(a: ExtAlgebra, b: ExtAlgebra) -> ExtAlgebra {
    ExtAlgebra { a0: ext_add_spec(a.a0, b.a0), a1: ext_add_spec(a.a1, b.a1) }
}

pub open spec fn alg_sub_spec(a: ExtAlgebra, b: ExtAlgebra) -> ExtAlgebra {
    ExtAlgebra { a0: ext_sub_spec(a.a0, b.a0), a1: ext_sub_spec(a.a1, b.a1) }
}

pub open spec fn alg_mul_spec(a: ExtAlgebra, b: ExtAlgebra) -> ExtAlgebra {
    ExtAlgebra {
        a0: ext_add_spec(ext_mul_spec(a.a0, b.a0), ext_mul_spec(ext_embed(EXT_W), ext_mul_spec(a.a1, b.a1))),
        a1: ext_add_spec(ext_mul_spec(a.a0, b.a1), ext_mul_spec(a.a1, b.a0)),
    }
}

pub fn alg_add(a: ExtAlgebra, b: ExtAlgebra) -> (r: ExtAlgebra)
    requires
        a.wf(),
        b.wf(),
    ensures
        r == alg_add_spec(a, b),
        r.wf(),
{
    ExtAlgebra { a0: ext_add(a.a0, b.a0), a1: ext_add(a.a1, b.a1) }
}

pub fn alg_sub(a: ExtAlgebra, b: ExtAlgebra) -> (r: ExtAlgebra)
    requires
        a.wf(),
        b.wf(),
    ensures
        r == alg_sub_spec(a, b),
        r.wf(),
{
    ExtAlgebra { a0: ext_sub(a.a0, b.a0), a1: ext_sub(a.a1, b.a1) }
}

pub fn alg_mul(a: ExtAlgebra, b: ExtAlgebra) -> (r: ExtAlgebra)
    requires
        a.wf(),
        b.wf(),
    ensures
        r == alg_mul_spec(a, b),
        r.wf(),
{
    let w = Ext { c0: EXT_W, c1: 0 };
    ExtAlgebra {
        a0: ext_add(ext_mul(a.a0, b.a0), ext_mul(w, ext_mul(a.a1, b.a1))),
        a1: ext_add(ext_mul(a.a0, b.a1), ext_mul(a.a1, b.a0)),
    }
}

pub open spec fn alg_scalar_mul_spec(s: Ext, a: ExtAlgebra) -> ExtAlgebra {
    ExtAlgebra { a0: ext_mul_spec(a.a0, s), a1: ext_mul_spec(a.a1, s) }
}

pub fn alg_scalar_mul(s: Ext, a: ExtAlgebra) -> (r: ExtAlgebra)
    requires
        s.wf(),
        a.wf(),
    ensures
        r == alg_scalar_mul_spec(s, a),
        r.wf(),
{
    ExtAlgebra { a0: ext_mul(a.a0, s), a1: ext_mul(a.a1, s) }
}

pub open spec fn alg_zero() -> ExtAlgebra {
    ExtAlgebra { a0: Ext { c0: 0, c1: 0 }, a1: Ext { c0: 0, c1: 0 } }
}

/// An extension element seen in the algebra, coordinate by coordinate.
pub open spec fn alg_embed(x: Ext) -> ExtAlgebra {
    ExtAlgebra { a0: ext_embed(x.c0), a1: ext_embed(x.c1) }
}

pub proof fn lemma_embed_ops(x: u64, y: u64)
    requires
        canonical(x),
        canonical(y),
    ensures
        ext_add_spec(ext_embed(x), ext_embed(y)) == ext_embed(fadd(x as int, y as int) as u64),
        ext_sub_spec(ext_embed(x), ext_embed(y)) == ext_embed(fsub(x as int, y as int) as u64),
        ext_mul_spec(ext_embed(x), ext_embed(y)) == ext_embed(fmul(x as int, y as int) as u64),
{
    let p = order();
    vstd::arithmetic::div_mod::lemma_small_mod(0, p as nat);
    assert(0int * 0int == 0);
    assert((x as int) * 0 == 0);
    assert(0 * (y as int) == 0);
    assert((EXT_W as int) * 0 == 0);
    vstd::arithmetic::div_mod::lemma_small_mod(fmul(x as int, y as int) as nat, p as nat);
    assert(fmul(0, 0) == 0);
    assert(fmul(EXT_W as int, 0) == 0);
    assert(fmul(x as int, 0) == 0);
    assert(fmul(0, y as int) == 0);
    assert(fadd(0, 0) == 0);
    assert(fsub(0, 0) == 0);
    assert(fadd(fmul(x as int, y as int), 0) == fmul(x as int, y as int));
}

/// The algebra operations on embedded extension elements are the embedded
/// extension operations.
pub proof fn lemma_alg_ops_embed(x: Ext, y: Ext)
    requires
        x.wf(),
        y.wf(),
    ensures
        alg_add_spec(alg_embed(x), alg_embed(y)) == alg_embed(ext_add_spec(x, y)),
        alg_sub_spec(alg_embed(x), alg_embed(y)) == alg_embed(ext_sub_spec(x, y)),
        alg_mul_spec(alg_embed(x), alg_embed(y)) == alg_embed(ext_mul_spec(x, y)),
        ext_add_spec(x, y).wf(),
        ext_sub_spec(x, y).wf(),
        ext_mul_spec(x, y).wf(),
{
    lemma_embed_ops(x.c0, y.c0);
    lemma_embed_ops(x.c1, y.c1);
    lemma_embed_ops(x.c0, y.c1);
    lemma_embed_ops(x.c1, y.c0);
    lemma_embed_ops(EXT_W, fmul(x.c1 as int, y.c1 as int) as u64);
    lemma_embed_ops(fmul(x.c0 as int, y.c0 as int) as u64, fmul(EXT_W as int, fmul(x.c1 as int, y.c1 as int)) as u64);
    lemma_embed_ops(fmul(x.c0 as int, y.c1 as int) as u64, fmul(x.c1 as int, y.c0 as int) as u64);
}

/// Scaling an embedded element by an embedded base value.
pub proof fn lemma_alg_scalar_embed(p: u64, c: Ext)
    requires
        canonical(p),
        c.wf(),
    ensures
        alg_scalar_mul_spec(ext_embed(p), alg_embed(c)) == alg_embed(ext_scalar_mul_spec(p, c)),
        ext_scalar_mul_spec(p, c).wf(),
{
    lemma_embed_ops(c.c0, p);
    lemma_embed_ops(c.c1, p);
    crate::field::lemma_fmul_comm(c.c0 as int, p as int);
    crate::field::lemma_fmul_comm(c.c1 as int, p as int);
}

} // verus!
