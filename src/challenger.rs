//! The Fiat-Shamir transcript: a duplex sponge over the base field whose
//! permutation is supplied by the caller.
use vstd::prelude::*;

use crate::field::{canonical, Ext, ORDER};

verus! {

pub const SPONGE_WIDTH: usize = 12;

pub const SPONGE_RATE: usize = 8;

/// The number of field elements in a hash digest.
pub const NUM_HASH_OUT_ELTS: usize = 4;

/// The sponge permutation of the hash function that the proof system is
/// instantiated with is a function of the state: the same state always
/// permutes to the same result.
pub open spec fn deterministic<P: Fn([u64; 12]) -> [u64; 12]>(perm: P) -> bool {
    &&& forall|a: [u64; 12]| #[trigger] perm.requires((a,))
    &&& forall|a: [u64; 12], r1: [u64; 12], r2: [u64; 12]|
        #[trigger] perm.ensures((a,), r1) && #[trigger] perm.ensures((a,), r2) ==> r1 == r2
}

/// What the permutation makes of a state.
pub open spec fn permuted<P: Fn([u64; 12]) -> [u64; 12]>(perm: P, s: Seq<u64>) -> Seq<u64> {
    (choose|a: [u64; 12], r: [u64; 12]| a@ == s && #[trigger] perm.ensures((a,), r)).1@
}

proof fn lemma_permuted<P: Fn([u64; 12]) -> [u64; 12]>(perm: P, a: [u64; 12], r: [u64; 12])
    requires
        deterministic(perm),
        perm.ensures((a,), r),
    ensures
        permuted(perm, a@) == r@,
{
    assert(exists|a2: [u64; 12], r2: [u64; 12]| a2@ == a@ && #[trigger] perm.ensures((a2,), r2));
    let (a2, r2) = choose|a2: [u64; 12], r2: [u64; 12]| a2@ == a@ && #[trigger] perm.ensures((a2,), r2);
    vstd::array::axiom_array_ext_equal(a2, a);
    assert(forall|i: int| 0 <= i < 12 ==> a2[i] == a@[i]);
    assert(a2 =~= a);
}

/// Applies the permutation.
pub fn permute<P: Fn([u64; 12]) -> [u64; 12]>(perm: &P, state: [u64; 12]) -> (r: [u64; 12])
    requires
        deterministic(*perm),
    ensures
        r@ == permuted(*perm, state@),
{
    let r = perm(state);
    proof {
        lemma_permuted(*perm, state, r);
    }
    r
}

/// The state of a sponge: the permutation state, the pending input, and the
/// outputs not yet handed out.
pub type SpongeModel = (Seq<u64>, Seq<u64>, Seq<u64>);

/// The rate part of `state` overwritten with `chunk`.
pub open spec fn overwrite(state: Seq<u64>, chunk: Seq<u64>) -> Seq<u64> {
    chunk + state.skip(chunk.len() as int)
}

/// Absorbs `input` block by block: each block of up to `SPONGE_RATE`
/// elements overwrites the rate part, then the state is permuted.
pub open spec fn absorb_spec<P: Fn([u64; 12]) -> [u64; 12]>(perm: P, state: Seq<u64>, input: Seq<u64>) -> Seq<u64>
    decreases input.len(),
{
    if input.len() == 0 {
        state
    } else {
        let c = if input.len() > SPONGE_RATE { SPONGE_RATE as int } else { input.len() as int };
        absorb_spec(perm, permuted(perm, overwrite(state, input.take(c))), input.skip(c))
    }
}

/// Appends observed elements to the pending input; buffered outputs are
/// dropped once anything new is observed.
pub open spec fn observe_spec(m: SpongeModel, xs: Seq<u64>) -> SpongeModel {
    (m.0, m.1 + xs, if xs.len() > 0 { Seq::empty() } else { m.2 })
}

/// Absorbs pending input, leaving the rate part of the new state as outputs.
pub open spec fn flush_spec<P: Fn([u64; 12]) -> [u64; 12]>(perm: P, m: SpongeModel) -> SpongeModel {
    if m.1.len() == 0 {
        m
    } else {
        let st = absorb_spec(perm, m.0, m.1);
        (st, Seq::empty(), st.take(SPONGE_RATE as int))
    }
}

/// One challenge: pending input is absorbed, an empty output buffer is
/// refilled by one permutation, and the last output is taken.
pub open spec fn squeeze_spec<P: Fn([u64; 12]) -> [u64; 12]>(perm: P, m: SpongeModel) -> (u64, SpongeModel) {
    let f = flush_spec(perm, m);
    let g = if f.2.len() == 0 {
        let st = permuted(perm, f.0);
        (st, f.1, st.take(SPONGE_RATE as int))
    } else {
        f
    };
    ((g.2.last() % ORDER) as u64, (g.0, g.1, g.2.drop_last()))
}

pub open spec fn squeeze_n_spec<P: Fn([u64; 12]) -> [u64; 12]>(perm: P, m: SpongeModel, n: nat) -> (Seq<u64>, SpongeModel)
    decreases n,
{
    if n == 0 {
        (Seq::empty(), m)
    } else {
        let prev = squeeze_n_spec(perm, m, (n - 1) as nat);
        let next = squeeze_spec(perm, prev.1);
        (prev.0.push(next.0), next.1)
    }
}

pub open spec fn squeeze_ext_spec<P: Fn([u64; 12]) -> [u64; 12]>(perm: P, m: SpongeModel) -> (Ext, SpongeModel) {
    let a = squeeze_spec(perm, m);
    let b = squeeze_spec(perm, a.1);
    (Ext { c0: a.0, c1: b.0 }, b.1)
}

/// The squeezed outputs of a sponge hash with state `state`: up to
/// `SPONGE_RATE` elements per permutation.
pub open spec fn hash_out_spec<P: Fn([u64; 12]) -> [u64; 12]>(perm: P, state: Seq<u64>, m: nat) -> Seq<u64>
    decreases m,
{
    if m <= SPONGE_RATE {
        state.take(m as int).map_values(|x: u64| (x % ORDER) as u64)
    } else {
        state.take(SPONGE_RATE as int).map_values(|x: u64| (x % ORDER) as u64) + hash_out_spec(
            perm,
            permuted(perm, state),
            (m - SPONGE_RATE) as nat,
        )
    }
}

/// Hashes `inputs` into `m` elements: absorbed into the zero state without
/// padding, then squeezed.
pub open spec fn hash_spec<P: Fn([u64; 12]) -> [u64; 12]>(perm: P, inputs: Seq<u64>, m: nat) -> Seq<u64> {
    hash_out_spec(perm, absorb_spec(perm, Seq::new(12, |i: int| 0u64), inputs), m)
}

/// A hash digest: four field elements.
#[derive(Clone, Copy, Debug, PartialEq, Eq)]
pub struct HashOut {
    pub elements: [u64; 4],
}

/// The roots of a Merkle tree cut at some height.
#[derive(Clone, Debug, PartialEq, Eq)]
pub struct MerkleCap {
    pub hashes: Vec<HashOut>,
}

/// The elements of a sequence of digests, in order.
pub open spec fn hashes_elements(hs: Seq<HashOut>) -> Seq<u64>
    decreases hs.len(),
{
    if hs.len() == 0 {
        Seq::empty()
    } else {
        hashes_elements(hs.drop_last()) + hs.last().elements@
    }
}

/// The base-field coordinates of a sequence of extension elements, in order.
pub open spec fn ext_elements(es: Seq<Ext>) -> Seq<u64>
    decreases es.len(),
{
    if es.len() == 0 {
        Seq::empty()
    } else {
        ext_elements(es.drop_last()) + seq![es.last().c0, es.last().c1]
    }
}

pub struct Challenger {
    pub sponge_state: [u64; 12],
    pub input_buffer: Vec<u64>,
    pub output_buffer: Vec<u64>,
}

impl Challenger {
    pub open spec fn wf(&self) -> bool {
        self.output_buffer@.len() <= SPONGE_RATE
    }

    pub open spec fn model(&self) -> SpongeModel {
        (self.sponge_state@, self.input_buffer@, self.output_buffer@)
    }

    pub fn new() -> (r: Challenger)
        ensures
            r.wf(),
            r.model() == initial_model(),
    {
        let r = Challenger { sponge_state: [0u64; 12], input_buffer: Vec::new(), output_buffer: Vec::new() };
        assert(r.sponge_state@ =~= Seq::new(12, |i: int| 0u64));
        assert(r.input_buffer@ =~= Seq::<u64>::empty());
        assert(r.output_buffer@ =~= Seq::<u64>::empty());
        r
    }

    /// Appends one element to the pending input; buffered outputs no longer
    /// reflect the transcript and are dropped.
    pub fn observe_element(&mut self, element: u64)
        requires
            old(self).wf(),
        ensures
            final(self).wf(),
            final(self).model() == observe_spec(old(self).model(), seq![element]),
    {
        self.output_buffer.clear();
        self.input_buffer.push(element);
        assert(self.input_buffer@ =~= old(self).input_buffer@ + seq![element]);
        assert(self.output_buffer@ =~= Seq::<u64>::empty());
    }

    pub fn observe_elements(&mut self, elements: &Vec<u64>)
        requires
            old(self).wf(),
        ensures
            final(self).wf(),
            final(self).model() == observe_spec(old(self).model(), elements@),
    {
        let mut i: usize = 0;
        while i < elements.len()
            invariant
                i <= elements@.len(),
                self.wf(),
                self.model() == observe_spec(old(self).model(), elements@.take(i as int)),
            decreases elements@.len() - i,
        {
            self.observe_element(elements[i]);
            assert(old(self).input_buffer@ + elements@.take(i + 1) =~= old(self).input_buffer@ + elements@.take(i as int)
                + seq![elements@[i as int]]);
            i = i + 1;
        }
        assert(elements@.take(i as int) =~= elements@);
        assert(old(self).input_buffer@ + elements@.take(0) =~= old(self).input_buffer@);
    }

    pub fn observe_hash(&mut self, h: &HashOut)
        requires
            old(self).wf(),
        ensures
            final(self).wf(),
            final(self).model() == observe_spec(old(self).model(), h.elements@),
    {
        let v: Vec<u64> = vec![h.elements[0], h.elements[1], h.elements[2], h.elements[3]];
        assert(v@ =~= h.elements@);
        self.observe_elements(&v);
    }

    pub fn observe_cap(&mut self, cap: &MerkleCap)
        requires
            old(self).wf(),
        ensures
            final(self).wf(),
            final(self).model() == observe_spec(old(self).model(), hashes_elements(cap.hashes@)),
    {
        let mut i: usize = 0;
        assert(old(self).input_buffer@ + hashes_elements(Seq::<HashOut>::empty()) =~= old(self).input_buffer@);
        while i < cap.hashes.len()
            invariant
                i <= cap.hashes@.len(),
                self.wf(),
                self.model() == observe_spec(old(self).model(), hashes_elements(cap.hashes@.take(i as int))),
            decreases cap.hashes@.len() - i,
        {
            self.observe_hash(&cap.hashes[i]);
            assert(cap.hashes@.take(i + 1).drop_last() =~= cap.hashes@.take(i as int));
            assert(old(self).input_buffer@ + hashes_elements(cap.hashes@.take(i + 1)) =~= old(self).input_buffer@
                + hashes_elements(cap.hashes@.take(i as int)) + cap.hashes@[i as int].elements@);
            i = i + 1;
        }
        assert(cap.hashes@.take(i as int) =~= cap.hashes@);
    }

    pub fn observe_extension_elements(&mut self, es: &Vec<Ext>)
        requires
            old(self).wf(),
        ensures
            final(self).wf(),
            final(self).model() == observe_spec(old(self).model(), ext_elements(es@)),
    {
        let mut i: usize = 0;
        assert(old(self).input_buffer@ + ext_elements(Seq::<Ext>::empty()) =~= old(self).input_buffer@);
        while i < es.len()
            invariant
                i <= es@.len(),
                self.wf(),
                self.model() == observe_spec(old(self).model(), ext_elements(es@.take(i as int))),
            decreases es@.len() - i,
        {
            let e = es[i];
            let v: Vec<u64> = vec![e.c0, e.c1];
            self.observe_elements(&v);
            assert(es@.take(i + 1).drop_last() =~= es@.take(i as int));
            assert(old(self).input_buffer@ + ext_elements(es@.take(i + 1)) =~= old(self).input_buffer@
                + ext_elements(es@.take(i as int)) + v@);
            i = i + 1;
        }
        assert(es@.take(i as int) =~= es@);
    }

    /// Feeds all pending input through the sponge, leaving a full block of
    /// fresh outputs. Does nothing when no input is pending.
    pub fn absorb_buffered_inputs<P: Fn([u64; 12]) -> [u64; 12]>(&mut self, perm: &P)
        requires
            old(self).wf(),
            deterministic(*perm),
        ensures
            final(self).wf(),
            final(self).model() == flush_spec(*perm, old(self).model()),
    {
        if self.input_buffer.len() == 0 {
            return;
        }
        let n = self.input_buffer.len();
        let input = self.input_buffer.clone();
        let mut state = self.sponge_state;
        let mut start: usize = 0;
        assert(input@.skip(0) =~= input@);
        while start < n
            invariant
                input@.len() == n,
                start <= n,
                deterministic(*perm),
                absorb_spec(*perm, state@, input@.skip(start as int)) == absorb_spec(
                    *perm,
                    old(self).sponge_state@,
                    old(self).input_buffer@,
                ),
                input@ == old(self).input_buffer@,
            decreases n - start,
        {
            let end = if n - start > SPONGE_RATE { start + SPONGE_RATE } else { n };
            let ghost before = state@;
            state = absorb_block(perm, state, &input, start, end);
            proof {
                let rest = input@.skip(start as int);
                assert(rest.take((end - start) as int) =~= input@.subrange(start as int, end as int));
                assert(rest.skip((end - start) as int) =~= input@.skip(end as int));
            }
            start = end;
        }
        self.sponge_state = state;
        self.output_buffer = self.rate_outputs();
        self.input_buffer = Vec::new();
        proof {
            assert(input@.skip(n as int) =~= Seq::<u64>::empty());
            assert(self.input_buffer@ =~= Seq::<u64>::empty());
        }
    }

    fn rate_outputs(&self) -> (r: Vec<u64>)
        ensures
            r@ == self.sponge_state@.take(SPONGE_RATE as int),
    {
        let mut r: Vec<u64> = Vec::new();
        let mut i: usize = 0;
        while i < SPONGE_RATE
            invariant
                i <= SPONGE_RATE,
                r@ == self.sponge_state@.take(i as int),
            decreases SPONGE_RATE - i,
        {
            r.push(self.sponge_state[i]);
            assert(self.sponge_state@.take(i + 1) =~= self.sponge_state@.take(i as int).push(self.sponge_state@[i as int]));
            i = i + 1;
        }
        r
    }

    /// Squeezes one field element. Pending input is absorbed first, and an
    /// empty output buffer is refilled by one more permutation; outputs are
    /// then taken from the end of the buffer.
    pub fn get_challenge<P: Fn([u64; 12]) -> [u64; 12]>(&mut self, perm: &P) -> (r: u64)
        requires
            old(self).wf(),
            deterministic(*perm),
        ensures
            final(self).wf(),
            canonical(r),
            (r, final(self).model()) == squeeze_spec(*perm, old(self).model()),
    {
        self.absorb_buffered_inputs(perm);
        if self.output_buffer.len() == 0 {
            self.sponge_state = permute(perm, self.sponge_state);
            self.output_buffer = self.rate_outputs();
        }
        let ghost before = self.output_buffer@;
        let x = self.output_buffer.pop().unwrap();
        assert(self.output_buffer@ =~= before.drop_last());
        x % ORDER
    }

    pub fn get_n_challenges<P: Fn([u64; 12]) -> [u64; 12]>(&mut self, perm: &P, n: usize) -> (r: Vec<u64>)
        requires
            old(self).wf(),
            deterministic(*perm),
        ensures
            final(self).wf(),
            (r@, final(self).model()) == squeeze_n_spec(*perm, old(self).model(), n as nat),
            r@.len() == n,
            forall|i: int| 0 <= i < n ==> canonical(#[trigger] r@[i]),
    {
        let mut r: Vec<u64> = Vec::new();
        let mut i: usize = 0;
        while i < n
            invariant
                i <= n,
                self.wf(),
                deterministic(*perm),
                (r@, self.model()) == squeeze_n_spec(*perm, old(self).model(), i as nat),
                r@.len() == i,
                forall|j: int| 0 <= j < i ==> canonical(#[trigger] r@[j]),
            decreases n - i,
        {
            let c = self.get_challenge(perm);
            r.push(c);
            i = i + 1;
        }
        r
    }

    pub fn get_extension_challenge<P: Fn([u64; 12]) -> [u64; 12]>(&mut self, perm: &P) -> (r: Ext)
        requires
            old(self).wf(),
            deterministic(*perm),
        ensures
            final(self).wf(),
            r.wf(),
            (r, final(self).model()) == squeeze_ext_spec(*perm, old(self).model()),
    {
        let c0 = self.get_challenge(perm);
        let c1 = self.get_challenge(perm);
        Ext { c0, c1 }
    }

    /// Squeezes a digest of the current transcript.
    pub fn get_hash<P: Fn([u64; 12]) -> [u64; 12]>(&mut self, perm: &P) -> (r: HashOut)
        requires
            old(self).wf(),
            deterministic(*perm),
        ensures
            final(self).wf(),
            (r.elements@, final(self).model()) == squeeze_n_spec(*perm, old(self).model(), 4),
            forall|i: int| 0 <= i < 4 ==> canonical(#[trigger] r.elements@[i]),
    {
        let v = self.get_n_challenges(perm, 4);
        proof {
            lemma_squeeze_n_len(*perm, old(self).model(), 4);
        }
        let r = HashOut { elements: [v[0], v[1], v[2], v[3]] };
        assert(r.elements@ =~= v@);
        r
    }
}

pub proof fn lemma_permuted_len<P: Fn([u64; 12]) -> [u64; 12]>(perm: P, s: Seq<u64>)
    ensures
        permuted(perm, s).len() == 12,
{
    let ar = (choose|a: [u64; 12], r: [u64; 12]| a@ == s && #[trigger] perm.ensures((a,), r)).1;
    vstd::array::array_len_matches_n(&ar);
}

pub proof fn lemma_absorb_len<P: Fn([u64; 12]) -> [u64; 12]>(perm: P, st: Seq<u64>, inp: Seq<u64>)
    requires
        st.len() == 12,
    ensures
        absorb_spec(perm, st, inp).len() == 12,
    decreases inp.len(),
{
    if inp.len() > 0 {
        let c = if inp.len() > SPONGE_RATE { SPONGE_RATE as int } else { inp.len() as int };
        let next = permuted(perm, overwrite(st, inp.take(c)));
        lemma_permuted_len(perm, overwrite(st, inp.take(c)));
        lemma_absorb_len(perm, next, inp.skip(c));
    }
}

pub proof fn lemma_hash_out_len<P: Fn([u64; 12]) -> [u64; 12]>(perm: P, st: Seq<u64>, m: nat)
    requires
        st.len() == 12,
    ensures
        hash_out_spec(perm, st, m).len() == m,
    decreases m,
{
    if m > SPONGE_RATE {
        lemma_permuted_len(perm, st);
        lemma_hash_out_len(perm, permuted(perm, st), (m - SPONGE_RATE) as nat);
    }
}

pub proof fn lemma_squeeze_n_len<P: Fn([u64; 12]) -> [u64; 12]>(perm: P, m: SpongeModel, n: nat)
    ensures
        squeeze_n_spec(perm, m, n).0.len() == n,
    decreases n,
{
    if n > 0 {
        lemma_squeeze_n_len(perm, m, (n - 1) as nat);
    }
}

/// A fresh sponge: the zero state, nothing pending, no outputs.
pub open spec fn initial_model() -> SpongeModel {
    (Seq::new(12, |i: int| 0u64), Seq::empty(), Seq::empty())
}

/// Overwrites the rate part of `state` with `input[start..end]` and permutes.
fn absorb_block<P: Fn([u64; 12]) -> [u64; 12]>(perm: &P, state: [u64; 12], input: &Vec<u64>, start: usize, end: usize) -> (r: [u64; 12])
    requires
        start < end <= input@.len(),
        end - start <= SPONGE_RATE,
        deterministic(*perm),
    ensures
        r@ == permuted(*perm, overwrite(state@, input@.subrange(start as int, end as int))),
{
    let mut st = state;
    let mut i: usize = start;
    while i < end
        invariant
            start <= i <= end,
            end <= input@.len(),
            end - start <= SPONGE_RATE,
            st@ == input@.subrange(start as int, i as int) + state@.skip(i - start),
        decreases end - i,
    {
        st[i - start] = input[i];
        i = i + 1;
        assert(st@ =~= input@.subrange(start as int, i as int) + state@.skip(i - start));
    }
    assert(st@ =~= overwrite(state@, input@.subrange(start as int, end as int)));
    permute(perm, st)
}

/// Hashes `inputs` with the sponge, without padding, into `num_outputs`
/// field elements.
pub fn hash_n_to_m_no_pad<P: Fn([u64; 12]) -> [u64; 12]>(perm: &P, inputs: &Vec<u64>, num_outputs: usize) -> (r: Vec<u64>)
    requires
        deterministic(*perm),
    ensures
        r@ == hash_spec(*perm, inputs@, num_outputs as nat),
        forall|i: int| 0 <= i < r@.len() ==> canonical(#[trigger] r@[i]),
{
    let mut state: [u64; 12] = [0u64; 12];
    let n = inputs.len();
    let mut start: usize = 0;
    assert(state@ =~= Seq::new(12, |i: int| 0u64));
    assert(inputs@.skip(0) =~= inputs@);
    while start < n
        invariant
            start <= n,
            n == inputs@.len(),
            deterministic(*perm),
            absorb_spec(*perm, state@, inputs@.skip(start as int)) == absorb_spec(
                *perm,
                Seq::new(12, |i: int| 0u64),
                inputs@,
            ),
        decreases n - start,
    {
        let end = if n - start > SPONGE_RATE { start + SPONGE_RATE } else { n };
        state = absorb_block(perm, state, inputs, start, end);
        proof {
            let rest = inputs@.skip(start as int);
            assert(rest.take((end - start) as int) =~= inputs@.subrange(start as int, end as int));
            assert(rest.skip((end - start) as int) =~= inputs@.skip(end as int));
        }
        start = end;
    }
    proof {
        assert(inputs@.skip(n as int) =~= Seq::<u64>::empty());
    }
    let mut r: Vec<u64> = Vec::new();
    loop
        invariant
            r@.len() <= num_outputs,
            deterministic(*perm),
            forall|i: int| 0 <= i < r@.len() ==> canonical(#[trigger] r@[i]),
            r@ + hash_out_spec(*perm, state@, (num_outputs - r@.len()) as nat) == hash_spec(
                *perm,
                inputs@,
                num_outputs as nat,
            ),
        decreases num_outputs - r@.len(),
    {
        let ghost r0 = r@;
        let ghost left = (num_outputs - r@.len()) as nat;
        let mut i: usize = 0;
        while i < SPONGE_RATE && r.len() < num_outputs
            invariant
                i <= SPONGE_RATE,
                r@.len() == r0.len() + i,
                r@.len() <= num_outputs,
                left == num_outputs - r0.len(),
                r@ == r0 + state@.take(i as int).map_values(|x: u64| (x % ORDER) as u64),
                forall|j: int| 0 <= j < r@.len() ==> canonical(#[trigger] r@[j]),
            decreases SPONGE_RATE - i,
        {
            r.push(state[i] % ORDER);
            i = i + 1;
            assert(r@ =~= r0 + state@.take(i as int).map_values(|x: u64| (x % ORDER) as u64));
        }
        if r.len() == num_outputs {
            proof {
                assert(left <= SPONGE_RATE);
                assert(hash_out_spec(*perm, state@, 0) =~= Seq::<u64>::empty());
                assert(r@ + hash_out_spec(*perm, state@, 0) =~= r@);
            }
            return r;
        }
        proof {
            assert(i == SPONGE_RATE);
            assert(left > SPONGE_RATE);
            assert(r0 + hash_out_spec(*perm, state@, left) =~= r@ + hash_out_spec(
                *perm,
                permuted(*perm, state@),
                (left - SPONGE_RATE) as nat,
            ));
        }
        state = permute(perm, state);
    }
}

/// Hashes `inputs` into a single field element.
pub fn hash_n_to_1<P: Fn([u64; 12]) -> [u64; 12]>(perm: &P, inputs: &Vec<u64>) -> (r: u64)
    requires
        deterministic(*perm),
    ensures
        r == hash_spec(*perm, inputs@, 1)[0],
        canonical(r),
{
    let v = hash_n_to_m_no_pad(perm, inputs, 1);
    proof {
        lemma_absorb_len(*perm, Seq::new(12, |i: int| 0u64), inputs@);
        lemma_hash_out_len(*perm, absorb_spec(*perm, Seq::new(12, |i: int| 0u64), inputs@), 1);
    }
    v[0]
}

/// Hashes `inputs` into a digest.
pub fn hash_no_pad<P: Fn([u64; 12]) -> [u64; 12]>(perm: &P, inputs: &Vec<u64>) -> (r: HashOut)
    requires
        deterministic(*perm),
    ensures
        r.elements@ == hash_spec(*perm, inputs@, 4),
        forall|i: int| 0 <= i < 4 ==> canonical(#[trigger] r.elements@[i]),
{
    let v = hash_n_to_m_no_pad(perm, inputs, 4);
    proof {
        lemma_absorb_len(*perm, Seq::new(12, |i: int| 0u64), inputs@);
        lemma_hash_out_len(*perm, absorb_spec(*perm, Seq::new(12, |i: int| 0u64), inputs@), 4);
    }
    let r = HashOut { elements: [v[0], v[1], v[2], v[3]] };
    assert(r.elements@ =~= v@);
    r
}

} // verus!
