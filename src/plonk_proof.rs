//! Proofs, the circuit data that the verifier shares with the prover, and the
//! replay of the Fiat-Shamir transcript that yields every challenge.
use vstd::prelude::*;

use crate::challenger::{
    deterministic, ext_elements, hash_n_to_1, hash_no_pad, hash_spec, hashes_elements, initial_model, observe_spec,
    squeeze_ext_spec, squeeze_n_spec, squeeze_spec, Challenger, HashOut, MerkleCap, SpongeModel,
};
use crate::field::{canonical, exp_power_of_2, fpow, Ext};
use crate::fri::{
    all_wf, combine_initial, combine_initial_spec, compute_evaluation, compute_evaluation_spec, query_point,
    query_point_spec,
};

verus! {

pub struct FriConfig {
    pub num_query_rounds: usize,
}

pub struct CircuitConfig {
    pub num_challenges: usize,
    pub rate_bits: usize,
    pub fri_config: FriConfig,
}

pub struct CommonCircuitData {
    pub config: CircuitConfig,
    pub degree_bits: usize,
    /// The arity, as a power of two, of each FRI reduction.
    pub reduction_arity_bits: Vec<usize>,
    pub circuit_digest: HashOut,
}

impl CommonCircuitData {
    /// The low-degree-extension domain must be a subgroup of the field whose
    /// size a `usize` holds on every target, and each reduction's coset small
    /// enough to interpolate.
    pub open spec fn wf(&self) -> bool {
        &&& self.degree_bits + self.config.rate_bits <= 31
        &&& forall|i: int|
            0 <= i < self.reduction_arity_bits@.len() ==> 1 <= #[trigger] self.reduction_arity_bits@[i] <= 16
    }

    pub open spec fn log_n(&self) -> nat {
        (self.degree_bits + self.config.rate_bits) as nat
    }

    pub open spec fn lde_size_spec(&self) -> nat {
        vstd::arithmetic::power2::pow2(self.log_n())
    }

    /// The size of the low-degree-extension domain.
    pub fn lde_size(&self) -> (r: usize)
        requires
            self.wf(),
        ensures
            r == self.lde_size_spec(),
            r > 0,
    {
        pow2_usize(self.degree_bits + self.config.rate_bits)
    }
}

/// `2^bits` as a `usize`.
pub fn pow2_usize(bits: usize) -> (r: usize)
    requires
        bits <= 31,
    ensures
        r == vstd::arithmetic::power2::pow2(bits as nat),
        r > 0,
{
    let mut r: usize = 1;
    let mut i: usize = 0;
    proof {
        vstd::arithmetic::power2::lemma2_to64();
    }
    while i < bits
        invariant
            i <= bits <= 31,
            r == vstd::arithmetic::power2::pow2(i as nat),
        decreases bits - i,
    {
        proof {
            vstd::arithmetic::power2::lemma2_to64();
            vstd::arithmetic::power2::lemma_pow2_unfold((i + 1) as nat);
            vstd::arithmetic::power2::lemma_pow2_strictly_increases(i as nat, 31);
        }
        r = r * 2;
        i = i + 1;
    }
    proof {
        vstd::arithmetic::power2::lemma_pow2_pos(bits as nat);
    }
    r
}

/// The values claimed for each committed polynomial at the out-of-domain point.
pub struct OpeningSet {
    pub constants: Vec<Ext>,
    pub plonk_sigmas: Vec<Ext>,
    pub wires: Vec<Ext>,
    pub plonk_zs: Vec<Ext>,
    pub plonk_zs_right: Vec<Ext>,
    pub partial_products: Vec<Ext>,
    pub quotient_polys: Vec<Ext>,
}

impl OpeningSet {
    /// Every claimed value in the order in which the transcript absorbs them.
    pub open spec fn all_spec(&self) -> Seq<Ext> {
        self.constants@ + self.plonk_sigmas@ + self.wires@ + self.plonk_zs@ + self.plonk_zs_right@
            + self.partial_products@ + self.quotient_polys@
    }

    /// The values claimed at `zeta` itself (the shifted `plonk_zs_right` left out).
    pub open spec fn at_zeta_spec(&self) -> Seq<Ext> {
        self.constants@ + self.plonk_sigmas@ + self.wires@ + self.plonk_zs@ + self.partial_products@
            + self.quotient_polys@
    }

    pub open spec fn wf(&self) -> bool {
        all_wf(self.all_spec())
    }

    pub fn all(&self) -> (r: Vec<Ext>)
        ensures
            r@ == self.all_spec(),
    {
        let mut r: Vec<Ext> = Vec::new();
        append(&mut r, &self.constants);
        append(&mut r, &self.plonk_sigmas);
        append(&mut r, &self.wires);
        append(&mut r, &self.plonk_zs);
        append(&mut r, &self.plonk_zs_right);
        append(&mut r, &self.partial_products);
        append(&mut r, &self.quotient_polys);
        r
    }

    pub fn at_zeta(&self) -> (r: Vec<Ext>)
        ensures
            r@ == self.at_zeta_spec(),
    {
        let mut r: Vec<Ext> = Vec::new();
        append(&mut r, &self.constants);
        append(&mut r, &self.plonk_sigmas);
        append(&mut r, &self.wires);
        append(&mut r, &self.plonk_zs);
        append(&mut r, &self.partial_products);
        append(&mut r, &self.quotient_polys);
        r
    }
}

fn append(dst: &mut Vec<Ext>, src: &Vec<Ext>)
    ensures
        final(dst)@ == old(dst)@ + src@,
{
    let mut i: usize = 0;
    while i < src.len()
        invariant
            i <= src@.len(),
            dst@ == old(dst)@ + src@.take(i as int),
        decreases src@.len() - i,
    {
        dst.push(src[i]);
        assert(src@.take(i + 1) =~= src@.take(i as int).push(src@[i as int]));
        i = i + 1;
    }
    assert(src@.take(i as int) =~= src@);
}

/// The leaves opened at one query index in the initial Merkle trees.
pub struct FriInitialTreeProof {
    pub evals: Vec<u64>,
}

/// The sibling evaluations opened in one reduction step of a query.
pub struct FriQueryStep {
    pub evals: Vec<Ext>,
}

/// The query openings of a compressed proof, keyed by index, with the values
/// that the folding chain determines left out.
pub struct CompressedFriQueryRounds {
    pub initial_trees_proofs: Vec<(usize, FriInitialTreeProof)>,
    /// For each reduction depth, the steps keyed by coset index.
    pub steps: Vec<Vec<(usize, FriQueryStep)>>,
}

impl CompressedFriQueryRounds {
    pub open spec fn wf(&self) -> bool {
        &&& forall|i: int, k: int|
            0 <= i < self.initial_trees_proofs@.len() && 0 <= k < self.initial_trees_proofs@[i].1.evals@.len()
                ==> canonical(#[trigger] self.initial_trees_proofs@[i].1.evals@[k])
        &&& forall|d: int, i: int|
            0 <= d < self.steps@.len() && 0 <= i < self.steps@[d]@.len() ==> all_wf(
                #[trigger] self.steps@[d]@[i].1.evals@,
            )
    }
}

pub struct FriProof {
    pub commit_phase_merkle_caps: Vec<MerkleCap>,
    /// Coefficients of the final polynomial.
    pub final_poly: Vec<Ext>,
    pub pow_witness: u64,
}

pub struct Proof {
    pub wires_cap: MerkleCap,
    pub plonk_zs_partial_products_cap: MerkleCap,
    pub quotient_polys_cap: MerkleCap,
    pub openings: OpeningSet,
    pub opening_proof: FriProof,
}

pub struct ProofWithPublicInputs {
    pub proof: Proof,
    pub public_inputs: Vec<u64>,
}

pub struct CompressedProof {
    pub wires_cap: MerkleCap,
    pub plonk_zs_partial_products_cap: MerkleCap,
    pub quotient_polys_cap: MerkleCap,
    pub openings: OpeningSet,
    pub opening_proof: FriProof,
    pub query_round_proofs: CompressedFriQueryRounds,
}

pub struct CompressedProofWithPublicInputs {
    pub proof: CompressedProof,
    pub public_inputs: Vec<u64>,
}

/// Every challenge of one proof.
pub struct ProofChallenges {
    pub plonk_betas: Vec<u64>,
    pub plonk_gammas: Vec<u64>,
    pub plonk_alphas: Vec<u64>,
    pub plonk_zeta: Ext,
    pub fri_alpha: Ext,
    pub fri_betas: Vec<Ext>,
    pub fri_pow_response: u64,
    pub fri_query_indices: Vec<usize>,
    /// For a compressed proof, the evaluations that its query rounds leave out.
    pub fri_query_inferred_elements: Option<Vec<Ext>>,
}

#[derive(Clone, Copy, Debug, PartialEq, Eq, Structural)]
pub enum ChallengeError {
    /// The proof lacks data that the transcript or the query inference needs.
    InvalidTranscript,
}

impl ProofChallenges {
    /// What the transcript guarantees of challenges derived for `common` from
    /// a proof with `num_caps` commit-phase caps.
    pub open spec fn shaped_for(&self, common: &CommonCircuitData, num_caps: nat) -> bool {
        &&& self.plonk_betas@.len() == common.config.num_challenges
        &&& self.plonk_gammas@.len() == common.config.num_challenges
        &&& self.plonk_alphas@.len() == common.config.num_challenges
        &&& forall|i: int| 0 <= i < self.plonk_betas@.len() ==> canonical(#[trigger] self.plonk_betas@[i])
        &&& forall|i: int| 0 <= i < self.plonk_gammas@.len() ==> canonical(#[trigger] self.plonk_gammas@[i])
        &&& forall|i: int| 0 <= i < self.plonk_alphas@.len() ==> canonical(#[trigger] self.plonk_alphas@[i])
        &&& self.plonk_zeta.wf()
        &&& self.fri_alpha.wf()
        &&& self.fri_betas@.len() == num_caps
        &&& all_wf(self.fri_betas@)
        &&& canonical(self.fri_pow_response)
        &&& self.fri_query_indices@.len() == common.config.fri_config.num_query_rounds
        &&& forall|i: int|
            0 <= i < self.fri_query_indices@.len() ==> (#[trigger] self.fri_query_indices@[i] as nat)
                < common.lde_size_spec()
    }
}

/// The challenge values of a transcript.
pub struct ChallengeValues {
    pub plonk_betas: Seq<u64>,
    pub plonk_gammas: Seq<u64>,
    pub plonk_alphas: Seq<u64>,
    pub plonk_zeta: Ext,
    pub fri_alpha: Ext,
    pub fri_betas: Seq<Ext>,
    pub fri_pow_response: u64,
    pub fri_query_indices: Seq<usize>,
}

impl ProofChallenges {
    pub open spec fn values(&self) -> ChallengeValues {
        ChallengeValues {
            plonk_betas: self.plonk_betas@,
            plonk_gammas: self.plonk_gammas@,
            plonk_alphas: self.plonk_alphas@,
            plonk_zeta: self.plonk_zeta,
            fri_alpha: self.fri_alpha,
            fri_betas: self.fri_betas@,
            fri_pow_response: self.fri_pow_response,
            fri_query_indices: self.fri_query_indices@,
        }
    }
}

/// For each commit-phase cap in turn: observe it, then squeeze one
/// extension challenge.
pub open spec fn fri_betas_spec<P: Fn([u64; 12]) -> [u64; 12]>(perm: P, m: SpongeModel, caps: Seq<MerkleCap>, k: nat) -> (
    Seq<Ext>,
    SpongeModel,
)
    decreases k,
{
    if k == 0 || k > caps.len() {
        (Seq::empty(), m)
    } else {
        let prev = fri_betas_spec(perm, m, caps, (k - 1) as nat);
        let next = squeeze_ext_spec(perm, observe_spec(prev.1, hashes_elements(caps[k - 1].hashes@)));
        (prev.0.push(next.0), next.1)
    }
}

/// `n` squeezed challenges, each reduced modulo the domain size.
pub open spec fn query_indices_spec<P: Fn([u64; 12]) -> [u64; 12]>(perm: P, m: SpongeModel, n: nat, lde_size: nat) -> (
    Seq<usize>,
    SpongeModel,
)
    decreases n,
{
    if n == 0 {
        (Seq::empty(), m)
    } else {
        let prev = query_indices_spec(perm, m, (n - 1) as nat, lde_size);
        let next = squeeze_spec(perm, prev.1);
        (prev.0.push((next.0 as nat % lde_size) as usize), next.1)
    }
}

/// The transcript of a proof, in the order that the protocol fixes: the
/// circuit digest and the public-input hash; the wires cap, then the
/// permutation betas and gammas; the permutation cap, then the alphas; the
/// quotient cap, then zeta; the openings, then the FRI alpha; each
/// commit-phase cap with its beta; the final polynomial; the proof-of-work
/// response, a hash of the transcript digest and the witness; the query
/// indices, each a challenge reduced modulo the domain size.
pub open spec fn transcript_spec<P: Fn([u64; 12]) -> [u64; 12]>(
    perm: P,
    common: &CommonCircuitData,
    public_inputs: Seq<u64>,
    wires_cap: &MerkleCap,
    zs_cap: &MerkleCap,
    quotient_cap: &MerkleCap,
    openings: &OpeningSet,
    fri: &FriProof,
) -> ChallengeValues {
    let nc = common.config.num_challenges as nat;
    let m1 = observe_spec(initial_model(), common.circuit_digest.elements@);
    let m2 = observe_spec(m1, hash_spec(perm, public_inputs, 4));
    let m3 = observe_spec(m2, hashes_elements(wires_cap.hashes@));
    let betas = squeeze_n_spec(perm, m3, nc);
    let gammas = squeeze_n_spec(perm, betas.1, nc);
    let m4 = observe_spec(gammas.1, hashes_elements(zs_cap.hashes@));
    let alphas = squeeze_n_spec(perm, m4, nc);
    let m5 = observe_spec(alphas.1, hashes_elements(quotient_cap.hashes@));
    let zeta = squeeze_ext_spec(perm, m5);
    let m6 = observe_spec(zeta.1, ext_elements(openings.all_spec()));
    let fri_alpha = squeeze_ext_spec(perm, m6);
    let caps = fri.commit_phase_merkle_caps@;
    let fri_betas = fri_betas_spec(perm, fri_alpha.1, caps, caps.len());
    let m7 = observe_spec(fri_betas.1, ext_elements(fri.final_poly@));
    let digest = squeeze_n_spec(perm, m7, 4);
    let pow = hash_spec(perm, digest.0.push(fri.pow_witness), 1)[0];
    let indices = query_indices_spec(perm, digest.1, common.config.fri_config.num_query_rounds as nat, common.lde_size_spec());
    ChallengeValues {
        plonk_betas: betas.0,
        plonk_gammas: gammas.0,
        plonk_alphas: alphas.0,
        plonk_zeta: zeta.0,
        fri_alpha: fri_alpha.0,
        fri_betas: fri_betas.0,
        fri_pow_response: pow,
        fri_query_indices: indices.0,
    }
}

/// Replays the transcript shared by full and compressed proofs.
fn derive_challenges<P: Fn([u64; 12]) -> [u64; 12]>(
    perm: &P,
    common: &CommonCircuitData,
    public_inputs: &Vec<u64>,
    wires_cap: &MerkleCap,
    zs_cap: &MerkleCap,
    quotient_cap: &MerkleCap,
    openings: &OpeningSet,
    fri: &FriProof,
) -> (r: ProofChallenges)
    requires
        common.wf(),
        deterministic(*perm),
    ensures
        r.shaped_for(common, fri.commit_phase_merkle_caps@.len()),
        r.values() == transcript_spec(*perm, common, public_inputs@, wires_cap, zs_cap, quotient_cap, openings, fri),
        r.fri_query_inferred_elements is None,
{
    let num_challenges = common.config.num_challenges;
    let num_fri_queries = common.config.fri_config.num_query_rounds;
    let lde_size = common.lde_size();

    let mut challenger = Challenger::new();

    // The instance.
    challenger.observe_hash(&common.circuit_digest);
    let pi_hash = hash_no_pad(perm, public_inputs);
    challenger.observe_hash(&pi_hash);

    challenger.observe_cap(wires_cap);
    let plonk_betas = challenger.get_n_challenges(perm, num_challenges);
    let plonk_gammas = challenger.get_n_challenges(perm, num_challenges);

    challenger.observe_cap(zs_cap);
    let plonk_alphas = challenger.get_n_challenges(perm, num_challenges);

    challenger.observe_cap(quotient_cap);
    let plonk_zeta = challenger.get_extension_challenge(perm);

    challenger.observe_extension_elements(&openings.all());

    // The factor that combines the polynomials.
    let fri_alpha = challenger.get_extension_challenge(perm);
    let ghost after_alpha = challenger.model();

    // The fold factors of the FRI reductions.
    let mut fri_betas: Vec<Ext> = Vec::new();
    let mut i: usize = 0;
    while i < fri.commit_phase_merkle_caps.len()
        invariant
            challenger.wf(),
            deterministic(*perm),
            i <= fri.commit_phase_merkle_caps@.len(),
            fri_betas@.len() == i,
            all_wf(fri_betas@),
            (fri_betas@, challenger.model()) == fri_betas_spec(*perm, after_alpha, fri.commit_phase_merkle_caps@, i as nat),
        decreases fri.commit_phase_merkle_caps@.len() - i,
    {
        challenger.observe_cap(&fri.commit_phase_merkle_caps[i]);
        let beta = challenger.get_extension_challenge(perm);
        fri_betas.push(beta);
        i = i + 1;
    }

    challenger.observe_extension_elements(&fri.final_poly);

    let digest = challenger.get_hash(perm);
    let pow_input: Vec<u64> = vec![digest.elements[0], digest.elements[1], digest.elements[2], digest.elements[3], fri.pow_witness];
    proof {
        assert(pow_input@ =~= digest.elements@.push(fri.pow_witness));
    }
    let fri_pow_response = hash_n_to_1(perm, &pow_input);
    let ghost after_digest = challenger.model();

    let mut fri_query_indices: Vec<usize> = Vec::new();
    let mut q: usize = 0;
    while q < num_fri_queries
        invariant
            challenger.wf(),
            deterministic(*perm),
            q <= num_fri_queries,
            lde_size == common.lde_size_spec(),
            lde_size > 0,
            fri_query_indices@.len() == q,
            forall|k: int| 0 <= k < q ==> (#[trigger] fri_query_indices@[k] as nat) < lde_size,
            (fri_query_indices@, challenger.model()) == query_indices_spec(*perm, after_digest, q as nat, lde_size as nat),
        decreases num_fri_queries - q,
    {
        let c = challenger.get_challenge(perm);
        fri_query_indices.push((c % lde_size as u64) as usize);
        q = q + 1;
    }
    ProofChallenges {
        plonk_betas,
        plonk_gammas,
        plonk_alphas,
        plonk_zeta,
        fri_alpha,
        fri_betas,
        fri_pow_response,
        fri_query_indices,
        fri_query_inferred_elements: None,
    }
}

impl ProofWithPublicInputs {
    /// The challenges that the transcript of this proof yields.
    pub open spec fn challenges_spec<P: Fn([u64; 12]) -> [u64; 12]>(&self, perm: P, common: &CommonCircuitData) -> ChallengeValues {
        transcript_spec(
            perm,
            common,
            self.public_inputs@,
            &self.proof.wires_cap,
            &self.proof.plonk_zs_partial_products_cap,
            &self.proof.quotient_polys_cap,
            &self.proof.openings,
            &self.proof.opening_proof,
        )
    }

    pub fn get_challenges<P: Fn([u64; 12]) -> [u64; 12]>(&self, perm: &P, common_data: &CommonCircuitData) -> (r: Result<
        ProofChallenges,
        ChallengeError,
    >)
        requires
            common_data.wf(),
            deterministic(*perm),
        ensures
            r matches Ok(c) && c.values() == self.challenges_spec(*perm, common_data)
                && c.fri_query_inferred_elements is None
                && c.shaped_for(common_data, self.proof.opening_proof.commit_phase_merkle_caps@.len()),
    {
        Ok(
            derive_challenges(
                perm,
                common_data,
                &self.public_inputs,
                &self.proof.wires_cap,
                &self.proof.plonk_zs_partial_products_cap,
                &self.proof.quotient_polys_cap,
                &self.proof.openings,
                &self.proof.opening_proof,
            ),
        )
    }

    pub fn fri_query_indices<P: Fn([u64; 12]) -> [u64; 12]>(&self, perm: &P, common_data: &CommonCircuitData) -> (r: Result<
        Vec<usize>,
        ChallengeError,
    >)
        requires
            common_data.wf(),
            deterministic(*perm),
        ensures
            r matches Ok(v) && v@ == self.challenges_spec(*perm, common_data).fri_query_indices,
            r matches Ok(v) ==> v@.len() == common_data.config.fri_config.num_query_rounds,
            r matches Ok(v) ==> forall|i: int| 0 <= i < v@.len() ==> (#[trigger] v@[i] as nat) < common_data.lde_size_spec(),
    {
        match self.get_challenges(perm, common_data) {
            Ok(c) => Ok(c.fri_query_indices),
            Err(e) => Err(e),
        }
    }
}

impl CompressedProofWithPublicInputs {
    /// The challenges that the transcript of this proof yields: those of the
    /// full proof with the same commitments, openings and final polynomial.
    pub open spec fn challenges_spec<P: Fn([u64; 12]) -> [u64; 12]>(&self, perm: P, common: &CommonCircuitData) -> ChallengeValues {
        transcript_spec(
            perm,
            common,
            self.public_inputs@,
            &self.proof.wires_cap,
            &self.proof.plonk_zs_partial_products_cap,
            &self.proof.quotient_polys_cap,
            &self.proof.openings,
            &self.proof.opening_proof,
        )
    }

    /// The evaluations that the query rounds leave out, inferred with this
    /// proof's challenges.
    pub open spec fn inferred_spec<P: Fn([u64; 12]) -> [u64; 12]>(&self, perm: P, common: &CommonCircuitData) -> Option<Seq<Ext>> {
        let ch = self.challenges_spec(perm, common);
        infer_spec(
            &self.proof.query_round_proofs,
            common,
            &self.proof.openings,
            ch.fri_query_indices,
            ch.fri_alpha,
            ch.plonk_zeta,
            ch.fri_betas,
        )
    }

    /// The challenges, with the evaluations that the query rounds leave out;
    /// fails exactly when the openings lack what that inference needs.
    pub fn get_challenges<P: Fn([u64; 12]) -> [u64; 12]>(&self, perm: &P, common_data: &CommonCircuitData) -> (r: Result<
        ProofChallenges,
        ChallengeError,
    >)
        requires
            common_data.wf(),
            deterministic(*perm),
            self.proof.openings.wf(),
            self.proof.query_round_proofs.wf(),
        ensures
            match self.inferred_spec(*perm, common_data) {
                Some(v) => r matches Ok(c) && c.values() == self.challenges_spec(*perm, common_data)
                    && c.fri_query_inferred_elements is Some && c.fri_query_inferred_elements->Some_0@ == v
                    && c.shaped_for(common_data, self.proof.opening_proof.commit_phase_merkle_caps@.len()),
                None => r == Err::<ProofChallenges, ChallengeError>(ChallengeError::InvalidTranscript),
            },
    {
        let mut c = derive_challenges(
            perm,
            common_data,
            &self.public_inputs,
            &self.proof.wires_cap,
            &self.proof.plonk_zs_partial_products_cap,
            &self.proof.quotient_polys_cap,
            &self.proof.openings,
            &self.proof.opening_proof,
        );
        match infer_fri_query_elements(
            &self.proof.query_round_proofs,
            common_data,
            &self.proof.openings,
            &c.fri_query_indices,
            c.fri_alpha,
            c.plonk_zeta,
            &c.fri_betas,
        ) {
            Some(v) => {
                c.fri_query_inferred_elements = Some(v);
                Ok(c)
            },
            None => Err(ChallengeError::InvalidTranscript),
        }
    }

    pub fn fri_query_indices<P: Fn([u64; 12]) -> [u64; 12]>(&self, perm: &P, common_data: &CommonCircuitData) -> (r: Result<
        Vec<usize>,
        ChallengeError,
    >)
        requires
            common_data.wf(),
            deterministic(*perm),
            self.proof.openings.wf(),
            self.proof.query_round_proofs.wf(),
        ensures
            match self.inferred_spec(*perm, common_data) {
                Some(_) => r matches Ok(v) && v@ == self.challenges_spec(*perm, common_data).fri_query_indices,
                None => r == Err::<Vec<usize>, ChallengeError>(ChallengeError::InvalidTranscript),
            },
            r matches Ok(v) ==> forall|i: int| 0 <= i < v@.len() ==> (#[trigger] v@[i] as nat) < common_data.lde_size_spec(),
    {
        match self.get_challenges(perm, common_data) {
            Ok(c) => Ok(c.fri_query_indices),
            Err(e) => Err(e),
        }
    }
}

/// Each challenge depends only on what was observed before it: proofs that
/// agree on the public inputs and the wires cap get the same permutation
/// betas and gammas, and with the same permutation cap also the same alphas,
/// whatever else they hold.
pub proof fn lemma_challenges_depend_on_prefix<P: Fn([u64; 12]) -> [u64; 12]>(
    perm: P,
    common: &CommonCircuitData,
    p1: &ProofWithPublicInputs,
    p2: &ProofWithPublicInputs,
)
    requires
        p1.public_inputs@ == p2.public_inputs@,
        p1.proof.wires_cap == p2.proof.wires_cap,
    ensures
        p1.challenges_spec(perm, common).plonk_betas == p2.challenges_spec(perm, common).plonk_betas,
        p1.challenges_spec(perm, common).plonk_gammas == p2.challenges_spec(perm, common).plonk_gammas,
        p1.proof.plonk_zs_partial_products_cap == p2.proof.plonk_zs_partial_products_cap ==> p1.challenges_spec(
            perm,
            common,
        ).plonk_alphas == p2.challenges_spec(perm, common).plonk_alphas,
{
}

/// A compressed proof's transcript is that of the full proof with the same
/// public inputs, commitments, openings and final polynomial: the query
/// openings, which the compressed proof leaves partly out, are never observed.
pub proof fn lemma_compressed_challenges_match_full<P: Fn([u64; 12]) -> [u64; 12]>(
    perm: P,
    common: &CommonCircuitData,
    full: &ProofWithPublicInputs,
    compressed: &CompressedProofWithPublicInputs,
)
    requires
        full.public_inputs@ == compressed.public_inputs@,
        full.proof.wires_cap == compressed.proof.wires_cap,
        full.proof.plonk_zs_partial_products_cap == compressed.proof.plonk_zs_partial_products_cap,
        full.proof.quotient_polys_cap == compressed.proof.quotient_polys_cap,
        full.proof.openings.all_spec() == compressed.proof.openings.all_spec(),
        full.proof.opening_proof.commit_phase_merkle_caps@ == compressed.proof.opening_proof.commit_phase_merkle_caps@,
        full.proof.opening_proof.final_poly@ == compressed.proof.opening_proof.final_poly@,
        full.proof.opening_proof.pow_witness == compressed.proof.opening_proof.pow_witness,
    ensures
        full.challenges_spec(perm, common) == compressed.challenges_spec(perm, common),
{
}

// ---------------------------------------------------------------------------
// Query inference
// ---------------------------------------------------------------------------

/// The entry for `key` in a list keyed by index: the first one that matches.
pub open spec fn find_initial(entries: Seq<(usize, FriInitialTreeProof)>, key: usize) -> Option<Seq<u64>>
    decreases entries.len(),
{
    if entries.len() == 0 {
        None
    } else if entries[0].0 == key {
        Some(entries[0].1.evals@)
    } else {
        find_initial(entries.drop_first(), key)
    }
}

pub open spec fn find_step(entries: Seq<(usize, FriQueryStep)>, key: usize) -> Option<Seq<Ext>>
    decreases entries.len(),
{
    if entries.len() == 0 {
        None
    } else if entries[0].0 == key {
        Some(entries[0].1.evals@)
    } else {
        find_step(entries.drop_first(), key)
    }
}

/// The rest of one query round's folding chain from reduction depth `i`:
/// the visited `(depth, coset index)` pairs and inferred values so far are
/// extended, or `None` when the proof lacks an opening that the chain needs.
pub open spec fn fold_chain_spec(
    rounds: &CompressedFriQueryRounds,
    arity_bits: Seq<usize>,
    betas: Seq<Ext>,
    i: nat,
    x_index: usize,
    x: u64,
    old_eval: Ext,
    seen: Seq<(usize, usize)>,
    out: Seq<Ext>,
) -> Option<(Seq<(usize, usize)>, Seq<Ext>)>
    decreases arity_bits.len() - i,
{
    if i >= arity_bits.len() {
        Some((seen, out))
    } else {
        let ab = arity_bits[i as int];
        let arity = vstd::arithmetic::power2::pow2(ab as nat);
        let key = (x_index as nat / arity) as usize;
        if seen.contains((i as usize, key)) {
            Some((seen, out))
        } else if i >= rounds.steps@.len() {
            None
        } else {
            match find_step(rounds.steps@[i as int]@, key) {
                None => None,
                Some(siblings) => if siblings.len() + 1 != arity {
                    None
                } else {
                    let within = (x_index as nat % arity) as usize;
                    let evals = siblings.insert(within as int, old_eval);
                    let new_eval = compute_evaluation_spec(x, within, ab, evals, betas[i as int]);
                    fold_chain_spec(
                        rounds,
                        arity_bits,
                        betas,
                        i + 1,
                        key,
                        fpow(x as int, arity) as u64,
                        new_eval,
                        seen.push((i as usize, key)),
                        out.push(old_eval),
                    )
                },
            }
        }
    }
}

/// The query rounds from `q` on.
pub open spec fn infer_rounds_spec(
    rounds: &CompressedFriQueryRounds,
    common: &CommonCircuitData,
    openings: &OpeningSet,
    indices: Seq<usize>,
    alpha: Ext,
    zeta: Ext,
    betas: Seq<Ext>,
    q: nat,
    seen: Seq<(usize, usize)>,
    out: Seq<Ext>,
) -> Option<Seq<Ext>>
    decreases indices.len() - q,
{
    if q >= indices.len() {
        Some(out)
    } else {
        let x_index = indices[q as int];
        match find_initial(rounds.initial_trees_proofs@, x_index) {
            None => None,
            Some(leaves) => {
                let x = query_point_spec(x_index, common.log_n() as usize) as u64;
                let e0 = combine_initial_spec(leaves, openings.at_zeta_spec(), alpha, zeta, x);
                match fold_chain_spec(rounds, common.reduction_arity_bits@, betas, 0, x_index, x, e0, seen, out) {
                    None => None,
                    Some(next) => infer_rounds_spec(
                        rounds,
                        common,
                        openings,
                        indices,
                        alpha,
                        zeta,
                        betas,
                        q + 1,
                        next.0,
                        next.1,
                    ),
                }
            },
        }
    }
}

/// The evaluations that a compressed proof leaves out, round after round and
/// depth after depth; a round stops at the first depth whose coset an earlier
/// round has already folded.
pub open spec fn infer_spec(
    rounds: &CompressedFriQueryRounds,
    common: &CommonCircuitData,
    openings: &OpeningSet,
    indices: Seq<usize>,
    alpha: Ext,
    zeta: Ext,
    betas: Seq<Ext>,
) -> Option<Seq<Ext>> {
    if betas.len() < common.reduction_arity_bits@.len() {
        None
    } else {
        infer_rounds_spec(rounds, common, openings, indices, alpha, zeta, betas, 0, Seq::empty(), Seq::empty())
    }
}

fn find_initial_index(entries: &Vec<(usize, FriInitialTreeProof)>, key: usize) -> (r: Option<usize>)
    ensures
        match r {
            Some(i) => i < entries@.len() && entries@[i as int].0 == key && find_initial(entries@, key) == Some(
                entries@[i as int].1.evals@,
            ),
            None => find_initial(entries@, key) is None,
        },
{
    let mut i: usize = 0;
    assert(entries@.skip(0) =~= entries@);
    while i < entries.len()
        invariant
            i <= entries@.len(),
            find_initial(entries@, key) == find_initial(entries@.skip(i as int), key),
        decreases entries@.len() - i,
    {
        assert(entries@.skip(i as int).drop_first() =~= entries@.skip(i + 1));
        if entries[i].0 == key {
            return Some(i);
        }
        i = i + 1;
    }
    None
}

fn find_step_index(entries: &Vec<(usize, FriQueryStep)>, key: usize) -> (r: Option<usize>)
    ensures
        match r {
            Some(i) => i < entries@.len() && find_step(entries@, key) == Some(entries@[i as int].1.evals@),
            None => find_step(entries@, key) is None,
        },
{
    let mut i: usize = 0;
    assert(entries@.skip(0) =~= entries@);
    while i < entries.len()
        invariant
            i <= entries@.len(),
            find_step(entries@, key) == find_step(entries@.skip(i as int), key),
        decreases entries@.len() - i,
    {
        assert(entries@.skip(i as int).drop_first() =~= entries@.skip(i + 1));
        if entries[i].0 == key {
            return Some(i);
        }
        i = i + 1;
    }
    None
}

fn contains_pair(seen: &Vec<(usize, usize)>, depth: usize, key: usize) -> (r: bool)
    ensures
        r == seen@.contains((depth, key)),
{
    let mut i: usize = 0;
    while i < seen.len()
        invariant
            i <= seen@.len(),
            forall|k: int| 0 <= k < i ==> seen@[k] != (depth, key),
        decreases seen@.len() - i,
    {
        if seen[i].0 == depth && seen[i].1 == key {
            assert(seen@[i as int] == (depth, key));
            return true;
        }
        i = i + 1;
    }
    false
}

fn insert_ext(v: &Vec<Ext>, pos: usize, e: Ext) -> (r: Vec<Ext>)
    requires
        pos <= v@.len(),
    ensures
        r@ == v@.insert(pos as int, e),
{
    let mut r: Vec<Ext> = Vec::new();
    let mut i: usize = 0;
    while i < pos
        invariant
            i <= pos <= v@.len(),
            r@ == v@.take(i as int),
        decreases pos - i,
    {
        r.push(v[i]);
        assert(v@.take(i + 1) =~= v@.take(i as int).push(v@[i as int]));
        i = i + 1;
    }
    r.push(e);
    while i < v.len()
        invariant
            pos <= i <= v@.len(),
            r@ == v@.take(pos as int).push(e) + v@.subrange(pos as int, i as int),
        decreases v@.len() - i,
    {
        r.push(v[i]);
        assert(v@.subrange(pos as int, i + 1) =~= v@.subrange(pos as int, i as int).push(v@[i as int]));
        i = i + 1;
    }
    assert(r@ =~= v@.insert(pos as int, e));
    r
}

/// Walks one query round's folding chain from its first reduction depth,
/// recording visited cosets and inferred values; `false` when an opening that
/// the chain needs is missing or has the wrong size.
fn fold_round(
    rounds: &CompressedFriQueryRounds,
    common: &CommonCircuitData,
    fri_betas: &Vec<Ext>,
    x_index0: usize,
    x0: u64,
    e0: Ext,
    seen: &mut Vec<(usize, usize)>,
    out: &mut Vec<Ext>,
) -> (ok: bool)
    requires
        common.wf(),
        rounds.wf(),
        all_wf(fri_betas@),
        fri_betas@.len() >= common.reduction_arity_bits@.len(),
        canonical(x0),
        e0.wf(),
    ensures
        ok ==> fold_chain_spec(rounds, common.reduction_arity_bits@, fri_betas@, 0, x_index0, x0, e0, old(seen)@, old(out)@)
            == Some((final(seen)@, final(out)@)),
        !ok ==> fold_chain_spec(rounds, common.reduction_arity_bits@, fri_betas@, 0, x_index0, x0, e0, old(seen)@, old(out)@) is None,
{
    let num_depths = common.reduction_arity_bits.len();
    let mut x: u64 = x0;
    let mut old_eval = e0;
    let mut x_index: usize = x_index0;
    let mut i: usize = 0;
    let mut stopped = false;
    while i < num_depths && !stopped
        invariant
            common.wf(),
            rounds.wf(),
            all_wf(fri_betas@),
            fri_betas@.len() >= num_depths,
            num_depths == common.reduction_arity_bits@.len(),
            i <= num_depths,
            canonical(x),
            old_eval.wf(),
            stopped ==> fold_chain_spec(rounds, common.reduction_arity_bits@, fri_betas@, 0, x_index0, x0, e0, old(seen)@, old(out)@)
                == Some((seen@, out@)),
            !stopped ==> fold_chain_spec(rounds, common.reduction_arity_bits@, fri_betas@, 0, x_index0, x0, e0, old(seen)@, old(out)@)
                == fold_chain_spec(rounds, common.reduction_arity_bits@, fri_betas@, i as nat, x_index, x, old_eval, seen@, out@),
        decreases (num_depths - i) * 2 + (if stopped { 0int } else { 1int }),
    {
        let ab = common.reduction_arity_bits[i];
        let arity = pow2_usize(ab);
        let key = x_index / arity;
        if contains_pair(seen, i, key) {
            stopped = true;
        } else {
            if i >= rounds.steps.len() {
                return false;
            }
            let spos = match find_step_index(&rounds.steps[i], key) {
                Some(p) => p,
                None => {
                    return false;
                },
            };
            let siblings = &rounds.steps[i][spos].1.evals;
            if siblings.len() != arity - 1 {
                return false;
            }
            seen.push((i, key));
            out.push(old_eval);
            let within = x_index % arity;
            let evals = insert_ext(siblings, within, old_eval);
            proof {
                assert(all_wf(rounds.steps@[i as int]@[spos as int].1.evals@));
                assert(all_wf(evals@)) by {
                    assert forall|k: int| 0 <= k < evals@.len() implies (#[trigger] evals@[k]).wf() by {
                        if k < within {
                            assert(evals@[k] == siblings@[k]);
                        } else if k > within {
                            assert(evals@[k] == siblings@[k - 1]);
                        }
                    }
                }
            }
            old_eval = compute_evaluation(x, within, ab, &evals, fri_betas[i]);
            x = exp_power_of_2(x, ab);
            x_index = key;
            i = i + 1;
        }
    }
    true
}

/// Walks the folding chain of every query round of a compressed proof and
/// collects the evaluations that it leaves out (`None` when an opening that
/// the chain needs is missing or has the wrong size).
pub fn infer_fri_query_elements(
    rounds: &CompressedFriQueryRounds,
    common: &CommonCircuitData,
    openings: &OpeningSet,
    indices: &Vec<usize>,
    fri_alpha: Ext,
    plonk_zeta: Ext,
    fri_betas: &Vec<Ext>,
) -> (r: Option<Vec<Ext>>)
    requires
        common.wf(),
        rounds.wf(),
        openings.wf(),
        fri_alpha.wf(),
        plonk_zeta.wf(),
        all_wf(fri_betas@),
    ensures
        match r {
            Some(v) => infer_spec(rounds, common, openings, indices@, fri_alpha, plonk_zeta, fri_betas@) == Some(v@),
            None => infer_spec(rounds, common, openings, indices@, fri_alpha, plonk_zeta, fri_betas@) is None,
        },
{
    let num_depths = common.reduction_arity_bits.len();
    if fri_betas.len() < num_depths {
        return None;
    }
    let log_n = common.degree_bits + common.config.rate_bits;
    let at_zeta = openings.at_zeta();
    proof {
        assert(all_wf(at_zeta@)) by {
            assert forall|k: int| 0 <= k < at_zeta@.len() implies (#[trigger] at_zeta@[k]).wf() by {
                let os = openings;
                let a = os.constants@ + os.plonk_sigmas@ + os.wires@ + os.plonk_zs@;
                let n = a.len();
                if k < n {
                    assert(at_zeta@[k] == os.all_spec()[k]);
                } else {
                    let m = os.plonk_zs_right@.len();
                    assert(at_zeta@[k] == os.all_spec()[k + m]);
                }
            }
        }
    }
    let mut seen: Vec<(usize, usize)> = Vec::new();
    let mut out: Vec<Ext> = Vec::new();
    let mut q: usize = 0;
    while q < indices.len()
        invariant
            common.wf(),
            rounds.wf(),
            openings.wf(),
            all_wf(at_zeta@),
            at_zeta@ == openings.at_zeta_spec(),
            fri_alpha.wf(),
            plonk_zeta.wf(),
            all_wf(fri_betas@),
            fri_betas@.len() >= num_depths,
            num_depths == common.reduction_arity_bits@.len(),
            log_n == common.log_n(),
            q <= indices@.len(),
            infer_spec(rounds, common, openings, indices@, fri_alpha, plonk_zeta, fri_betas@)
                == infer_rounds_spec(rounds, common, openings, indices@, fri_alpha, plonk_zeta, fri_betas@, q as nat, seen@, out@),
        decreases indices@.len() - q,
    {
        let x_index0 = indices[q];
        let pos = match find_initial_index(&rounds.initial_trees_proofs, x_index0) {
            Some(p) => p,
            None => {
                return None;
            },
        };
        let leaves = &rounds.initial_trees_proofs[pos].1.evals;
        proof {
            assert forall|k: int| 0 <= k < leaves@.len() implies canonical(#[trigger] leaves@[k]) by {
                assert(canonical(rounds.initial_trees_proofs@[pos as int].1.evals@[k]));
            }
        }
        let x: u64 = query_point(x_index0, log_n);
        let e0 = combine_initial(leaves, &at_zeta, fri_alpha, plonk_zeta, x);
        if !fold_round(rounds, common, fri_betas, x_index0, x, e0, &mut seen, &mut out) {
            return None;
        }
        q = q + 1;
    }
    Some(out)
}

} // verus!
