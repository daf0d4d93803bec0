use plonk_core::challenger::{hash_n_to_1, Challenger, HashOut, MerkleCap};
use plonk_core::field::{exp_u64, field_mul, inverse, Ext, ORDER};
use plonk_core::fri::{compute_evaluation, primitive_root_of_unity, reverse_bits};
use plonk_core::plonk_proof::{
    ChallengeError, CircuitConfig, CommonCircuitData, CompressedFriQueryRounds, CompressedProof,
    CompressedProofWithPublicInputs, FriConfig, FriInitialTreeProof, FriProof, FriQueryStep, OpeningSet, Proof,
    ProofChallenges, ProofWithPublicInputs,
};

/// A toy mixing permutation: deterministic, not cryptographic.
fn mix(state: [u64; 12]) -> [u64; 12] {
    {
        let mut out = [0u64; 12];
        for i in 0..12 {
            let mut acc = (i as u64 + 1).wrapping_mul(0x9e37_79b9_7f4a_7c15);
            for j in 0..12 {
                acc = acc.rotate_left(7) ^ state[(i + j) % 12].wrapping_mul(0xff51_afd7_ed55_8ccd);
            }
            out[i] = acc;
        }
        out
    }
}

fn hash(seed: u64) -> HashOut {
    HashOut { elements: [seed, seed + 1, seed + 2, seed + 3] }
}

fn cap(seed: u64) -> MerkleCap {
    MerkleCap { hashes: vec![hash(seed), hash(seed + 10)] }
}

fn ext(c0: u64, c1: u64) -> Ext {
    Ext { c0, c1 }
}

fn openings() -> OpeningSet {
    OpeningSet {
        constants: vec![ext(1, 2)],
        plonk_sigmas: vec![ext(3, 4), ext(5, 6)],
        wires: vec![ext(7, 8)],
        plonk_zs: vec![ext(9, 10)],
        plonk_zs_right: vec![ext(11, 12)],
        partial_products: vec![ext(13, 14)],
        quotient_polys: vec![ext(15, 16)],
    }
}

fn common() -> CommonCircuitData {
    CommonCircuitData {
        config: CircuitConfig { num_challenges: 2, rate_bits: 3, fri_config: FriConfig { num_query_rounds: 6 } },
        degree_bits: 4,
        reduction_arity_bits: vec![1, 2],
        circuit_digest: hash(100),
    }
}

fn fri_proof() -> FriProof {
    FriProof { commit_phase_merkle_caps: vec![cap(200), cap(300)], final_poly: vec![ext(17, 18)], pow_witness: 42 }
}

fn sample_proof() -> ProofWithPublicInputs {
    ProofWithPublicInputs {
        proof: Proof {
            wires_cap: cap(1),
            plonk_zs_partial_products_cap: cap(2),
            quotient_polys_cap: cap(3),
            openings: openings(),
            opening_proof: fri_proof(),
        },
        public_inputs: vec![1, 2, 3],
    }
}

fn same(a: &ProofChallenges, b: &ProofChallenges) -> bool {
    a.plonk_betas == b.plonk_betas
        && a.plonk_gammas == b.plonk_gammas
        && a.plonk_alphas == b.plonk_alphas
        && a.plonk_zeta == b.plonk_zeta
        && a.fri_alpha == b.fri_alpha
        && a.fri_betas == b.fri_betas
        && a.fri_pow_response == b.fri_pow_response
        && a.fri_query_indices == b.fri_query_indices
        && a.fri_query_inferred_elements == b.fri_query_inferred_elements
}

/// Opens, for every query index, leaves and sibling evaluations of the
/// sizes the reduction arities ask for.
fn compressed(indices: &[usize], common: &CommonCircuitData) -> CompressedProofWithPublicInputs {
    let p = sample_proof();
    let mut initial = Vec::new();
    let mut steps: Vec<Vec<(usize, FriQueryStep)>> = (0..common.reduction_arity_bits.len()).map(|_| Vec::new()).collect();
    for &x in indices {
        if !initial.iter().any(|(k, _): &(usize, FriInitialTreeProof)| *k == x) {
            initial.push((x, FriInitialTreeProof { evals: vec![x as u64 + 1, 2, 3, 4, 5, 6, 7] }));
        }
        let mut xi = x;
        for (d, &bits) in common.reduction_arity_bits.iter().enumerate() {
            let key = xi >> bits;
            if !steps[d].iter().any(|(k, _)| *k == key) {
                let evals = (0..(1 << bits) - 1).map(|j| ext(key as u64 + j as u64, d as u64)).collect();
                steps[d].push((key, FriQueryStep { evals }));
            }
            xi = key;
        }
    }
    CompressedProofWithPublicInputs {
        proof: CompressedProof {
            wires_cap: p.proof.wires_cap,
            plonk_zs_partial_products_cap: p.proof.plonk_zs_partial_products_cap,
            quotient_polys_cap: p.proof.quotient_polys_cap,
            openings: p.proof.openings,
            opening_proof: p.proof.opening_proof,
            query_round_proofs: CompressedFriQueryRounds { initial_trees_proofs: initial, steps },
        },
        public_inputs: p.public_inputs,
    }
}

#[test]
fn challenges_are_a_function_of_proof_and_circuit() {
    let c1 = sample_proof().get_challenges(&mix, &common()).unwrap();
    let c2 = sample_proof().get_challenges(&mix, &common()).unwrap();
    assert!(same(&c1, &c2));
    assert_eq!(c1.plonk_betas.len(), 2);
    assert_eq!(c1.fri_betas.len(), 2);
    assert!(c1.fri_query_inferred_elements.is_none());
    let mut other = sample_proof();
    other.public_inputs = vec![1, 2, 4];
    let c3 = other.get_challenges(&mix, &common()).unwrap();
    assert_ne!(c1.plonk_betas, c3.plonk_betas);
}

#[test]
fn query_indices_lie_in_the_lde_domain() {
    let c = common();
    assert_eq!(c.lde_size(), 128);
    let indices = sample_proof().fri_query_indices(&mix, &c).unwrap();
    assert_eq!(indices.len(), 6);
    assert!(indices.iter().all(|&i| i < 128));
}

#[test]
fn compressed_proof_inference() {
    let c = common();
    let indices = sample_proof().fri_query_indices(&mix, &c).unwrap();
    let cp = compressed(&indices, &c);
    let ch = cp.get_challenges(&mix, &c).unwrap();
    assert_eq!(ch.fri_query_indices, indices);
    let inferred = ch.fri_query_inferred_elements.clone().unwrap();
    // One value per (depth, coset) that some round reaches first.
    let mut seen: Vec<(usize, usize)> = Vec::new();
    let mut expected = 0;
    for &x in &indices {
        let mut xi = x;
        for (d, &bits) in c.reduction_arity_bits.iter().enumerate() {
            let key = xi >> bits;
            if seen.contains(&(d, key)) {
                break;
            }
            seen.push((d, key));
            expected += 1;
            xi = key;
        }
    }
    assert_eq!(inferred.len(), expected);
    let again = cp.get_challenges(&mix, &c).unwrap();
    assert!(same(&ch, &again));
}

#[test]
fn compressed_proof_missing_step_is_rejected() {
    let c = common();
    let indices = sample_proof().fri_query_indices(&mix, &c).unwrap();
    let mut cp = compressed(&indices, &c);
    cp.proof.query_round_proofs.steps[1].clear();
    assert_eq!(cp.get_challenges(&mix, &c).err(), Some(ChallengeError::InvalidTranscript));
}

#[test]
fn challenger_squeezes_after_absorbing() {
    let mut a = Challenger::new();
    a.observe_element(5);
    let x = a.get_challenge(&mix);
    assert!(x < ORDER);
    assert!(a.input_buffer.is_empty());
    assert_eq!(a.output_buffer.len(), 7);
    let mut b = Challenger::new();
    b.observe_element(6);
    assert_ne!(x, b.get_challenge(&mix));
    assert!(hash_n_to_1(&mix, &vec![1, 2, 3]) < ORDER);
}

#[test]
fn field_values() {
    assert_eq!(field_mul(ORDER - 1, ORDER - 1), 1);
    assert_eq!(field_mul(inverse(2), 2), 1);
    assert_eq!(field_mul(inverse(12345), 12345), 1);
    assert_eq!(primitive_root_of_unity(1), ORDER - 1);
    let g = primitive_root_of_unity(4);
    assert_eq!(exp_u64(g, 16), 1);
    assert_ne!(exp_u64(g, 8), 1);
    assert_eq!(reverse_bits(0b0011, 4), 0b1100);
    assert_eq!(reverse_bits(1, 3), 4);
}

#[test]
fn folding_a_constant_coset() {
    let c = ext(9, 4);
    let evals = vec![c; 4];
    assert_eq!(compute_evaluation(7, 1, 2, &evals, ext(123, 456)), c);
    // A line through (x, a) and (-x, b) at beta.
    let x = 7;
    let a = ext(10, 0);
    let b = ext(4, 0);
    let folded = compute_evaluation(x, 0, 1, &vec![a, b], ext(0, 0));
    assert_eq!(folded, ext(7, 0));
}
