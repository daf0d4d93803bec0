use plonk_core::biguint::{MulBigUintGate, MulBigUintGenerator};
use plonk_core::circuit::{evaluate, CircuitBuilder};
use plonk_core::field::{ext_add, ext_mul, field_mul, field_sub, Ext, ORDER};
use plonk_core::generator::{generate_partial_witness, GeneratorError, WitnessGenerator};
use plonk_core::keccak256_mini::{calc_xor5, xor, DecodeError, Xor5Gate, Xor5Generator, WIDTH};
use plonk_core::low_degree_interpolation::{horner_ext, interpolant_on_coset, LowDegreeInterpolationGate};
use plonk_core::witness::{PartitionWitness, Wire};

struct Lcg(u64);

impl Lcg {
    fn next(&mut self) -> u64 {
        self.0 = self.0.wrapping_mul(6364136223846793005).wrapping_add(1442695040888963407);
        (self.0 >> 1) % ORDER
    }

    fn ext(&mut self) -> Ext {
        Ext { c0: self.next(), c1: self.next() }
    }
}

fn embed(w: &[u64]) -> Vec<Ext> {
    w.iter().map(|&x| Ext { c0: x, c1: 0 }).collect()
}

fn ext_of(x: u64) -> Ext {
    Ext { c0: x, c1: 0 }
}

/// Runs the assignments of a generator into a fresh one-row witness seeded
/// with `inputs`, and returns the row.
fn fill_row(num_wires: usize, inputs: &[(usize, u64)], run: impl Fn(&PartitionWitness) -> Option<Vec<(Wire, u64)>>) -> Vec<u64> {
    let mut wit = PartitionWitness::new(1, num_wires);
    for &(c, v) in inputs {
        wit.set(Wire { row: 0, column: c }, v).unwrap();
    }
    let out = run(&wit).expect("inputs are assigned");
    wit.set_all(&out).unwrap();
    (0..num_wires).map(|c| wit.try_get(Wire { row: 0, column: c }).expect("every wire is assigned")).collect()
}

#[test]
fn keccak256_mini_low_degree() {
    let gate = Xor5Gate::new();
    assert_eq!(gate.degree(), 5);
    assert_eq!(gate.num_constraints(), 2);
    assert_eq!(gate.num_wires(), 12);
    assert_eq!(Xor5Gate::wires_input(3), 6..8);
    assert_eq!(Xor5Gate::wires_output(), 10..12);
    // On bits the constraint is the XOR of the inputs.
    for bits in 0..32u64 {
        let mut w = vec![0u64; 12];
        let mut x = 0u64;
        for i in 0..WIDTH {
            let b = (bits >> i) & 1;
            w[2 * i] = b;
            x ^= b;
        }
        w[10] = x;
        assert_eq!(gate.eval_unfiltered_base_one(&w), vec![0, 0]);
        w[10] = 1 - x;
        assert_ne!(gate.eval_unfiltered_base_one(&w), vec![0, 0]);
    }
}

#[test]
fn keccak256_mini_eval_fns() {
    let gate = Xor5Gate::new();
    let mut rng = Lcg(11);
    for _ in 0..8 {
        let w: Vec<u64> = (0..12).map(|_| rng.next()).collect();
        let base = gate.eval_unfiltered_base_one(&w);
        let ext = gate.eval_unfiltered(&embed(&w));
        assert_eq!(ext, embed(&base));
    }
}

#[test]
fn xor_of_field_values() {
    // a + b - 2ab
    let a = ext_of(3);
    let b = ext_of(5);
    assert_eq!(xor(a, b), ext_of(ORDER - 22));
    assert_eq!(xor(ext_of(1), ext_of(1)), ext_of(0));
    assert_eq!(calc_xor5([ext_of(1), ext_of(0), ext_of(1), ext_of(1), ext_of(0)]), ext_of(1));
}

#[test]
fn xor5_generated_row_satisfies_gate() {
    let gate = Xor5Gate::new();
    let mut rng = Lcg(5);
    let inputs: Vec<(usize, u64)> = (0..10).map(|c| (c, rng.next())).collect();
    let gen = gate.generators(0)[0];
    let row = fill_row(12, &inputs, |w| gen.run_once(w));
    assert_eq!(gate.eval_unfiltered_base_one(&row), vec![0, 0]);
    let deps = Xor5Generator { row: 0 }.dependencies();
    assert_eq!(deps.len(), 10);
}

#[test]
fn xor5_generator_waits_for_inputs() {
    let wit = PartitionWitness::new(1, 12);
    assert!(Xor5Generator { row: 0 }.run_once(&wit).is_none());
}

#[test]
fn low_degree_interpolation_low_degree() {
    let gate = LowDegreeInterpolationGate::new(4);
    assert_eq!(gate.degree(), 2);
    assert_eq!(gate.num_points(), 16);
    assert_eq!(gate.num_constraints(), 16 * 2 + 2 + 3 * 14);
    assert_eq!(gate.start_coeffs(), 37);
    assert_eq!(gate.end_coeffs(), 69);
    assert_eq!(gate.powers_shift(1), 0);
    assert_eq!(gate.powers_shift(5), 72);
    assert_eq!(gate.powers_evaluation_point(1), 33..35);
    assert_eq!(gate.powers_evaluation_point(3), 85..87);
    assert_eq!(gate.num_wires(), 111);
    let w: Vec<u64> = vec![0; 111];
    assert_eq!(gate.eval_unfiltered_base_one(&w).len(), gate.num_constraints());
}

#[test]
fn low_degree_interpolation_eval_fns() {
    let gate = LowDegreeInterpolationGate::new(4);
    let mut rng = Lcg(23);
    for _ in 0..3 {
        let w: Vec<u64> = (0..gate.num_wires()).map(|_| rng.next()).collect();
        let base = gate.eval_unfiltered_base_one(&w);
        let ext = gate.eval_unfiltered(&embed(&w));
        assert_eq!(ext, embed(&base));
    }
}

#[test]
fn test_gate_constraint() {
    let subgroup_bits = 4;
    let mut rng = Lcg(0x5eed);
    let shift = rng.next();
    let coeffs: Vec<Ext> = (0..1 << subgroup_bits).map(|_| rng.ext()).collect();
    let eval_point = rng.ext();
    let gate = LowDegreeInterpolationGate::new(subgroup_bits);

    let mut v: Vec<u64> = vec![shift];
    for x in gate.coset(shift) {
        let y = horner_ext(&coeffs, ext_of(x));
        v.extend([y.c0, y.c1]);
    }
    v.extend([eval_point.c0, eval_point.c1]);
    let y = horner_ext(&coeffs, eval_point);
    v.extend([y.c0, y.c1]);
    for c in &coeffs {
        v.extend([c.c0, c.c1]);
    }
    let mut p = shift;
    for _ in 0..gate.num_points() - 2 {
        p = field_mul(p, shift);
        v.push(p);
    }
    let mut q = eval_point;
    for _ in 0..gate.num_points() - 2 {
        q = ext_mul(q, eval_point);
        v.extend([q.c0, q.c1]);
    }
    let wires = embed(&v);
    assert!(
        gate.eval_unfiltered(&wires).iter().all(|x| *x == ext_of(0)),
        "Gate constraints are not satisfied."
    );
}

#[test]
fn interpolation_generated_row_satisfies_gate() {
    let gate = LowDegreeInterpolationGate::new(3);
    let n = gate.num_points();
    let mut rng = Lcg(99);
    let mut inputs: Vec<(usize, u64)> = vec![(0, rng.next())];
    for c in 1..(1 + 2 * n + 2) {
        inputs.push((c, rng.next()));
    }
    let gen = gate.generators(0)[0];
    let row = fill_row(gate.num_wires(), &inputs, |w| gen.run_once(w));
    assert!(gate.eval_unfiltered_base_one(&row).iter().all(|&x| x == 0));
    assert_eq!(gen.dependencies().len(), 1 + 2 + 2 * n);
}

#[test]
fn interpolant_through_coset_values() {
    let gate = LowDegreeInterpolationGate::new(2);
    let shift = 5;
    let coeffs = vec![ext_of(1), ext_of(2), Ext { c0: 3, c1: 4 }, ext_of(0)];
    let values: Vec<Ext> = gate.coset(shift).iter().map(|&x| horner_ext(&coeffs, ext_of(x))).collect();
    assert_eq!(interpolant_on_coset(&values, shift, 2), coeffs);
}

#[test]
fn test_biguint_gate() {
    let gate = MulBigUintGate::new(2, 2);
    assert_eq!(gate.num_wires(), 8);
    assert_eq!(gate.wire_ith_limb_of_multiplicand_1(1), 3);
    assert_eq!(gate.wire_ith_limb_of_output(2), 6);
    assert_eq!(gate.wires_output(), 4..8);
    let a: u64 = 0xdead_beef_1234_5678;
    let b: u64 = 0xffff_ffff_ffff_ffff;
    let inputs = vec![(0, a & 0xffff_ffff), (1, a >> 32), (2, b & 0xffff_ffff), (3, b >> 32)];
    let gen = gate.generators(0)[0];
    let row = fill_row(8, &inputs, |w| gen.run_once(w).unwrap());
    let product = (a as u128) * (b as u128);
    for i in 0..4 {
        assert_eq!(row[4 + i] as u128, (product >> (32 * i)) & 0xffff_ffff);
    }
    assert_eq!(gate.eval_unfiltered_base_one(&row), Some(vec![0, 0, 0, 0]));
    let mut bad = row.clone();
    bad[5] = field_sub(bad[5], 1);
    assert_ne!(gate.eval_unfiltered_base_one(&bad), Some(vec![0, 0, 0, 0]));
}

#[test]
fn biguint_inputs_wider_than_a_limb_are_refused() {
    let gate = MulBigUintGate::new(1, 1);
    let mut wit = PartitionWitness::new(1, 4);
    wit.set(Wire { row: 0, column: 0 }, 1 << 32).unwrap();
    wit.set(Wire { row: 0, column: 1 }, 3).unwrap();
    let gen = gate.generators(0)[0];
    assert_eq!(gen.run_once(&wit), Err(GeneratorError::LimbOverflow));
    assert_eq!(gate.eval_unfiltered_base_one(&vec![1 << 32, 3, 0, 0]), None);
    let mut w2 = PartitionWitness::new(1, 4);
    w2.set(Wire { row: 0, column: 0 }, 1 << 32).unwrap();
    w2.set(Wire { row: 0, column: 1 }, 3).unwrap();
    let gens = vec![WitnessGenerator::MulBigUint(gen)];
    assert_eq!(generate_partial_witness(&mut w2, &gens), Err(GeneratorError::LimbOverflow));
}

#[test]
fn biguint_mul_limbs_carries_into_the_top_limb() {
    let m0 = vec![0xffff_ffffu64; 3];
    let m1 = vec![0xffff_ffffu64; 2];
    let r = MulBigUintGenerator::mul_limbs(&m0, &m1);
    // (2^96 - 1)(2^64 - 1) = 2^160 - 2^96 - 2^64 + 1
    assert_eq!(r, vec![1, 0, 0xffff_ffff, 0xffff_fffe, 0xffff_ffff]);
}

#[test]
fn ext_arithmetic() {
    let x = Ext { c0: 0, c1: 1 };
    // X^2 = 7
    assert_eq!(ext_mul(x, x), ext_of(7));
    assert_eq!(ext_add(ext_of(ORDER - 1), ext_of(2)), ext_of(1));
}

#[test]
fn xor5_generator_round_trips_through_bytes() {
    let g = Xor5Generator { row: 0x0102_0304 };
    let bytes = g.serialize();
    assert_eq!(bytes, vec![4, 3, 2, 1, 0, 0, 0, 0]);
    assert_eq!(Xor5Generator::deserialize(&bytes), Ok(g));
    assert_eq!(Xor5Generator::deserialize(&vec![1, 2, 3]), Err(DecodeError::UnexpectedEnd));
}

fn xor5_witness(rows: usize, skip: Option<(usize, usize)>) -> PartitionWitness {
    let mut rng = Lcg(77);
    let mut wit = PartitionWitness::new(rows, 12);
    for row in 0..rows {
        for column in 0..10 {
            let v = rng.next() % 2;
            if skip != Some((row, column)) {
                wit.set(Wire { row, column }, v).unwrap();
            }
        }
    }
    wit
}

fn row_values(wit: &PartitionWitness, row: usize) -> Vec<u64> {
    (0..12).map(|column| wit.try_get(Wire { row, column }).unwrap()).collect()
}

#[test]
fn scheduler_fills_every_generator() {
    let mut wit = xor5_witness(2, None);
    let gens = vec![WitnessGenerator::Xor5(Xor5Generator { row: 1 }), WitnessGenerator::Xor5(Xor5Generator { row: 0 })];
    assert_eq!(generate_partial_witness(&mut wit, &gens), Ok(()));
    let gate = Xor5Gate::new();
    assert_eq!(gate.eval_unfiltered_base_one(&row_values(&wit, 0)), vec![0, 0]);
    assert_eq!(gate.eval_unfiltered_base_one(&row_values(&wit, 1)), vec![0, 0]);
}

#[test]
fn scheduler_reports_stuck_generators() {
    let mut wit = xor5_witness(2, Some((1, 3)));
    let gens = vec![WitnessGenerator::Xor5(Xor5Generator { row: 0 }), WitnessGenerator::Xor5(Xor5Generator { row: 1 })];
    assert_eq!(generate_partial_witness(&mut wit, &gens), Err(GeneratorError::UnsatisfiedGenerator));
    assert!(wit.try_get(Wire { row: 0, column: 10 }).is_some());
    assert!(wit.try_get(Wire { row: 1, column: 10 }).is_none());
}

#[test]
fn scheduler_refuses_conflicting_writes() {
    let mut wit = xor5_witness(1, None);
    let expected = Xor5Generator { row: 0 }.run_once(&wit).unwrap()[0].1;
    wit.set(Wire { row: 0, column: 10 }, (expected + 1) % ORDER).unwrap();
    let gens = vec![WitnessGenerator::Xor5(Xor5Generator { row: 0 })];
    assert_eq!(generate_partial_witness(&mut wit, &gens), Err(GeneratorError::Conflict));
}

#[test]
fn xor5_circuit_agrees_with_extension_evaluation() {
    let gate = Xor5Gate::new();
    let mut rng = Lcg(31);
    let mut b = CircuitBuilder::new(12);
    let wires: Vec<usize> = (0..12).collect();
    let outs = gate.eval_unfiltered_circuit(&mut b, &wires);
    for _ in 0..4 {
        let asg: Vec<Ext> = (0..12).map(|_| rng.ext()).collect();
        let vals = evaluate(&b, &asg).expect("operands come first");
        let expected = gate.eval_unfiltered(&asg);
        assert_eq!(vec![vals[outs[0]], vals[outs[1]]], expected);
    }
}
