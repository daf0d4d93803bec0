use plonk_core::all_stark::{AllStark, AllStarkError, StarkConfig, StarkShape, Table};
use plonk_core::cross_table_lookup::{CrossTableLookup, CtlError};
use plonk_core::field::ORDER;
use plonk_core::witness::{PartitionWitness, Wire, WitnessError};

struct Lcg(u64);

impl Lcg {
    fn next(&mut self) -> u64 {
        self.0 = self.0.wrapping_mul(6364136223846793005).wrapping_add(1442695040888963407);
        (self.0 >> 1) % ORDER
    }
}

#[test]
fn table_count() {
    assert_eq!(Table::num_tables(), 2);
    assert_eq!(Table::Cpu.index(), 0);
    assert_eq!(Table::Keccak.index(), 1);
}

#[test]
fn permutation_sizing_per_table() {
    let all = AllStark {
        cpu_stark: StarkShape { num_permutation_pairs: 5, constraint_degree: 3 },
        keccak_stark: StarkShape { num_permutation_pairs: 0, constraint_degree: 4 },
        cross_table_lookups: vec![],
    };
    let config = StarkConfig { num_challenges: 2 };
    // ceil(5 * 2 / 2) and ceil(0 / 3)
    assert_eq!(all.nums_permutation_zs(&config), vec![5, 0]);
    assert_eq!(all.permutation_batch_sizes(), vec![2, 3]);
    let odd = StarkShape { num_permutation_pairs: 7, constraint_degree: 3 };
    assert_eq!(odd.num_permutation_batches(&StarkConfig { num_challenges: 1 }), 4);
}

#[test]
fn lookup_lengths_must_agree() {
    let ok = CrossTableLookup::new(Table::Cpu, vec![2, 4], Table::Keccak, vec![3, 5], vec![1, 1]);
    assert!(ok.is_ok());
    let e1 = CrossTableLookup::new(Table::Cpu, vec![2], Table::Keccak, vec![3, 5], vec![1, 1]);
    assert_eq!(e1.err(), Some(CtlError::ConfigMismatch));
    let e2 = CrossTableLookup::new(Table::Cpu, vec![2, 4], Table::Keccak, vec![3, 5], vec![1]);
    assert_eq!(e2.err(), Some(CtlError::ConfigMismatch));
}

#[test]
fn test_all_stark() {
    let cpu_rows = 1 << 6;
    let num_rounds = 24;
    let keccak_rows = (num_rounds + 1usize).next_power_of_two();
    let mut rng = Lcg(0x6feb51b7ec230f25);
    let keccak_trace: Vec<Vec<u64>> = (0..8).map(|_| (0..keccak_rows).map(|_| rng.next()).collect()).collect();
    let mut cpu_trace: Vec<Vec<u64>> = vec![vec![0; cpu_rows]; 10];
    let start = 17;
    let default = vec![1u64; 2];
    cpu_trace[2] = vec![default[0]; cpu_rows];
    cpu_trace[2][start..start + keccak_rows].copy_from_slice(&keccak_trace[3]);
    cpu_trace[4] = vec![default[1]; cpu_rows];
    cpu_trace[4][start..start + keccak_rows].copy_from_slice(&keccak_trace[5]);

    let ctl = CrossTableLookup {
        looking_table: Table::Cpu,
        looking_columns: vec![2, 4],
        looked_table: Table::Keccak,
        looked_columns: vec![3, 5],
        default: vec![1; 2],
    };
    let (beta, gamma) = (rng.next(), rng.next());
    assert_eq!(ctl.check(&cpu_trace, cpu_rows, &keccak_trace, keccak_rows, beta, gamma), Ok(true));

    // Any one value changed breaks the lookup.
    let mut bad = cpu_trace.clone();
    bad[4][start + 3] = (bad[4][start + 3] + 1) % ORDER;
    assert_eq!(ctl.check(&bad, cpu_rows, &keccak_trace, keccak_rows, beta, gamma), Ok(false));

    // Reordering rows keeps the multiset.
    let mut moved = cpu_trace.clone();
    moved[2].swap(start, 0);
    moved[4].swap(start, 0);
    assert_eq!(ctl.check(&moved, cpu_rows, &keccak_trace, keccak_rows, beta, gamma), Ok(true));

    // A column outside the table is a configuration error.
    let wide = CrossTableLookup { looked_columns: vec![3, 9], ..ctl };
    assert_eq!(wide.check(&cpu_trace, cpu_rows, &keccak_trace, keccak_rows, beta, gamma), Err(CtlError::ConfigMismatch));
}

#[test]
fn witness_cells_are_written_once() {
    let mut w = PartitionWitness::new(2, 3);
    let c = Wire { row: 1, column: 2 };
    assert_eq!(w.try_get(c), None);
    assert_eq!(w.set(c, 7), Ok(()));
    assert_eq!(w.set(c, 7), Ok(()));
    assert_eq!(w.try_get(c), Some(7));
    assert_eq!(w.set(c, 8), Err(WitnessError::Conflict));
    assert_eq!(w.try_get(c), Some(7));
    assert_eq!(w.set(Wire { row: 2, column: 0 }, 1), Err(WitnessError::OutOfRange));
}

#[test]
fn all_stark_rejects_malformed_lookups() {
    let shape = StarkShape { num_permutation_pairs: 1, constraint_degree: 3 };
    let good = CrossTableLookup::new(Table::Cpu, vec![2, 4], Table::Keccak, vec![3, 5], vec![1, 1]).unwrap();
    assert!(AllStark::new(shape, shape, vec![good]).is_ok());
    let bad = CrossTableLookup {
        looking_table: Table::Cpu,
        looking_columns: vec![2],
        looked_table: Table::Keccak,
        looked_columns: vec![3, 5],
        default: vec![1, 1],
    };
    assert_eq!(AllStark::new(shape, shape, vec![bad]).err(), Some(AllStarkError::ConfigMismatch));
}
