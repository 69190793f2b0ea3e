use merkle_stark::all_stark::{AllStark, CtlStark};
use merkle_stark::config::StarkConfig;
use merkle_stark::ctl::check_ctls;
use merkle_stark::error::StarkError;
use merkle_stark::hash_stark::{generate_hash_trace, CompressionStark};
use merkle_stark::hashing::compress;
use merkle_stark::merkle_stark::{all_cross_table_lookups, Merkle5STARK, Table};
use merkle_stark::tree_stark::{MerkleTree5STARK, Tree5TraceGenerator};

fn sequential_leaves() -> Vec<Vec<u32>> {
    (0..16).map(|i| (0..8).map(|w| (i * 8 + w) as u32).collect()).collect()
}

fn random_leaves() -> Vec<Vec<u32>> {
    (0..16).map(|_| (0..8).map(|_| rand::random::<u32>()).collect()).collect()
}

fn widen(leaves: &[Vec<u32>]) -> Vec<Vec<u64>> {
    leaves.iter().map(|l| l.iter().map(|&w| w as u64).collect()).collect()
}

fn merkle_root(leaves: &[Vec<u64>]) -> Vec<u64> {
    assert!(leaves.len() >= 2 && leaves.len().is_power_of_two());
    if leaves.len() == 2 {
        compress(&leaves[0], &leaves[1])
    } else {
        let half = leaves.len() / 2;
        let left = merkle_root(&leaves[..half]);
        let right = merkle_root(&leaves[half..]);
        compress(&left, &right)
    }
}

struct Workload {
    pis: Vec<u64>,
    traces: Vec<Vec<Vec<u64>>>,
}

fn build_workload(leaves: Vec<Vec<u32>>) -> Workload {
    let mut generator = Tree5TraceGenerator::new(16, leaves);
    let (_root, pis, instances) = generator.gen_with_hash_trace();
    let hash_rows = generate_hash_trace(&instances, 16);
    Workload { pis, traces: vec![hash_rows, generator.trace.0] }
}

#[test]
fn test_build_tree_sha2() {
    let mut leaves = vec![vec![0u32; 8]; 16];
    for i in 0..16 {
        for word in 0..8 {
            leaves[i][word] = (i * 8 + word) as u32;
        }
    }

    // compute tree without generator
    let correct_root = merkle_root(&widen(&leaves));

    // compute trace with generator
    let mut generator = Tree5TraceGenerator::new(16, leaves);
    let (_root, pis) = generator.gen();
    let mut root = vec![0u32; 8];
    for i in 0..8 {
        root[i] = u32::try_from(pis[i]).expect("expected pi_root_word to fit in u32");
    }

    let correct_root_u32: Vec<u32> = correct_root.iter().map(|&w| w as u32).collect();
    assert_eq!(root, correct_root_u32);
}

#[test]
fn test_merkle_5_stark() {
    let config = StarkConfig::standard_fast_config();
    let merkle_5_stark = Merkle5STARK::default();
    let w = build_workload(random_leaves());
    check_ctls(&w.traces, &merkle_5_stark.cross_table_lookups).expect("oracle accepts");
    let pises = vec![Vec::new(), w.pis.clone()];
    let proof = merkle_5_stark.prove(&config, &w.traces, &pises).expect("prove");
    merkle_5_stark.verify(&config, &proof).expect("verify");
}

#[test]
fn test_num_tables() {
    assert_eq!(Table::num_tables(), 2);
    assert_eq!(Table::Hash.table_id(), 0);
    assert_eq!(Table::Tree.table_id(), 1);
}

#[test]
fn test_ctl_stark_interface() {
    // a system built through the trait carries the two lookups and proves
    // and verifies like one built through Default
    let sys = <Merkle5STARK as CtlStark>::new();
    assert_eq!(sys.num_tables(), 2);
    let descriptor = sys.get_ctl_descriptor();
    assert_eq!(descriptor.instances.len(), 2);
    assert_eq!(descriptor.instances[0].looking.len(), 1);
    assert_eq!(descriptor.instances[0].looked.columns.len(), 24);
    assert_eq!(descriptor.instances[1].looked.columns.len(), 8);
    let config = StarkConfig::standard_fast_config();
    let w = build_workload(random_leaves());
    check_ctls(&w.traces, &descriptor.instances).expect("oracle accepts under the descriptor");
    let pises = vec![Vec::new(), w.pis.clone()];
    let proof = sys.prove(&config, &w.traces, &pises).expect("prove");
    sys.verify(&config, &proof).expect("verify");
}

#[test]
fn test_scenario_random_tree_root_in_proof() {
    // Build a depth-5 tree over 16 random 256-bit leaves, check the
    // oracle, prove both tables, verify, and compare the proof's
    // public-input root against an independent recursive computation.
    let config = StarkConfig::standard_fast_config();
    let sys = Merkle5STARK::default();
    let leaves = random_leaves();
    let independent_root = merkle_root(&widen(&leaves));
    let w = build_workload(leaves);
    check_ctls(&w.traces, &sys.cross_table_lookups).expect("oracle accepts");
    let pises = vec![Vec::new(), w.pis.clone()];
    let proof = sys.prove(&config, &w.traces, &pises).expect("prove");
    sys.verify(&config, &proof).expect("verify");
    let tree_table = Table::Tree.table_id();
    assert_eq!(proof.proofs[tree_table].public_inputs, independent_root);
}

#[test]
fn test_generator_deterministic() {
    let leaves = sequential_leaves();
    let mut g1 = Tree5TraceGenerator::new(32, leaves.clone());
    let mut g2 = Tree5TraceGenerator::new(32, leaves);
    let (r1, p1) = g1.gen();
    let (r2, p2) = g2.gen();
    assert_eq!(r1, r2);
    assert_eq!(p1, p2);
    assert_eq!(g1.trace.0, g2.trace.0);
}

#[test]
fn test_row_count_power_of_two() {
    for budget in [16usize, 32, 64] {
        let mut generator = Tree5TraceGenerator::new(budget, sequential_leaves());
        let _ = generator.gen();
        let rows = &generator.trace.0;
        assert_eq!(rows.len(), budget);
        assert!(rows.len().is_power_of_two());
        assert!(rows.len() >= 16);
        // padding rows beyond the root row are all-zero, filters off
        for r in 16..budget {
            assert!(rows[r].iter().all(|&x| x == 0));
        }
    }
}

#[test]
fn test_tamper_detection() {
    // Flip one limb of a committed hash-output value after generation but
    // before proving: the cross-table terminal equality must catch it.
    let config = StarkConfig::standard_fast_config();
    let sys = Merkle5STARK::default();
    let mut w = build_workload(random_leaves());
    let tree_table = Table::Tree.table_id();
    w.traces[tree_table][0][144] += 1;
    assert!(check_ctls(&w.traces, &sys.cross_table_lookups).is_err());
    let pises = vec![Vec::new(), w.pis.clone()];
    match sys.prove(&config, &w.traces, &pises) {
        Err(_) => {}
        Ok(proof) => {
            let outcome = sys.verify(&config, &proof);
            assert!(matches!(outcome, Err(StarkError::CtlTerminalMismatch { .. })));
        }
    }
}

#[test]
fn test_corrupt_leaf_detected() {
    // Corrupt one byte of one leaf after trace generation but before
    // committing: proving fails outright or the proof fails verification.
    let config = StarkConfig::standard_fast_config();
    let sys = Merkle5STARK::default();
    let mut w = build_workload(random_leaves());
    let tree_table = Table::Tree.table_id();
    w.traces[tree_table][0][0] ^= 0xFF;
    let pises = vec![Vec::new(), w.pis.clone()];
    match sys.prove(&config, &w.traces, &pises) {
        Err(e) => {
            assert!(matches!(e, StarkError::LocalConstraintFailure { table } if table == tree_table));
        }
        Ok(proof) => {
            assert!(sys.verify(&config, &proof).is_err());
        }
    }
}

#[test]
fn test_tamper_any_single_cell_detected() {
    // Cells drawn from every region of the committed matrices: a leaf
    // word beyond the first pair, a root-row word, bookkeeping cells, and
    // a padding cell of each table. Every single-cell mutation must be
    // rejected, by a local constraint or by a lookup mismatch.
    let config = StarkConfig::standard_fast_config();
    let sys = Merkle5STARK::default();
    let tree_table = Table::Tree.table_id();
    let hash_table = Table::Hash.table_id();
    let cases: Vec<(usize, usize, usize)> = vec![
        (tree_table, 0, 16),   // leaf 2, word 0: bound by the first shift transition
        (tree_table, 0, 70),   // a leaf word deep in the working values
        (tree_table, 15, 0),   // the committed root itself
        (tree_table, 15, 100), // a root-row working value
        (tree_table, 3, 152),  // the program counter
        (tree_table, 3, 153),  // the half level width
        (tree_table, 5, 158),  // a one-hot level flag
        (tree_table, 7, 157),  // the level-done flag
        (tree_table, 2, 144),  // a hash-output limb (the lookups read it)
        (hash_table, 15, 3),   // a padding cell of the compression table
        (hash_table, 4, 24),   // a compression-table filter
    ];
    for &(t, row, col) in cases.iter() {
        let w = build_workload(random_leaves());
        let mut traces = w.traces;
        traces[t][row][col] += 1;
        let pises = vec![Vec::new(), w.pis.clone()];
        match sys.prove(&config, &traces, &pises) {
            Err(e) => {
                assert!(matches!(
                    e,
                    StarkError::LocalConstraintFailure { .. } | StarkError::CtlTerminalMismatch { .. }
                ));
            }
            Ok(proof) => {
                assert!(sys.verify(&config, &proof).is_err(), "cell ({t}, {row}, {col}) accepted");
            }
        }
    }
}

#[test]
fn test_public_inputs_bound_to_trace() {
    // proving with public inputs that are not the committed root fails the
    // tree table's public-input binding constraint
    let config = StarkConfig::standard_fast_config();
    let sys = Merkle5STARK::default();
    let w = build_workload(random_leaves());
    let mut pis = w.pis.clone();
    pis[0] += 1;
    let outcome = sys.prove(&config, &w.traces, &vec![Vec::new(), pis]);
    let tree_table = Table::Tree.table_id();
    assert!(
        matches!(outcome, Err(StarkError::LocalConstraintFailure { table }) if table == tree_table)
    );
}

#[test]
fn test_descriptor_order_sensitivity() {
    // Permuting the lookup instances between proving and verification
    // changes the challenge binding and must make verification fail.
    let config = StarkConfig::standard_fast_config();
    let sys = Merkle5STARK::default();
    let w = build_workload(random_leaves());
    let pises = vec![Vec::new(), w.pis.clone()];
    let proof = sys.prove(&config, &w.traces, &pises).expect("prove");
    sys.verify(&config, &proof).expect("verify under the proving order");

    let mut swapped = all_cross_table_lookups();
    let second = swapped.pop().unwrap();
    let first = swapped.pop().unwrap();
    swapped.push(second);
    swapped.push(first);
    let permuted = Merkle5STARK {
        hash_stark: CompressionStark {},
        tree_stark: MerkleTree5STARK {},
        cross_table_lookups: swapped,
    };
    let outcome = permuted.verify(&config, &proof);
    assert!(matches!(outcome, Err(StarkError::ChallengeMismatch { instance: 0 })));
}
