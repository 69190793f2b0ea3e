use merkle_stark::all_stark::AllStark;
use merkle_stark::config::StarkConfig;
use merkle_stark::ctl::{check_ctls, ColumnRef, CrossTableLookup, TableWithColumns};
use merkle_stark::error::StarkError;
use merkle_stark::field::{add_fe, mul_fe, sub_fe, FIELD_ORDER};
use merkle_stark::hash_stark::generate_hash_trace;
use merkle_stark::hashing::{compress, digest};
use merkle_stark::merkle_stark::Merkle5STARK;
use merkle_stark::tree_stark::Tree5TraceGenerator;

fn leaves() -> Vec<Vec<u32>> {
    (0..16).map(|i| (0..8).map(|w| (1000 * i + w) as u32).collect()).collect()
}

fn workload() -> (Vec<u64>, Vec<Vec<Vec<u64>>>) {
    let mut generator = Tree5TraceGenerator::new(16, leaves());
    let (_root, pis, instances) = generator.gen_with_hash_trace();
    let hash_rows = generate_hash_trace(&instances, 16);
    (pis, vec![hash_rows, generator.trace.0])
}

#[test]
fn test_field_arithmetic_exact() {
    assert_eq!(FIELD_ORDER, 18446744069414584321);
    assert_eq!(add_fe(FIELD_ORDER - 1, 1), 0);
    assert_eq!(add_fe(2, 3), 5);
    assert_eq!(sub_fe(0, 1), FIELD_ORDER - 1);
    assert_eq!(sub_fe(7, 7), 0);
    // 2^32 * 2^32 = 2^64 = FIELD_ORDER + (2^32 - 1)
    assert_eq!(mul_fe(1u64 << 32, 1u64 << 32), (1u64 << 32) - 1);
    assert_eq!(mul_fe(0, FIELD_ORDER - 1), 0);
}

#[test]
fn test_digest_deterministic_and_sensitive() {
    let a: Vec<u64> = vec![1, 2, 3, 4, 5];
    let b: Vec<u64> = vec![1, 2, 3, 4, 6];
    let d1 = digest(&a);
    let d2 = digest(&a);
    let d3 = digest(&b);
    assert_eq!(d1, d2);
    assert_ne!(d1, d3);
    assert_eq!(d1.len(), 4);
    assert!(d1.iter().all(|&x| x < FIELD_ORDER));
}

#[test]
fn test_compress_not_identity() {
    let left: Vec<u64> = (0..8).collect();
    let right: Vec<u64> = (8..16).collect();
    let out = compress(&left, &right);
    assert_eq!(out.len(), 8);
    assert!(out.iter().all(|&w| w < (1u64 << 32)));
    assert_ne!(out, left);
    assert_ne!(out, right);
}

#[test]
fn test_linear_column_reference() {
    // one table, one row; the linear reference 2*col0 + 3*col1 + 7
    let traces = vec![vec![vec![5u64, 11u64, 1u64]]];
    let looked = TableWithColumns::new(0, vec![ColumnRef::Linear(vec![(0, 2), (1, 3)], 7)], None);
    let looking = TableWithColumns::new(0, vec![ColumnRef::Single(0)], Some(ColumnRef::Single(2)));
    // 2*5 + 3*11 + 7 = 50, while column 0 alone is 5: the multisets differ
    let ctl = CrossTableLookup::new(vec![looking], looked, None);
    let outcome = check_ctls(&traces, &vec![ctl]);
    assert!(matches!(outcome, Err(StarkError::CtlTerminalMismatch { instance: 0 })));
    // and a self-lookup through the same linear reference agrees
    let looked = TableWithColumns::new(0, vec![ColumnRef::Linear(vec![(0, 2), (1, 3)], 7)], None);
    let looking = TableWithColumns::new(0, vec![ColumnRef::Linear(vec![(0, 2), (1, 3)], 7)], None);
    let ctl = CrossTableLookup::new(vec![looking], looked, None);
    check_ctls(&traces, &vec![ctl]).expect("equal multisets");
}

#[test]
fn test_check_ctls_reports_instance() {
    let sys = Merkle5STARK::default();
    let (_pis, mut traces) = workload();
    // tamper only the tree table's output columns: the first instance
    // (inputs and output) breaks
    traces[1][3][150] += 1;
    let outcome = check_ctls(&traces, &sys.cross_table_lookups);
    assert!(matches!(outcome, Err(StarkError::CtlTerminalMismatch { instance: 0 })));
}

#[test]
fn test_malformed_descriptor_rejected_at_entry() {
    // a descriptor whose looking tuple is narrower than the looked tuple
    // is reported, by prove and by verify, before any other work
    let config = StarkConfig::standard_fast_config();
    let looking = vec![TableWithColumns::new(
        0,
        vec![ColumnRef::Single(0)],
        Some(ColumnRef::Single(24)),
    )];
    let looked = TableWithColumns::new(
        1,
        vec![ColumnRef::Single(144), ColumnRef::Single(145)],
        Some(ColumnRef::Single(156)),
    );
    let bad = Merkle5STARK {
        cross_table_lookups: vec![CrossTableLookup { looking, looked, default: None }],
        ..Merkle5STARK::default()
    };
    let (pis, traces) = workload();
    let outcome = bad.prove(&config, &traces, &vec![Vec::new(), pis.clone()]);
    assert!(matches!(outcome, Err(StarkError::MalformedDescriptor)));
    let good = Merkle5STARK::default();
    let proof = good.prove(&config, &traces, &vec![Vec::new(), pis]).expect("prove");
    assert!(matches!(bad.verify(&config, &proof), Err(StarkError::MalformedDescriptor)));
}

#[test]
fn test_prove_table_count_mismatch() {
    let config = StarkConfig::standard_fast_config();
    let sys = Merkle5STARK::default();
    let (pis, mut traces) = workload();
    traces.pop();
    let outcome = sys.prove(&config, &traces, &vec![Vec::new(), pis]);
    assert!(matches!(outcome, Err(StarkError::TableCountMismatch)));
}

#[test]
fn test_prove_row_count_not_power_of_two() {
    let config = StarkConfig::standard_fast_config();
    let sys = Merkle5STARK::default();
    let (pis, mut traces) = workload();
    let extra = traces[0][0].clone();
    traces[0].push(extra);
    let outcome = sys.prove(&config, &traces, &vec![Vec::new(), pis]);
    assert!(matches!(outcome, Err(StarkError::RowCountNotPowerOfTwo { table: 0 })));
}

#[test]
fn test_prove_row_width_mismatch() {
    let config = StarkConfig::standard_fast_config();
    let sys = Merkle5STARK::default();
    let (pis, mut traces) = workload();
    traces[1][2].push(0);
    let outcome = sys.prove(&config, &traces, &vec![Vec::new(), pis]);
    assert!(matches!(outcome, Err(StarkError::RowWidthMismatch { table: 1 })));
}

#[test]
fn test_prove_public_input_count_mismatch() {
    let config = StarkConfig::standard_fast_config();
    let sys = Merkle5STARK::default();
    let (pis, traces) = workload();
    let mut short = pis.clone();
    short.pop();
    let outcome = sys.prove(&config, &traces, &vec![Vec::new(), short]);
    assert!(matches!(outcome, Err(StarkError::PublicInputCountMismatch { table: 1 })));
}

#[test]
fn test_prove_local_constraint_failure() {
    let config = StarkConfig::standard_fast_config();
    let sys = Merkle5STARK::default();
    let (pis, mut traces) = workload();
    // a non-boolean lookup filter in the compression table
    traces[0][1][24] = 2;
    let outcome = sys.prove(&config, &traces, &vec![Vec::new(), pis]);
    assert!(matches!(outcome, Err(StarkError::LocalConstraintFailure { table: 0 })));
}

#[test]
fn test_verify_malformed_proof() {
    let config = StarkConfig::standard_fast_config();
    let sys = Merkle5STARK::default();
    let (pis, traces) = workload();
    let mut proof = sys.prove(&config, &traces, &vec![Vec::new(), pis]).expect("prove");
    proof.ctl_openings.pop();
    let outcome = sys.verify(&config, &proof);
    assert!(matches!(outcome, Err(StarkError::MalformedProof)));
}

#[test]
fn test_verify_rejects_malformed_z_commitment() {
    let config = StarkConfig::standard_fast_config();
    let sys = Merkle5STARK::default();
    let (pis, traces) = workload();
    let mut proof = sys.prove(&config, &traces, &vec![Vec::new(), pis]).expect("prove");
    assert_eq!(proof.ctl_zs_commitment.len(), 4);
    proof.ctl_zs_commitment.pop();
    let outcome = sys.verify(&config, &proof);
    assert!(matches!(outcome, Err(StarkError::MalformedProof)));
}

#[test]
fn test_verify_rejects_altered_terminal() {
    let config = StarkConfig::standard_fast_config();
    let sys = Merkle5STARK::default();
    let (pis, traces) = workload();
    let mut proof = sys.prove(&config, &traces, &vec![Vec::new(), pis]).expect("prove");
    proof.ctl_openings[1].looked_z_final = add_fe(proof.ctl_openings[1].looked_z_final, 1);
    let outcome = sys.verify(&config, &proof);
    assert!(matches!(outcome, Err(StarkError::CtlTerminalMismatch { instance: 1 })));
}

#[test]
fn test_verify_rejects_altered_commitment() {
    // changing a commitment changes the re-derived challenges, so the
    // recorded challenge of the first instance no longer matches
    let config = StarkConfig::standard_fast_config();
    let sys = Merkle5STARK::default();
    let (pis, traces) = workload();
    let mut proof = sys.prove(&config, &traces, &vec![Vec::new(), pis]).expect("prove");
    proof.proofs[0].trace_commitment[0] = add_fe(proof.proofs[0].trace_commitment[0], 1);
    let outcome = sys.verify(&config, &proof);
    assert!(matches!(outcome, Err(StarkError::ChallengeMismatch { instance: 0 })));
}

#[test]
fn test_into_polynomial_values_transposes() {
    let mut generator = Tree5TraceGenerator::new(16, leaves());
    let _ = generator.gen();
    let first_row = generator.trace.0[0].clone();
    let columns = generator.into_polynomial_values();
    assert_eq!(columns.len(), 162);
    for c in 0..162 {
        assert_eq!(columns[c].len(), 16);
        assert_eq!(columns[c][0], first_row[c]);
    }
}

#[test]
fn test_standard_fast_config() {
    let config = StarkConfig::standard_fast_config();
    assert_eq!(config.security_bits, 100);
    assert_eq!(config.rate_bits, 1);
    assert_eq!(config.cap_height, 4);
    assert_eq!(config.proof_of_work_bits, 16);
    assert_eq!(config.num_query_rounds, 84);
}
