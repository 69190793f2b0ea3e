//! Proof objects: one per-table proof (its trace commitment, claimed row
//! count and public inputs) and, per lookup instance, the opened terminal
//! values of the running-product columns together with the challenge they
//! were built from. The aggregate `AllProof` bundles them in table order
//! and descriptor order respectively.

use vstd::prelude::*;

use crate::transcript::CtlChallenge;

verus! {

/// One table's proof: the commitment to its trace, the trace's row count,
/// and the table's public inputs. The opened low-degree-test artifacts of
/// a deployed system live in the commitment layer, which is outside this
/// core.
pub struct StarkProofWithPublicInputs {
    pub trace_commitment: Vec<u64>,
    pub num_rows: usize,
    pub public_inputs: Vec<u64>,
}

/// The opened terminal values of one lookup instance: the challenge the
/// prover used, the final running-product value of every looking side, and
/// the looked side's final value.
pub struct CtlInstanceOpening {
    pub challenge: CtlChallenge,
    pub looking_z_finals: Vec<u64>,
    pub looked_z_final: u64,
}

/// An aggregate multi-table STARK proof: one per-table proof in table
/// order, one opening per cross-table-lookup instance in descriptor
/// order, and the commitment to all running-product columns, in the same
/// order. The openings' consistency with that commitment is the
/// out-of-scope low-degree layer's check; this core commits the columns
/// and pins the commitment so the layer has something to check against.
pub struct AllProof {
    pub proofs: Vec<StarkProofWithPublicInputs>,
    pub ctl_openings: Vec<CtlInstanceOpening>,
    pub ctl_zs_commitment: Vec<u64>,
}

} // verus!
