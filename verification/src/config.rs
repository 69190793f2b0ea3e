//! Proof-security configuration, consumed (never computed) by the
//! orchestrator and bound into the transcript.

use vstd::prelude::*;

verus! {

/// Security configuration shared by every table's STARK. The values are
/// chosen by the caller; this core only consumes them and mixes them into
/// the Fiat-Shamir transcript so that a proof is bound to the
/// configuration it was produced under.
#[derive(Clone, Copy, Debug, PartialEq, Eq, Structural)]
pub struct StarkConfig {
    pub security_bits: u64,
    pub rate_bits: u64,
    pub cap_height: u64,
    pub proof_of_work_bits: u64,
    pub num_query_rounds: u64,
}

impl StarkConfig {
    /// The configuration elements as absorbed into the transcript.
    pub open spec fn spec_elements(self) -> Seq<u64> {
        seq![
            self.security_bits,
            self.rate_bits,
            self.cap_height,
            self.proof_of_work_bits,
            self.num_query_rounds,
        ]
    }

    pub fn elements(&self) -> (r: Vec<u64>)
        ensures
            r@ == self.spec_elements(),
    {
        let mut r: Vec<u64> = Vec::new();
        r.push(self.security_bits);
        r.push(self.rate_bits);
        r.push(self.cap_height);
        r.push(self.proof_of_work_bits);
        r.push(self.num_query_rounds);
        assert(r@ =~= self.spec_elements());
        r
    }

    /// A standard low-latency configuration.
    pub fn standard_fast_config() -> (c: StarkConfig)
        ensures
            c == (StarkConfig {
                security_bits: 100u64,
                rate_bits: 1u64,
                cap_height: 4u64,
                proof_of_work_bits: 16u64,
                num_query_rounds: 84u64,
            }),
    {
        StarkConfig {
            security_bits: 100,
            rate_bits: 1,
            cap_height: 4,
            proof_of_work_bits: 16,
            num_query_rounds: 84,
        }
    }
}

} // verus!
