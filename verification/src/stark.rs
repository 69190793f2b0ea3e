//! The table contract: what every table must expose so that the
//! orchestrator can size proofs, check local constraints, and know how
//! many auxiliary permutation batches it carries.

use vstd::prelude::*;

use crate::config::StarkConfig;
use crate::field::all_fe;

verus! {

/// The interface every table implements. A table fixes its column count,
/// its public-input count, a constraint evaluator over a two-row window
/// (STARK constraints are naturally transition constraints between
/// adjacent rows), and the permutation-argument batching hooks the
/// orchestrator queries.
pub trait Stark {
    spec fn spec_num_columns(&self) -> int;

    spec fn spec_num_public_inputs(&self) -> int;

    /// The residuals of the constraints on one two-row window: the
    /// single-row constraints of `curr`, and, when `curr` is not the
    /// trace's last row (`last` is false), the transition constraints
    /// between `curr` and `next`. A window satisfies the table when every
    /// residual is zero; this must hold of every window of a trace,
    /// padding rows included.
    spec fn spec_constraints(&self, curr: Seq<u64>, next: Seq<u64>, last: bool, pis: Seq<u64>) -> Seq<
        u64,
    >;

    spec fn spec_num_permutation_batches(&self, config: StarkConfig) -> int;

    spec fn spec_permutation_batch_size(&self) -> int;

    fn num_columns(&self) -> (n: usize)
        ensures
            n as int == self.spec_num_columns(),
    ;

    fn num_public_inputs(&self) -> (n: usize)
        ensures
            n as int == self.spec_num_public_inputs(),
    ;

    fn eval_transition(&self, curr: &Vec<u64>, next: &Vec<u64>, last: bool, public_inputs: &Vec<
        u64,
    >) -> (res: Vec<u64>)
        requires
            curr@.len() as int == self.spec_num_columns(),
            next@.len() as int == self.spec_num_columns(),
            public_inputs@.len() as int == self.spec_num_public_inputs(),
            all_fe(curr@),
            all_fe(next@),
            all_fe(public_inputs@),
        ensures
            res@ == self.spec_constraints(curr@, next@, last, public_inputs@),
    ;

    fn num_permutation_batches(&self, config: &StarkConfig) -> (n: usize)
        ensures
            n as int == self.spec_num_permutation_batches(*config),
    ;

    fn permutation_batch_size(&self) -> (n: usize)
        ensures
            n as int == self.spec_permutation_batch_size(),
    ;
}

/// A window satisfies a table's constraints when every residual is zero.
pub open spec fn window_satisfies<S: Stark>(
    s: S,
    curr: Seq<u64>,
    next: Seq<u64>,
    last: bool,
    pis: Seq<u64>,
) -> bool {
    forall|j: int|
        0 <= j < s.spec_constraints(curr, next, last, pis).len() ==> s.spec_constraints(
            curr,
            next,
            last,
            pis,
        )[j] == 0u64
}

} // verus!
