//! Error taxonomy for proving and verification. Each failure names the
//! stage and, where applicable, the table or lookup instance concerned;
//! a cross-table mismatch is kept distinct from a single-table failure so
//! callers can tell "a table is broken" from "the tables disagree".

use vstd::prelude::*;

verus! {

#[derive(Clone, Copy, Debug, PartialEq, Eq, Structural)]
pub enum StarkError {
    /// The descriptor is malformed: a side names a table or columns the
    /// system does not have, a looking side's tuple width differs from the
    /// looked side's, or an instance has no looking side.
    MalformedDescriptor,
    /// The number of traces, public-input vectors or per-table proofs does
    /// not match the table count.
    TableCountMismatch,
    /// A trace's row count is not a power of two.
    RowCountNotPowerOfTwo { table: usize },
    /// A row of a trace does not have its table's column count.
    RowWidthMismatch { table: usize },
    /// A public-input vector does not have its table's length.
    PublicInputCountMismatch { table: usize },
    /// A table's local constraints fail on some row: its own STARK cannot
    /// be proved.
    LocalConstraintFailure { table: usize },
    /// A proof's lookup openings do not have the shape the descriptor
    /// demands.
    MalformedProof,
    /// A recorded lookup challenge disagrees with the one re-derived from
    /// the transcript: the proof was not produced in descriptor order.
    ChallengeMismatch { instance: usize },
    /// Every table verified alone, but a cross-table lookup's terminal
    /// values disagree: the tables are inconsistent with one another.
    CtlTerminalMismatch { instance: usize },
}

} // verus!
