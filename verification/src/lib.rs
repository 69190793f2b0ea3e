//! A multi-table STARK core: cross-table lookups (CTL) over independently
//! generated execution traces, with a Fiat-Shamir transcript, a trace
//! commitment supplied by an outside proving library, and a depth-5
//! Merkle-tree trace generator as the worked example of the table contract.
//!
//! The polynomial-commitment and low-degree-test machinery of a deployed
//! proving system is out of scope; in its place this crate carries a small
//! fixed sponge of its own for trace commitments and for the Fiat-Shamir
//! transcript, so that both are deterministic functions the contracts can
//! speak about exactly. Trace generation, the descriptor and engine for
//! cross-table lookups, the orchestration of proving and verification, and
//! the multiset oracle `check_ctls` are all verified here.

pub mod all_stark;
pub mod config;
pub mod ctl;
pub mod error;
pub mod field;
pub mod hash_stark;
pub mod laws;
pub mod hashing;
pub mod merkle_stark;
pub mod proofs;
pub mod stark;
pub mod transcript;
pub mod tree_stark;
pub mod util;

use vstd::prelude::*;

verus! {

} // verus!
