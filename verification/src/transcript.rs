//! The Fiat-Shamir transcript: challenges for the cross-table lookups are
//! derived deterministically from the security configuration and from every
//! table's trace commitment, in table order, so the prover and the verifier
//! squeeze the same challenges — and nothing else determines them.

use vstd::prelude::*;

use crate::config::StarkConfig;
use crate::hashing::{
    absorb, lemma_absorb_wf, permute, spec_absorb, spec_initial_state, spec_permute, zero_state,
};
use crate::util::rows_view;

verus! {

/// One cross-table-lookup challenge: `alpha` combines a row's column tuple
/// into a single value, `gamma` shifts it before it enters the running
/// product.
#[derive(Clone, Copy, Debug, PartialEq, Eq, Structural)]
pub struct CtlChallenge {
    pub alpha: u64,
    pub gamma: u64,
}

/// All rows of all commitments, flattened in order.
pub open spec fn spec_flatten(rows: Seq<Seq<u64>>) -> Seq<u64>
    decreases rows.len(),
{
    if rows.len() == 0 {
        Seq::empty()
    } else {
        spec_flatten(rows.drop_last()) + rows.last()
    }
}

pub fn flatten(rows: &Vec<Vec<u64>>) -> (out: Vec<u64>)
    ensures
        out@ == spec_flatten(rows_view(rows@)),
{
    let mut out: Vec<u64> = Vec::new();
    let mut i: usize = 0;
    while i < rows.len()
        invariant
            i <= rows@.len(),
            out@ == spec_flatten(rows_view(rows@).take(i as int)),
        decreases rows@.len() - i,
    {
        let row = &rows[i];
        let mut j: usize = 0;
        while j < row.len()
            invariant
                j <= row@.len(),
                i < rows@.len(),
                row@ == rows@[i as int]@,
                out@ == spec_flatten(rows_view(rows@).take(i as int)) + row@.take(j as int),
            decreases row@.len() - j,
        {
            out.push(row[j]);
            assert(row@.take(j as int + 1) =~= row@.take(j as int).push(row@[j as int]));
            j = j + 1;
        }
        proof {
            let dv = rows_view(rows@);
            assert(dv.take(i as int + 1).drop_last() =~= dv.take(i as int));
            assert(dv.take(i as int + 1).last() == dv[i as int]);
            assert(dv[i as int] == row@);
            assert(row@.take(row@.len() as int) =~= row@);
        }
        i = i + 1;
    }
    assert(rows_view(rows@).take(rows@.len() as int) =~= rows_view(rows@));
    out
}

/// Squeeze `n` elements from a state: read the rate lanes, permuting
/// between blocks.
pub open spec fn spec_squeeze(state: Seq<u64>, n: int) -> Seq<u64>
    decreases n,
{
    if n <= 8 {
        state.take(n)
    } else {
        state.take(8) + spec_squeeze(spec_permute(state), n - 8)
    }
}

pub proof fn lemma_squeeze_len(state: Seq<u64>, n: int)
    requires
        state.len() == 12,
        n >= 0,
    ensures
        spec_squeeze(state, n).len() == n,
    decreases n,
{
    if n > 8 {
        crate::hashing::lemma_permute_wf(state);
        lemma_squeeze_len(spec_permute(state), n - 8);
    }
}

fn squeeze(state: Vec<u64>, n: usize) -> (out: Vec<u64>)
    requires
        state@.len() == 12,
    ensures
        out@ == spec_squeeze(state@, n as int),
        out@.len() == n,
    decreases n,
{
    proof {
        lemma_squeeze_len(state@, n as int);
    }
    if n <= 8 {
        let mut out: Vec<u64> = Vec::new();
        let mut i: usize = 0;
        while i < n
            invariant
                i <= n,
                n <= 8,
                state@.len() == 12,
                out@ == state@.take(i as int),
            decreases n - i,
        {
            out.push(state[i]);
            assert(out@ =~= state@.take(i as int + 1));
            i = i + 1;
        }
        out
    } else {
        let mut out: Vec<u64> = Vec::new();
        let mut i: usize = 0;
        while i < 8
            invariant
                i <= 8,
                state@.len() == 12,
                out@ == state@.take(i as int),
            decreases 8 - i,
        {
            out.push(state[i]);
            assert(out@ =~= state@.take(i as int + 1));
            i = i + 1;
        }
        let next = permute(&state);
        let mut rest = squeeze(next, n - 8);
        out.append(&mut rest);
        out
    }
}

/// The transcript state after the configuration, the descriptor encoding
/// and every commitment have been absorbed, in order.
pub open spec fn spec_transcript_state(
    config: StarkConfig,
    binding: Seq<u64>,
    commitments: Seq<Seq<u64>>,
) -> Seq<u64> {
    spec_absorb(spec_initial_state(), config.spec_elements() + binding + spec_flatten(commitments))
}

/// The `n` cross-table-lookup challenges derived from the configuration,
/// the descriptor encoding and the commitments: challenge `i` is the
/// `2i`-th and `2i+1`-th squeezed element.
pub open spec fn spec_derive_challenges(
    config: StarkConfig,
    binding: Seq<u64>,
    commitments: Seq<Seq<u64>>,
    n: int,
) -> Seq<CtlChallenge> {
    let raw = spec_squeeze(spec_transcript_state(config, binding, commitments), 2 * n);
    Seq::new(n as nat, |i: int| CtlChallenge { alpha: raw[2 * i], gamma: raw[2 * i + 1] })
}

/// Derive one challenge per cross-table-lookup instance from the shared
/// transcript. Both the prover and the verifier call this with the same
/// descriptor encoding and the same commitments, in the same fixed table
/// order: which challenge binds to which instance is decided here.
pub fn derive_challenges(
    config: &StarkConfig,
    binding: &Vec<u64>,
    commitments: &Vec<Vec<u64>>,
    n: usize,
) -> (out: Vec<CtlChallenge>)
    requires
        n <= 1000,
    ensures
        out@ == spec_derive_challenges(*config, binding@, rows_view(commitments@), n as int),
        out@.len() == n,
{
    let mut input = config.elements();
    let mut bind = crate::util::copy_vec(binding);
    input.append(&mut bind);
    let mut flat = flatten(commitments);
    input.append(&mut flat);
    let st = zero_state();
    let st = absorb(st, &input);
    let raw = squeeze(st, 2 * n);
    let mut out: Vec<CtlChallenge> = Vec::new();
    let mut i: usize = 0;
    while i < n
        invariant
            i <= n,
            n <= 1000,
            raw@.len() == 2 * n,
            raw@ == spec_squeeze(spec_transcript_state(*config, binding@, rows_view(commitments@)), 2 * n as int),
            out@.len() == i,
            forall|j: int| 0 <= j < i ==> out@[j] == (CtlChallenge {
                alpha: raw@[2 * j],
                gamma: raw@[2 * j + 1],
            }),
        decreases n - i,
    {
        out.push(CtlChallenge { alpha: raw[2 * i], gamma: raw[2 * i + 1] });
        i = i + 1;
    }
    assert(out@ =~= spec_derive_challenges(*config, binding@, rows_view(commitments@), n as int));
    out
}

} // verus!
