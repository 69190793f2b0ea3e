//! The sponge permutation and digest used for transcripts and trace
//! commitments.
//!
//! A real deployment would take these from the proving library's
//! commitment layer; this crate carries its own fixed permutation over the
//! Goldilocks field (an x^7 s-box followed by an invertible linear mix,
//! with round constants derived from the round and lane indices), so that
//! challenge derivation and commitments are deterministic functions that
//! the proofs can speak about exactly.

use vstd::prelude::*;

use crate::field::{add_fe, all_fe, fe_add, fe_mul, is_fe, mul_fe};

verus! {

/// Number of lanes in the permutation state.
pub const SPONGE_WIDTH: usize = 12;

/// Number of lanes overwritten per absorbed chunk and read per squeeze.
pub const SPONGE_RATE: usize = 8;

/// Number of rounds of the permutation.
pub const NUM_ROUNDS: usize = 8;

/// Odd multiplier from which the round constants are derived.
pub const ROUND_GAMMA: u64 = 0x9E37_79B9_7F4A_7C15;

/// The round constant for round `r`, lane `i`.
pub open spec fn spec_round_constant(r: int, i: int) -> u64 {
    fe_mul(((12 * r + i + 1) as u64), ROUND_GAMMA)
}

/// The s-box: x^7 in the field.
pub open spec fn spec_sbox(x: u64) -> u64 {
    let x2 = fe_mul(x, x);
    let x4 = fe_mul(x2, x2);
    let x6 = fe_mul(x4, x2);
    fe_mul(x6, x)
}

/// Sum of all lanes, reduced.
pub open spec fn spec_lane_sum(s: Seq<u64>, n: int) -> u64
    decreases n,
{
    if n <= 0 {
        0u64
    } else {
        fe_add(spec_lane_sum(s, n - 1), s[n - 1])
    }
}

/// One round: s-box every lane, then add the lane sum and a round constant
/// to every lane (the matrix I + J, which is invertible over this field).
pub open spec fn spec_round(s: Seq<u64>, r: int) -> Seq<u64> {
    let boxed = Seq::new(12, |i: int| spec_sbox(s[i]));
    let total = spec_lane_sum(boxed, 12);
    Seq::new(12, |i: int| fe_add(fe_add(boxed[i], total), spec_round_constant(r, i)))
}

/// The full permutation: `NUM_ROUNDS` rounds applied to the state.
pub open spec fn spec_permute_upto(s: Seq<u64>, r: int) -> Seq<u64>
    decreases r,
{
    if r <= 0 {
        s
    } else {
        spec_round(spec_permute_upto(s, r - 1), r - 1)
    }
}

pub open spec fn spec_permute(s: Seq<u64>) -> Seq<u64> {
    spec_permute_upto(s, NUM_ROUNDS as int)
}

pub proof fn lemma_permute_wf(s: Seq<u64>)
    requires
        s.len() == 12,
    ensures
        spec_permute(s).len() == 12,
        all_fe(spec_permute(s)),
{
    lemma_permute_upto_wf(s, NUM_ROUNDS as int);
}

proof fn lemma_permute_upto_wf(s: Seq<u64>, r: int)
    requires
        s.len() == 12,
    ensures
        spec_permute_upto(s, r).len() == 12,
        r > 0 ==> all_fe(spec_permute_upto(s, r)),
    decreases r,
{
    if r > 0 {
        lemma_permute_upto_wf(s, r - 1);
    }
}

fn round_constant(r: usize, i: usize) -> (c: u64)
    requires
        r < 8,
        i < 12,
    ensures
        c == spec_round_constant(r as int, i as int),
{
    mul_fe((12 * r + i + 1) as u64, ROUND_GAMMA)
}

fn sbox(x: u64) -> (r: u64)
    ensures
        r == spec_sbox(x),
        is_fe(r),
{
    let x2 = mul_fe(x, x);
    let x4 = mul_fe(x2, x2);
    let x6 = mul_fe(x4, x2);
    mul_fe(x6, x)
}

/// Apply the fixed permutation to a twelve-lane state.
pub fn permute(state: &Vec<u64>) -> (out: Vec<u64>)
    requires
        state@.len() == 12,
    ensures
        out@ == spec_permute(state@),
        out@.len() == 12,
        all_fe(out@),
{
    let mut cur: Vec<u64> = Vec::new();
    let mut i: usize = 0;
    while i < 12
        invariant
            i <= 12,
            cur@ == state@.take(i as int),
            state@.len() == 12,
        decreases 12 - i,
    {
        cur.push(state[i]);
        assert(cur@ =~= state@.take(i as int + 1));
        i = i + 1;
    }
    assert(cur@ =~= state@);
    let mut r: usize = 0;
    while r < NUM_ROUNDS
        invariant
            r <= 8,
            cur@ == spec_permute_upto(state@, r as int),
            cur@.len() == 12,
            state@.len() == 12,
        decreases 8 - r,
    {
        let mut boxed: Vec<u64> = Vec::new();
        let mut i: usize = 0;
        while i < 12
            invariant
                i <= 12,
                cur@.len() == 12,
                boxed@.len() == i,
                forall|j: int| 0 <= j < i ==> boxed@[j] == spec_sbox(cur@[j]) && is_fe(#[trigger] boxed@[j]),
            decreases 12 - i,
        {
            boxed.push(sbox(cur[i]));
            i = i + 1;
        }
        let ghost boxed_spec = Seq::new(12, |i: int| spec_sbox(cur@[i]));
        assert(boxed@ =~= boxed_spec);
        let mut total: u64 = 0;
        let mut i: usize = 0;
        while i < 12
            invariant
                i <= 12,
                boxed@.len() == 12,
                total == spec_lane_sum(boxed@, i as int),
            decreases 12 - i,
        {
            total = add_fe(total, boxed[i]);
            i = i + 1;
        }
        let mut next: Vec<u64> = Vec::new();
        let mut i: usize = 0;
        while i < 12
            invariant
                i <= 12,
                boxed@.len() == 12,
                r < 8,
                total == spec_lane_sum(boxed@, 12),
                next@.len() == i,
                forall|j: int| 0 <= j < i ==> next@[j] == fe_add(
                    fe_add(boxed@[j], total),
                    spec_round_constant(r as int, j),
                ) && is_fe(#[trigger] next@[j]),
            decreases 12 - i,
        {
            let c = round_constant(r, i);
            next.push(add_fe(add_fe(boxed[i], total), c));
            i = i + 1;
        }
        assert(next@ =~= spec_round(cur@, r as int));
        cur = next;
        r = r + 1;
    }
    proof {
        lemma_permute_upto_wf(state@, 8);
    }
    cur
}

/// Overwrite the first `chunk.len()` lanes of a twelve-lane state.
pub open spec fn spec_overwrite(state: Seq<u64>, chunk: Seq<u64>) -> Seq<u64> {
    Seq::new(12, |i: int| if i < chunk.len() { chunk[i] } else { state[i] })
}

/// Absorb a message into a twelve-lane state, one rate-sized chunk at a
/// time: overwrite the rate lanes with the chunk, then permute. A final
/// short chunk is absorbed the same way; there is no padding, so this is
/// meant for fixed-shape inputs, as commitments here are.
pub open spec fn spec_absorb(state: Seq<u64>, xs: Seq<u64>) -> Seq<u64>
    decreases xs.len(),
{
    if xs.len() == 0 {
        state
    } else if xs.len() <= 8 {
        spec_permute(spec_overwrite(state, xs))
    } else {
        spec_absorb(spec_permute(spec_overwrite(state, xs.take(8))), xs.skip(8))
    }
}

pub proof fn lemma_absorb_wf(state: Seq<u64>, xs: Seq<u64>)
    requires
        state.len() == 12,
    ensures
        spec_absorb(state, xs).len() == 12,
        xs.len() > 0 ==> all_fe(spec_absorb(state, xs)),
    decreases xs.len(),
{
    if xs.len() == 0 {
    } else if xs.len() <= 8 {
        lemma_permute_wf(spec_overwrite(state, xs));
    } else {
        lemma_permute_wf(spec_overwrite(state, xs.take(8)));
        lemma_absorb_wf(spec_permute(spec_overwrite(state, xs.take(8))), xs.skip(8));
    }
}

/// The all-zero initial state.
pub open spec fn spec_initial_state() -> Seq<u64> {
    Seq::new(12, |i: int| 0u64)
}

/// The four-lane digest of a message: absorb into the zero state and read
/// the first four lanes.
pub open spec fn spec_digest(xs: Seq<u64>) -> Seq<u64> {
    spec_absorb(spec_initial_state(), xs).take(4)
}

/// The all-zero state, as a vector.
pub fn zero_state() -> (s: Vec<u64>)
    ensures
        s@ == spec_initial_state(),
        s@.len() == 12,
{
    let mut s: Vec<u64> = Vec::new();
    let mut i: usize = 0;
    while i < 12
        invariant
            i <= 12,
            s@.len() == i,
            forall|j: int| 0 <= j < i ==> s@[j] == 0u64,
        decreases 12 - i,
    {
        s.push(0u64);
        i = i + 1;
    }
    assert(s@ =~= spec_initial_state());
    s
}

fn overwrite(state: &Vec<u64>, chunk: &Vec<u64>, from: usize, upto: usize) -> (out: Vec<u64>)
    requires
        state@.len() == 12,
        from <= upto <= chunk@.len(),
        upto - from <= 8,
    ensures
        out@ == spec_overwrite(state@, chunk@.subrange(from as int, upto as int)),
        out@.len() == 12,
{
    let mut out: Vec<u64> = Vec::new();
    let mut i: usize = 0;
    let k: usize = upto - from;
    while i < 12
        invariant
            i <= 12,
            k == upto - from,
            from <= upto <= chunk@.len(),
            state@.len() == 12,
            out@.len() == i,
            forall|j: int| 0 <= j < i ==> out@[j] == (if j < k {
                chunk@[from + j]
            } else {
                state@[j]
            }),
        decreases 12 - i,
    {
        if i < k {
            out.push(chunk[from + i]);
        } else {
            out.push(state[i]);
        }
        i = i + 1;
    }
    assert(out@ =~= spec_overwrite(state@, chunk@.subrange(from as int, upto as int)));
    out
}

/// Absorb an entire message into a state.
pub fn absorb(state: Vec<u64>, xs: &Vec<u64>) -> (out: Vec<u64>)
    requires
        state@.len() == 12,
    ensures
        out@ == spec_absorb(state@, xs@),
        out@.len() == 12,
{
    let out = absorb_from(state, xs, 0);
    assert(xs@.skip(0) =~= xs@);
    out
}

fn absorb_from(state: Vec<u64>, xs: &Vec<u64>, from: usize) -> (out: Vec<u64>)
    requires
        state@.len() == 12,
        from <= xs@.len(),
    ensures
        out@ == spec_absorb(state@, xs@.skip(from as int)),
        out@.len() == 12,
    decreases xs@.len() - from,
{
    let n = xs.len();
    if from == n {
        assert(xs@.skip(from as int).len() == 0);
        state
    } else if n - from <= 8 {
        let st = overwrite(&state, xs, from, n);
        assert(xs@.subrange(from as int, n as int) =~= xs@.skip(from as int));
        permute(&st)
    } else {
        let st = overwrite(&state, xs, from, from + 8);
        let st = permute(&st);
        let out = absorb_from(st, xs, from + 8);
        proof {
            let tail = xs@.skip(from as int);
            assert(xs@.subrange(from as int, from as int + 8) =~= tail.take(8));
            assert(xs@.skip(from as int + 8) =~= tail.skip(8));
        }
        out
    }
}

/// The digest of a message, as four canonical field elements.
pub fn digest(xs: &Vec<u64>) -> (out: Vec<u64>)
    ensures
        out@ == spec_digest(xs@),
        out@.len() == 4,
        xs@.len() > 0 ==> all_fe(out@),
{
    let st = zero_state();
    let st = absorb(st, xs);
    proof {
        lemma_absorb_wf(spec_initial_state(), xs@);
    }
    let mut out: Vec<u64> = Vec::new();
    let mut i: usize = 0;
    while i < 4
        invariant
            i <= 4,
            st@.len() == 12,
            out@ == st@.take(i as int),
        decreases 4 - i,
    {
        out.push(st[i]);
        assert(out@ =~= st@.take(i as int + 1));
        i = i + 1;
    }
    out
}

/// Split a four-element digest into eight 32-bit words (low word first).
pub open spec fn spec_split_words(d: Seq<u64>) -> Seq<u64> {
    Seq::new(8, |j: int|
        if j % 2 == 0 {
            ((d[j / 2] as int) % 0x1_0000_0000) as u64
        } else {
            ((d[j / 2] as int) / 0x1_0000_0000) as u64
        })
}

/// The fixed 2-to-1 compression function over 256-bit blocks, each block
/// eight 32-bit words: hash the sixteen words and split the digest back
/// into eight 32-bit words.
pub open spec fn spec_compress(left: Seq<u64>, right: Seq<u64>) -> Seq<u64> {
    spec_split_words(spec_digest(left + right))
}

pub proof fn lemma_compress_bounded(left: Seq<u64>, right: Seq<u64>)
    ensures
        spec_compress(left, right).len() == 8,
        forall|j: int| 0 <= j < 8 ==> (#[trigger] spec_compress(left, right)[j]) < 0x1_0000_0000,
{
    let d = spec_digest(left + right);
    assert forall|j: int| 0 <= j < 8 implies (#[trigger] spec_compress(left, right)[j])
        < 0x1_0000_0000 by {
        if j % 2 == 0 {
            assert((d[j / 2] as int) % 0x1_0000_0000 < 0x1_0000_0000);
        } else {
            assert((d[j / 2] as int) / 0x1_0000_0000 < 0x1_0000_0000);
        }
    }
}

/// Compress two 256-bit blocks (eight 32-bit words each) into one.
pub fn compress(left: &Vec<u64>, right: &Vec<u64>) -> (out: Vec<u64>)
    requires
        left@.len() == 8,
        right@.len() == 8,
    ensures
        out@ == spec_compress(left@, right@),
        out@.len() == 8,
        forall|j: int| 0 <= j < 8 ==> (#[trigger] out@[j]) < 0x1_0000_0000,
{
    let mut input: Vec<u64> = Vec::new();
    let mut i: usize = 0;
    while i < 8
        invariant
            i <= 8,
            left@.len() == 8,
            input@ == left@.take(i as int),
        decreases 8 - i,
    {
        input.push(left[i]);
        assert(input@ =~= left@.take(i as int + 1));
        i = i + 1;
    }
    let mut i: usize = 0;
    while i < 8
        invariant
            i <= 8,
            left@.len() == 8,
            right@.len() == 8,
            input@ == left@.take(8) + right@.take(i as int),
        decreases 8 - i,
    {
        input.push(right[i]);
        assert(input@ =~= left@.take(8) + right@.take(i as int + 1));
        i = i + 1;
    }
    assert(input@ =~= left@ + right@);
    let d = digest(&input);
    let ghost target = spec_split_words(d@);
    let mut out: Vec<u64> = Vec::new();
    let mut k: usize = 0;
    while k < 4
        invariant
            k <= 4,
            d@.len() == 4,
            d@ == spec_digest(left@ + right@),
            out@.len() == 2 * k,
            out@ == target.take(2 * k as int),
            target == spec_split_words(d@),
        decreases 4 - k,
    {
        let lo: u64 = d[k] % 0x1_0000_0000;
        let hi: u64 = d[k] / 0x1_0000_0000;
        out.push(lo);
        out.push(hi);
        assert(out@ =~= target.take(2 * k as int + 2));
        k = k + 1;
    }
    assert(out@ =~= target);
    proof {
        lemma_compress_bounded(left@, right@);
    }
    out
}

} // verus!
