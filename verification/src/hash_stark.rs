//! The compression table: one row per 2-to-1 compression performed by the
//! tree generator, exposing the domain-separated inputs and output that the
//! tree table looks up.

use vstd::prelude::*;

use crate::config::StarkConfig;
use crate::field::{fe_mul, fe_sub, mul_fe, sub_fe};
use crate::stark::Stark;
use crate::tree_stark::{with_idx, CompressionInstance};
use crate::util::spec_is_power_of_two;

verus! {

/// Columns: eight left-input words, eight right-input words, eight output
/// words (all domain-separated), and the lookup filter.
pub const NUM_HASH_COLS: usize = 25;

pub open spec fn hash_in_0_word(word: int) -> int {
    word
}

pub open spec fn hash_in_1_word(word: int) -> int {
    8 + word
}

pub open spec fn hash_out_word(word: int) -> int {
    16 + word
}

/// The lookup filter column: 1 on instance rows, 0 on padding rows.
pub const HASH_FILTER: usize = 24;

/// The table has no public inputs.
pub const NUM_HASH_PUBLIC_INPUTS: usize = 0;

/// The row of one compression instance, with the same domain separation
/// the tree table applies: instance `r` carries `r + 1` in the 2^32 place
/// of every word.
pub open spec fn spec_hash_row_of(left: Seq<u64>, right: Seq<u64>, output: Seq<u64>, r: int) -> Seq<
    u64,
> {
    Seq::new(8, |w: int| with_idx(left[w], r)) + Seq::new(8, |w: int| with_idx(right[w], r))
        + Seq::new(8, |w: int| with_idx(output[w], r)) + seq![1u64]
}

pub open spec fn spec_hash_zero_row() -> Seq<u64> {
    Seq::new(25, |j: int| 0u64)
}

/// An instance is three hash values of eight 32-bit words.
pub open spec fn instance_wf(inst: CompressionInstance) -> bool {
    &&& inst.left@.len() == 8
    &&& inst.right@.len() == 8
    &&& inst.output@.len() == 8
    &&& forall|w: int| 0 <= w < 8 ==> (#[trigger] inst.left@[w]) < 0x1_0000_0000
    &&& forall|w: int| 0 <= w < 8 ==> (#[trigger] inst.right@[w]) < 0x1_0000_0000
    &&& forall|w: int| 0 <= w < 8 ==> (#[trigger] inst.output@[w]) < 0x1_0000_0000
}

/// Generate the compression table's trace from the instances the tree
/// generator recorded: one row per instance in order, then all-zero
/// padding rows (whose filter is zero, so they join no lookup) up to the
/// row budget.
pub fn generate_hash_trace(instances: &Vec<CompressionInstance>, num_rows: usize) -> (rows: Vec<
    Vec<u64>,
>)
    requires
        spec_is_power_of_two(num_rows as int),
        instances@.len() <= num_rows,
        instances@.len() < 0xFFFF,
        forall|i: int| 0 <= i < instances@.len() ==> instance_wf(#[trigger] instances@[i]),
    ensures
        rows@.len() == num_rows,
        forall|i: int|
            0 <= i < instances@.len() ==> (#[trigger] rows@[i])@ == spec_hash_row_of(
                instances@[i].left@,
                instances@[i].right@,
                instances@[i].output@,
                i,
            ),
        forall|i: int|
            instances@.len() <= i < num_rows ==> (#[trigger] rows@[i])@ == spec_hash_zero_row(),
{
    let mut rows: Vec<Vec<u64>> = Vec::new();
    let n = instances.len();
    let mut i: usize = 0;
    while i < n
        invariant
            i <= n,
            n == instances@.len(),
            n < 0xFFFF,
            forall|k: int| 0 <= k < n ==> instance_wf(#[trigger] instances@[k]),
            rows@.len() == i,
            forall|k: int|
                0 <= k < i ==> (#[trigger] rows@[k])@ == spec_hash_row_of(
                    instances@[k].left@,
                    instances@[k].right@,
                    instances@[k].output@,
                    k,
                ),
        decreases n - i,
    {
        let inst = &instances[i];
        let offset: u64 = (i as u64 + 1) * 0x1_0000_0000;
        let ghost target = spec_hash_row_of(inst.left@, inst.right@, inst.output@, i as int);
        let mut row: Vec<u64> = Vec::new();
        let mut w: usize = 0;
        while w < 8
            invariant
                w <= 8,
                i < n <= 0xFFFF,
                instance_wf(*inst),
                offset == (i as u64 + 1) * 0x1_0000_0000,
                target == spec_hash_row_of(inst.left@, inst.right@, inst.output@, i as int),
                row@ == target.take(w as int),
            decreases 8 - w,
        {
            row.push(inst.left[w] + offset);
            assert(row@ =~= target.take(w as int + 1));
            w = w + 1;
        }
        let mut w: usize = 0;
        while w < 8
            invariant
                w <= 8,
                i < n <= 0xFFFF,
                instance_wf(*inst),
                offset == (i as u64 + 1) * 0x1_0000_0000,
                target == spec_hash_row_of(inst.left@, inst.right@, inst.output@, i as int),
                row@ == target.take(8 + w as int),
            decreases 8 - w,
        {
            row.push(inst.right[w] + offset);
            assert(row@ =~= target.take(8 + w as int + 1));
            w = w + 1;
        }
        let mut w: usize = 0;
        while w < 8
            invariant
                w <= 8,
                i < n <= 0xFFFF,
                instance_wf(*inst),
                offset == (i as u64 + 1) * 0x1_0000_0000,
                target == spec_hash_row_of(inst.left@, inst.right@, inst.output@, i as int),
                row@ == target.take(16 + w as int),
            decreases 8 - w,
        {
            row.push(inst.output[w] + offset);
            assert(row@ =~= target.take(16 + w as int + 1));
            w = w + 1;
        }
        row.push(1u64);
        assert(row@ =~= target);
        rows.push(row);
        i = i + 1;
    }
    while i < num_rows
        invariant
            n <= i <= num_rows,
            n == instances@.len(),
            rows@.len() == i,
            forall|k: int|
                0 <= k < n ==> (#[trigger] rows@[k])@ == spec_hash_row_of(
                    instances@[k].left@,
                    instances@[k].right@,
                    instances@[k].output@,
                    k,
                ),
            forall|k: int| n <= k < i ==> (#[trigger] rows@[k])@ == spec_hash_zero_row(),
        decreases num_rows - i,
    {
        let mut row: Vec<u64> = Vec::new();
        let mut j: usize = 0;
        while j < NUM_HASH_COLS
            invariant
                j <= 25,
                row@.len() == j,
                forall|k: int| 0 <= k < j ==> (#[trigger] row@[k]) == 0u64,
            decreases 25 - j,
        {
            row.push(0u64);
            j = j + 1;
        }
        assert(row@ =~= spec_hash_zero_row());
        rows.push(row);
        i = i + 1;
    }
    rows
}

/// The compression table's STARK: its local constraints are that the
/// lookup filter is boolean and that every data cell of an unfiltered
/// (padding) row is zero; together with the lookups, which read all data
/// columns of filtered rows, every committed cell is read. The table has
/// no transition constraints, so the two-row window's `next` and `last`
/// are unused.
#[derive(Clone, Copy, Debug)]
pub struct CompressionStark {}

/// The single-row residuals of the compression table.
pub open spec fn spec_hash_row_constraints(curr: Seq<u64>) -> Seq<u64> {
    seq![fe_mul(curr[24], fe_sub(curr[24], 1u64))] + Seq::new(
        24,
        |j: int| fe_mul(fe_sub(1u64, curr[24]), curr[j]),
    )
}

impl Stark for CompressionStark {
    open spec fn spec_num_columns(&self) -> int {
        25
    }

    open spec fn spec_num_public_inputs(&self) -> int {
        0
    }

    open spec fn spec_constraints(&self, curr: Seq<u64>, next: Seq<u64>, last: bool, pis: Seq<u64>) -> Seq<
        u64,
    > {
        spec_hash_row_constraints(curr)
    }

    open spec fn spec_num_permutation_batches(&self, config: StarkConfig) -> int {
        0
    }

    open spec fn spec_permutation_batch_size(&self) -> int {
        1
    }

    fn num_columns(&self) -> (n: usize) {
        25
    }

    fn num_public_inputs(&self) -> (n: usize) {
        0
    }

    fn eval_transition(&self, curr: &Vec<u64>, next: &Vec<u64>, last: bool, public_inputs: &Vec<
        u64,
    >) -> (res: Vec<u64>) {
        let ghost target = spec_hash_row_constraints(curr@);
        let mut res: Vec<u64> = Vec::new();
        let x = curr[24];
        res.push(mul_fe(x, sub_fe(x, 1)));
        let off = sub_fe(1, x);
        let mut j: usize = 0;
        while j < 24
            invariant
                j <= 24,
                curr@.len() == 25,
                crate::field::all_fe(curr@),
                off == fe_sub(1u64, curr@[24]),
                target == spec_hash_row_constraints(curr@),
                res@ == target.take(1 + j as int),
            decreases 24 - j,
        {
            res.push(mul_fe(off, curr[j]));
            assert(res@ =~= target.take(1 + j as int + 1));
            j = j + 1;
        }
        assert(res@ =~= target);
        res
    }

    fn num_permutation_batches(&self, config: &StarkConfig) -> (n: usize) {
        0
    }

    fn permutation_batch_size(&self) -> (n: usize) {
        1
    }
}

} // verus!
