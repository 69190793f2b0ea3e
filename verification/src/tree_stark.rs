//! The depth-5 Merkle-tree table: column layout and trace generator.
//!
//! The generator is a sequential micro-state-machine. Each step consumes
//! the two leftmost working values, compresses them, records the
//! compression's domain-separated inputs and output in the current row,
//! and produces the next row's working values: within a level the working
//! values shift left by two and the output lands at the right edge; at the
//! end of a level the surviving outputs are compacted back to the left
//! ("unspread") and the final output appended. Sixteen leaves take
//! 8 + 4 + 2 + 1 = 15 steps; the root lands in the first value columns of
//! row 15.

use vstd::prelude::*;

use crate::hashing::{compress, lemma_compress_bounded, spec_compress};
use crate::util::{spec_is_power_of_two, sub_vec, trace_rows_to_poly_values};

verus! {

/// Number of leaves of the tree.
pub const TREE_WIDTH: usize = 16;

/// 32-bit words per 256-bit hash value.
pub const WORDS_PER_HASH: usize = 8;

/// Levels of the tree, counting the leaf level.
pub const TREE_DEPTH: usize = 5;

/// Compression steps needed to assemble the tree.
pub const NUM_STEPS: usize = 15;

/// Fewest rows a trace can have: the 15 step rows plus the root row.
pub const MIN_ROWS: usize = 16;

/// Total columns of the table.
pub const NUM_COLS: usize = 162;

/// Public inputs: the eight root words.
pub const NUM_PUBLIC_INPUTS: usize = 8;

/// Column of word `word` of working value `i`.
pub open spec fn val_i_word(i: int, word: int) -> int {
    8 * i + word
}

/// Column of word `word` of the current compression's left input.
pub open spec fn hash_input_0_word(word: int) -> int {
    128 + word
}

/// Column of word `word` of the current compression's right input.
pub open spec fn hash_input_1_word(word: int) -> int {
    136 + word
}

/// Column of word `word` of the current compression's output.
pub open spec fn hash_output_word(word: int) -> int {
    144 + word
}

/// Program-counter column: the step index within the current level.
pub const PC: usize = 152;

/// Column holding half the current level's width.
pub const HALF_LEVEL_WIDTH: usize = 153;

/// Column holding the 1-indexed step number, used for domain separation.
pub const HASH_IDX: usize = 154;

/// Filter for the lookup of compression inputs.
pub const INPUT_FILTER: usize = 155;

/// Filter for the lookup of compression outputs.
pub const OUTPUT_FILTER: usize = 156;

/// Flag marking the last row of a level.
pub const LEVEL_DONE_FLAG: usize = 157;

/// Column of the one-hot flag for level `l` (levels 0 through 3).
pub open spec fn level_flag(l: int) -> int {
    158 + l
}

/// Index of public-input word `word` of the root.
pub open spec fn pi_root_word(word: int) -> int {
    word
}

/// Width of the tree at level `l`: 16 leaves at level 0, halving upward.
pub open spec fn level_width(l: int) -> int {
    if l <= 0 {
        16
    } else if l == 1 {
        8
    } else if l == 2 {
        4
    } else if l == 3 {
        2
    } else {
        1
    }
}

pub fn level_width_exec(l: usize) -> (w: usize)
    requires
        l <= 4,
    ensures
        w == level_width(l as int),
{
    if l == 0 {
        16
    } else if l == 1 {
        8
    } else if l == 2 {
        4
    } else if l == 3 {
        2
    } else {
        1
    }
}

/// The level being consumed at step `r`.
pub open spec fn level_of(r: int) -> int {
    if r < 8 {
        0
    } else if r < 12 {
        1
    } else if r < 14 {
        2
    } else {
        3
    }
}

/// First step of level `l`.
pub open spec fn level_start(l: int) -> int {
    if l <= 0 {
        0
    } else if l == 1 {
        8
    } else if l == 2 {
        12
    } else {
        14
    }
}

/// The step index within its level.
pub open spec fn level_idx_of(r: int) -> int {
    r - level_start(level_of(r))
}

/// How far right of target position `i` the `i`-th surviving output of a
/// level with `n` steps sits when the level ends: the outputs were
/// appended at the right edge and shifted left two places per later step,
/// so output `i` rests at working-value position `2*i + 19 - 2*n` and the
/// unspread step moves it left by this amount.
pub open spec fn end_shift_for_steps(i: int, n: int) -> int {
    i + 19 - 2 * n
}

/// The leaves are sixteen hash values of eight 32-bit words each.
pub open spec fn leaves_wf(leaves: Seq<Seq<u32>>) -> bool {
    leaves.len() == 16 && forall|i: int| 0 <= i < 16 ==> (#[trigger] leaves[i]).len() == 8
}

/// The working values before step `r`: 16 hash values (128 words), the
/// current level's values at the left.
pub open spec fn spec_vals(leaves: Seq<Seq<u32>>, r: int) -> Seq<u64>
    decreases r,
{
    if r <= 0 {
        Seq::new(128, |j: int| leaves[j / 8][j % 8] as u64)
    } else {
        let prev = spec_vals(leaves, r - 1);
        spec_step_vals(prev, spec_out(prev), level_width(level_of(r - 1) + 1), level_idx_of(r - 1))
    }
}

/// The compression output of a step, from the two leftmost working values.
pub open spec fn spec_out(vals: Seq<u64>) -> Seq<u64> {
    spec_compress(vals.take(8), vals.subrange(8, 16))
}

/// The next step's working values: a level with `n` steps either shifts
/// left by two values and appends the output at the right edge, or, on its
/// last step, compacts the level's outputs to the left and appends the
/// final output.
pub open spec fn spec_step_vals(vals: Seq<u64>, out: Seq<u64>, n: int, level_idx: int) -> Seq<u64> {
    if level_idx == n - 1 {
        Seq::new(128, |j: int|
            if j < 8 * (n - 1) {
                vals[8 * ((j / 8) + end_shift_for_steps(j / 8, n)) + (j % 8)]
            } else if j < 8 * n {
                out[j - 8 * (n - 1)]
            } else {
                0u64
            })
    } else {
        Seq::new(128, |j: int|
            if j < 112 {
                vals[j + 16]
            } else if j < 120 {
                0u64
            } else {
                out[j - 120]
            })
    }
}

/// A domain-separated word: the 1-indexed step number is added in the
/// 2^32 place, keeping words of different steps distinct in lookups.
pub open spec fn with_idx(x: u64, r: int) -> u64 {
    (x + (r + 1) * 0x1_0000_0000) as u64
}

/// The ten bookkeeping columns of a step row: program counter, half level
/// width, hash index, the two lookup filters, the level-done flag, and the
/// four one-hot level flags.
pub open spec fn spec_misc(idx: int, level_idx: int, level: int, max_rows: int) -> Seq<u64> {
    let hlw = level_width(level) / 2;
    let filt: u64 = if idx < max_rows - 1 {
        1u64
    } else {
        0u64
    };
    let ldf: u64 = if level_idx == hlw - 1 {
        1u64
    } else {
        0u64
    };
    seq![
        level_idx as u64,
        hlw as u64,
        (idx + 1) as u64,
        filt,
        filt,
        ldf,
        if level == 0 { 1u64 } else { 0u64 },
        if level == 1 { 1u64 } else { 0u64 },
        if level == 2 { 1u64 } else { 0u64 },
        if level == 3 { 1u64 } else { 0u64 },
    ]
}

/// A step row: the working values, the domain-separated compression
/// inputs and output, then the bookkeeping columns.
pub open spec fn spec_stepped_row(leaves: Seq<Seq<u32>>, r: int, max_rows: int) -> Seq<u64> {
    let vals = spec_vals(leaves, r);
    let out = spec_out(vals);
    vals + Seq::new(8, |w: int| with_idx(vals[w], r)) + Seq::new(8, |w: int| with_idx(vals[8 + w], r))
        + Seq::new(8, |w: int| with_idx(out[w], r)) + spec_misc(
        r,
        level_idx_of(r),
        level_of(r),
        max_rows,
    )
}

/// The all-zero row.
pub open spec fn spec_zero_row() -> Seq<u64> {
    Seq::new(162, |j: int| 0u64)
}

/// The root row: the final working values (the root in the first eight
/// words) and zeroed bookkeeping columns.
pub open spec fn spec_root_row(leaves: Seq<Seq<u32>>) -> Seq<u64> {
    spec_vals(leaves, 15) + Seq::new(34, |j: int| 0u64)
}

/// Row `r` of the generated trace.
pub open spec fn spec_trace_row(leaves: Seq<Seq<u32>>, r: int, max_rows: int) -> Seq<u64> {
    if r < 15 {
        spec_stepped_row(leaves, r, max_rows)
    } else if r == 15 {
        spec_root_row(leaves)
    } else {
        spec_zero_row()
    }
}

/// The eight root words.
pub open spec fn spec_root(leaves: Seq<Seq<u32>>) -> Seq<u64> {
    spec_vals(leaves, 15).take(8)
}

/// Working values are 32-bit words at every step.
pub proof fn lemma_vals_bounded(leaves: Seq<Seq<u32>>, r: int)
    requires
        leaves_wf(leaves),
        r >= 0,
    ensures
        spec_vals(leaves, r).len() == 128,
        forall|j: int| 0 <= j < 128 ==> (#[trigger] spec_vals(leaves, r)[j]) < 0x1_0000_0000,
    decreases r,
{
    if r <= 0 {
        assert forall|j: int| 0 <= j < 128 implies (#[trigger] spec_vals(leaves, r)[j])
            < 0x1_0000_0000 by {
            assert(0 <= j / 8 < 16);
            assert(0 <= j % 8 < 8);
        }
    } else {
        lemma_vals_bounded(leaves, r - 1);
        let prev = spec_vals(leaves, r - 1);
        lemma_compress_bounded(prev.take(8), prev.subrange(8, 16));
        let n = level_width(level_of(r - 1) + 1);
        assert(1 <= n <= 8);
    }
}

/// One 2-to-1 compression performed by the generator, for the
/// side-channel hash trace: the two inputs and the output, each eight
/// 32-bit words.
pub struct CompressionInstance {
    pub left: Vec<u64>,
    pub right: Vec<u64>,
    pub output: Vec<u64>,
}

/// The compression instance performed at step `r`.
pub open spec fn spec_instance_at(leaves: Seq<Seq<u32>>, r: int) -> (Seq<u64>, Seq<u64>, Seq<u64>) {
    let vals = spec_vals(leaves, r);
    (vals.take(8), vals.subrange(8, 16), spec_out(vals))
}

impl CompressionInstance {
    pub open spec fn matches(self, t: (Seq<u64>, Seq<u64>, Seq<u64>)) -> bool {
        self.left@ == t.0 && self.right@ == t.1 && self.output@ == t.2
    }
}

/// The zero-initialised trace matrix.
pub struct TreeTrace(pub Vec<Vec<u64>>);

impl TreeTrace {
    /// Allocate an all-zero trace of `max_rows` rows. The row budget must
    /// be a power of two; the caller sizes it before generation begins.
    pub fn new(max_rows: usize) -> (t: TreeTrace)
        requires
            spec_is_power_of_two(max_rows as int),
        ensures
            t.0@.len() == max_rows,
            forall|r: int| 0 <= r < max_rows ==> (#[trigger] t.0@[r])@ == spec_zero_row(),
    {
        let mut rows: Vec<Vec<u64>> = Vec::new();
        let mut r: usize = 0;
        while r < max_rows
            invariant
                r <= max_rows,
                rows@.len() == r,
                forall|k: int| 0 <= k < r ==> (#[trigger] rows@[k])@ == spec_zero_row(),
            decreases max_rows - r,
        {
            let mut row: Vec<u64> = Vec::new();
            let mut j: usize = 0;
            while j < NUM_COLS
                invariant
                    j <= 162,
                    row@.len() == j,
                    forall|k: int| 0 <= k < j ==> (#[trigger] row@[k]) == 0u64,
                decreases 162 - j,
            {
                row.push(0u64);
                j = j + 1;
            }
            assert(row@ =~= spec_zero_row());
            rows.push(row);
            r = r + 1;
        }
        TreeTrace(rows)
    }
}

/// The trace generator for the depth-5 tree table.
pub struct Tree5TraceGenerator {
    pub trace: TreeTrace,
    pub leaves: Vec<Vec<u32>>,
    pub idx: usize,
    pub level: usize,
    pub level_idx: usize,
}

impl Tree5TraceGenerator {
    /// A fresh generator: row budget allocated, nothing generated yet.
    pub open spec fn fresh(self) -> bool {
        &&& self.idx == 0
        &&& self.level == 0
        &&& self.level_idx == 0
        &&& self.trace.0@.len() >= 16
        &&& forall|r: int|
            0 <= r < self.trace.0@.len() ==> (#[trigger] self.trace.0@[r])@ == spec_zero_row()
        &&& leaves_wf(self.leaves.deep_view())
    }

    /// The trace rows are exactly the generated trace for these leaves.
    pub open spec fn generated(self, max_rows: int) -> bool {
        &&& self.trace.0@.len() == max_rows
        &&& forall|r: int|
            0 <= r < max_rows ==> (#[trigger] self.trace.0@[r])@ == spec_trace_row(
                self.leaves.deep_view(),
                r,
                max_rows,
            )
    }

    pub fn new(max_rows: usize, leaves: Vec<Vec<u32>>) -> (g: Tree5TraceGenerator)
        requires
            spec_is_power_of_two(max_rows as int),
            max_rows >= 16,
            leaves_wf(leaves.deep_view()),
        ensures
            g.fresh(),
            g.leaves == leaves,
            g.trace.0@.len() == max_rows,
    {
        Tree5TraceGenerator { trace: TreeTrace::new(max_rows), leaves, idx: 0, level: 0, level_idx: 0 }
    }

    pub fn max_rows(&self) -> (n: usize)
        ensures
            n == self.trace.0@.len(),
    {
        self.trace.0.len()
    }

    /// Hand out the current step's position and advance the bookkeeping:
    /// the step index always advances; the level index wraps (and the
    /// level advances) after the current level's last step.
    fn get_next_window(&mut self) -> (w: (usize, usize, usize))
        requires
            old(self).idx < 15,
            old(self).idx < old(self).trace.0@.len(),
            old(self).level <= 3,
            old(self).level_idx <= 8,
        ensures
            w == (old(self).idx, old(self).level_idx, old(self).level),
            final(self).idx == old(self).idx + 1,
            final(self).trace == old(self).trace,
            final(self).leaves == old(self).leaves,
            old(self).level_idx + 1 == level_width(old(self).level as int + 1)
                ==> final(self).level_idx == 0 && final(self).level == old(self).level + 1,
            old(self).level_idx + 1 != level_width(old(self).level as int + 1)
                ==> final(self).level_idx == old(self).level_idx + 1
                && final(self).level == old(self).level,
    {
        let idx = self.idx;
        let level = self.level;
        let level_idx = self.level_idx;
        self.idx = self.idx + 1;
        self.level_idx = self.level_idx + 1;
        if self.level_idx == level_width_exec(level + 1) {
            self.level_idx = 0;
            self.level = self.level + 1;
        }
        (idx, level_idx, level)
    }

    /// Write the bookkeeping columns of the current row: program counter,
    /// half level width, 1-indexed hash index, the lookup filters (off on
    /// the last row so padding rows never join a lookup), the level-done
    /// flag, and the one-hot level flags.
    fn gen_misc(row: &mut Vec<u64>, idx: usize, level_idx: usize, level: usize, max_rows: usize)
        requires
            level <= 3,
            level_idx <= 8,
            idx < 15,
            max_rows >= 16,
        ensures
            final(row)@ == old(row)@ + spec_misc(idx as int, level_idx as int, level as int, max_rows as int),
    {
        let hlw = level_width_exec(level) / 2;
        row.push(level_idx as u64);
        row.push(hlw as u64);
        row.push(idx as u64 + 1);
        if idx < max_rows - 1 {
            row.push(1u64);
            row.push(1u64);
        } else {
            row.push(0u64);
            row.push(0u64);
        }
        if level_idx == hlw - 1 {
            row.push(1u64);
        } else {
            row.push(0u64);
        }
        if level == 0 {
            row.push(1u64);
        } else {
            row.push(0u64);
        }
        if level == 1 {
            row.push(1u64);
        } else {
            row.push(0u64);
        }
        if level == 2 {
            row.push(1u64);
        } else {
            row.push(0u64);
        }
        if level == 3 {
            row.push(1u64);
        } else {
            row.push(0u64);
        }
        assert(row@ =~= old(row)@ + spec_misc(
            idx as int,
            level_idx as int,
            level as int,
            max_rows as int,
        ));
    }

    /// Compute the next step's working values from the current ones and
    /// the step's compression output.
    fn next_vals(vals: &Vec<u64>, out: &Vec<u64>, n: usize, level_idx: usize) -> (nv: Vec<u64>)
        requires
            vals@.len() == 128,
            out@.len() == 8,
            1 <= n <= 8,
            level_idx < n,
        ensures
            nv@ == spec_step_vals(vals@, out@, n as int, level_idx as int),
    {
        let ghost target = spec_step_vals(vals@, out@, n as int, level_idx as int);
        let mut nv: Vec<u64> = Vec::new();
        let mut j: usize = 0;
        if level_idx == n - 1 {
            while j < 128
                invariant
                    j <= 128,
                    vals@.len() == 128,
                    out@.len() == 8,
                    1 <= n <= 8,
                    level_idx == n - 1,
                    target == spec_step_vals(vals@, out@, n as int, level_idx as int),
                    nv@ == target.take(j as int),
                decreases 128 - j,
            {
                if j < 8 * (n - 1) {
                    let b: usize = j / 8;
                    let w: usize = j % 8;
                    let src: usize = 8 * (2 * b + 19 - 2 * n) + w;
                    nv.push(vals[src]);
                } else if j < 8 * n {
                    nv.push(out[j - 8 * (n - 1)]);
                } else {
                    nv.push(0u64);
                }
                assert(nv@ =~= target.take(j as int + 1));
                j = j + 1;
            }
        } else {
            while j < 128
                invariant
                    j <= 128,
                    vals@.len() == 128,
                    out@.len() == 8,
                    1 <= n <= 8,
                    level_idx < n - 1,
                    target == spec_step_vals(vals@, out@, n as int, level_idx as int),
                    nv@ == target.take(j as int),
                decreases 128 - j,
            {
                if j < 112 {
                    nv.push(vals[j + 16]);
                } else if j < 120 {
                    nv.push(0u64);
                } else {
                    nv.push(out[j - 120]);
                }
                assert(nv@ =~= target.take(j as int + 1));
                j = j + 1;
            }
        }
        assert(nv@ =~= target);
        nv
    }

    /// The shared stepping routine behind `gen` and `gen_with_hash_trace`:
    /// run the fifteen compression steps, write each step row and the
    /// root row, and (when asked) record every compression performed.
    fn gen_inner(&mut self, emit_hash_trace: bool) -> (r: (Vec<u32>, Vec<u64>, Option<
        Vec<CompressionInstance>,
    >))
        requires
            old(self).fresh(),
        ensures
            final(self).generated(old(self).trace.0@.len() as int),
            final(self).leaves == old(self).leaves,
            r.0@.len() == 8,
            r.0@.map_values(|x: u32| x as u64) == spec_root(old(self).leaves.deep_view()),
            r.1@ == spec_root(old(self).leaves.deep_view()),
            emit_hash_trace ==> r.2 is Some && r.2->0@.len() == 15 && forall|k: int|
                0 <= k < 15 ==> (#[trigger] r.2->0@[k]).matches(
                    spec_instance_at(old(self).leaves.deep_view(), k),
                ),
            !emit_hash_trace ==> r.2 is None,
    {
        let ghost lv = self.leaves.deep_view();
        let max_rows = self.max_rows();
        let ghost mr = max_rows as int;
        let mut vals: Vec<u64> = Vec::new();
        let mut j: usize = 0;
        while j < 128
            invariant
                j <= 128,
                leaves_wf(self.leaves.deep_view()),
                lv == self.leaves.deep_view(),
                vals@.len() == j,
                forall|k: int| 0 <= k < j ==> (#[trigger] vals@[k]) == spec_vals(lv, 0)[k],
            decreases 128 - j,
        {
            let b: usize = j / 8;
            let w: usize = j % 8;
            proof {
                assert(lv.len() == self.leaves@.len());
                assert(lv[b as int] == self.leaves@[b as int]@);
            }
            vals.push(self.leaves[b][w] as u64);
            j = j + 1;
        }
        proof {
            lemma_vals_bounded(lv, 0);
        }
        assert(vals@ =~= spec_vals(lv, 0));
        let mut instances: Vec<CompressionInstance> = Vec::new();
        let mut r: usize = 0;
        while r < 15
            invariant
                r <= 15,
                self.leaves == old(self).leaves,
                self.trace.0@.len() == max_rows,
                max_rows >= 16,
                mr == max_rows as int,
                leaves_wf(lv),
                lv == self.leaves.deep_view(),
                self.idx == r,
                r < 15 ==> self.level == level_of(r as int) && self.level_idx == level_idx_of(
                    r as int,
                ),
                r == 15 ==> self.level == 4 && self.level_idx == 0,
                vals@ == spec_vals(lv, r as int),
                forall|k: int|
                    0 <= k < r ==> (#[trigger] self.trace.0@[k])@ == spec_stepped_row(lv, k, mr),
                forall|k: int|
                    r <= k < max_rows ==> (#[trigger] self.trace.0@[k])@ == spec_zero_row(),
                emit_hash_trace ==> instances@.len() == r && forall|k: int|
                    0 <= k < r ==> (#[trigger] instances@[k]).matches(spec_instance_at(lv, k)),
                !emit_hash_trace ==> instances@.len() == 0,
            decreases 15 - r,
        {
            proof {
                lemma_vals_bounded(lv, r as int);
            }
            let (idx, level_idx, level) = self.get_next_window();
            let left = sub_vec(&vals, 0, 8);
            let right = sub_vec(&vals, 8, 16);
            let out = compress(&left, &right);
            assert(out@ == spec_out(vals@));
            let mut row: Vec<u64> = Vec::new();
            let mut j: usize = 0;
            while j < 128
                invariant
                    j <= 128,
                    vals@.len() == 128,
                    row@ == vals@.take(j as int),
                decreases 128 - j,
            {
                row.push(vals[j]);
                assert(row@ =~= vals@.take(j as int + 1));
                j = j + 1;
            }
            assert(row@ =~= vals@);
            let offset: u64 = (idx as u64 + 1) * 0x1_0000_0000;
            let ghost in0 = Seq::new(8, |w: int| with_idx(vals@[w], r as int));
            let ghost in1 = Seq::new(8, |w: int| with_idx(vals@[8 + w], r as int));
            let ghost outt = Seq::new(8, |w: int| with_idx(spec_out(vals@)[w], r as int));
            let mut w: usize = 0;
            while w < 8
                invariant
                    w <= 8,
                    r < 15,
                    idx == r,
                    offset == (idx as u64 + 1) * 0x1_0000_0000,
                    vals@.len() == 128,
                    forall|k: int| 0 <= k < 128 ==> (#[trigger] vals@[k]) < 0x1_0000_0000,
                    in0 == Seq::new(8, |w: int| with_idx(vals@[w], r as int)),
                    row@ == vals@ + in0.take(w as int),
                decreases 8 - w,
            {
                row.push(vals[w] + offset);
                assert(row@ =~= vals@ + in0.take(w as int + 1));
                w = w + 1;
            }
            let mut w: usize = 0;
            while w < 8
                invariant
                    w <= 8,
                    r < 15,
                    idx == r,
                    offset == (idx as u64 + 1) * 0x1_0000_0000,
                    vals@.len() == 128,
                    forall|k: int| 0 <= k < 128 ==> (#[trigger] vals@[k]) < 0x1_0000_0000,
                    in1 == Seq::new(8, |w: int| with_idx(vals@[8 + w], r as int)),
                    row@ == vals@ + in0 + in1.take(w as int),
                decreases 8 - w,
            {
                row.push(vals[8 + w] + offset);
                assert(row@ =~= vals@ + in0 + in1.take(w as int + 1));
                w = w + 1;
            }
            let mut w: usize = 0;
            while w < 8
                invariant
                    w <= 8,
                    r < 15,
                    idx == r,
                    offset == (idx as u64 + 1) * 0x1_0000_0000,
                    out@.len() == 8,
                    out@ == spec_out(vals@),
                    forall|k: int| 0 <= k < 8 ==> (#[trigger] out@[k]) < 0x1_0000_0000,
                    outt == Seq::new(8, |w: int| with_idx(spec_out(vals@)[w], r as int)),
                    row@ == vals@ + in0 + in1 + outt.take(w as int),
                decreases 8 - w,
            {
                row.push(out[w] + offset);
                assert(row@ =~= vals@ + in0 + in1 + outt.take(w as int + 1));
                w = w + 1;
            }
            Self::gen_misc(&mut row, idx, level_idx, level, max_rows);
            assert(row@ =~= spec_stepped_row(lv, r as int, mr));
            let row_index: usize = idx;
            self.trace.0[row_index] = row;
            let n = level_width_exec(level + 1);
            let new_vals = Self::next_vals(&vals, &out, n, level_idx);
            assert(new_vals@ == spec_vals(lv, r as int + 1));
            if emit_hash_trace {
                instances.push(CompressionInstance { left, right, output: out });
            }
            vals = new_vals;
            r = r + 1;
        }
        proof {
            lemma_vals_bounded(lv, 15);
        }
        let mut row: Vec<u64> = Vec::new();
        let mut j: usize = 0;
        while j < 128
            invariant
                j <= 128,
                vals@.len() == 128,
                row@ == vals@.take(j as int),
            decreases 128 - j,
        {
            row.push(vals[j]);
            assert(row@ =~= vals@.take(j as int + 1));
            j = j + 1;
        }
        let mut j: usize = 0;
        while j < 34
            invariant
                j <= 34,
                vals@.len() == 128,
                row@.len() == 128 + j,
                row@.take(128) == vals@,
                forall|k: int| 128 <= k < 128 + j ==> (#[trigger] row@[k]) == 0u64,
            decreases 34 - j,
        {
            row.push(0u64);
            assert(row@.take(128) =~= vals@);
            j = j + 1;
        }
        assert(row@ =~= spec_root_row(lv));
        let root_index: usize = 15;
        self.trace.0[root_index] = row;
        let mut root: Vec<u32> = Vec::new();
        let mut w: usize = 0;
        while w < 8
            invariant
                w <= 8,
                vals@.len() == 128,
                vals@ == spec_vals(lv, 15),
                forall|k: int| 0 <= k < 128 ==> (#[trigger] vals@[k]) < 0x1_0000_0000,
                root@.len() == w,
                forall|k: int| 0 <= k < w ==> (#[trigger] root@[k]) as u64 == vals@[k],
            decreases 8 - w,
        {
            root.push(vals[w] as u32);
            w = w + 1;
        }
        assert(root@.map_values(|x: u32| x as u64) =~= spec_root(lv));
        let pis = Self::get_pis(&root);
        assert(pis@ =~= spec_root(lv));
        let trace_result = if emit_hash_trace {
            Some(instances)
        } else {
            None
        };
        (root, pis, trace_result)
    }

    /// Assemble the tree: the root (as 32-bit words) and the public-input
    /// vector, with the full trace left in the generator.
    pub fn gen(&mut self) -> (r: (Vec<u32>, Vec<u64>))
        requires
            old(self).fresh(),
        ensures
            final(self).generated(old(self).trace.0@.len() as int),
            final(self).leaves == old(self).leaves,
            r.0@.len() == 8,
            r.0@.map_values(|x: u32| x as u64) == spec_root(old(self).leaves.deep_view()),
            r.1@ == spec_root(old(self).leaves.deep_view()),
    {
        let (root, pis, _ht) = self.gen_inner(false);
        (root, pis)
    }

    /// Assemble the tree and also hand back every compression performed,
    /// for the hash table's generator; built from the same stepping
    /// routine as `gen`, so the two can never diverge.
    pub fn gen_with_hash_trace(&mut self) -> (r: (Vec<u32>, Vec<u64>, Vec<CompressionInstance>))
        requires
            old(self).fresh(),
        ensures
            final(self).generated(old(self).trace.0@.len() as int),
            final(self).leaves == old(self).leaves,
            r.0@.len() == 8,
            r.0@.map_values(|x: u32| x as u64) == spec_root(old(self).leaves.deep_view()),
            r.1@ == spec_root(old(self).leaves.deep_view()),
            r.2@.len() == 15,
            forall|k: int|
                0 <= k < 15 ==> (#[trigger] r.2@[k]).matches(
                    spec_instance_at(old(self).leaves.deep_view(), k),
                ),
    {
        let (root, pis, ht) = self.gen_inner(true);
        match ht {
            Some(instances) => (root, pis, instances),
            None => {
                proof {
                    assert(false);
                }
                (root, pis, Vec::new())
            },
        }
    }

    /// The public-input vector: the root words, widened to field elements.
    fn get_pis(root: &Vec<u32>) -> (pis: Vec<u64>)
        requires
            root@.len() == 8,
        ensures
            pis@ == root@.map_values(|x: u32| x as u64),
    {
        let mut pis: Vec<u64> = Vec::new();
        let mut w: usize = 0;
        while w < 8
            invariant
                w <= 8,
                root@.len() == 8,
                pis@.len() == w,
                forall|k: int| 0 <= k < w ==> (#[trigger] pis@[k]) == root@[k] as u64,
            decreases 8 - w,
        {
            pis.push(root[w] as u64);
            w = w + 1;
        }
        assert(pis@ =~= root@.map_values(|x: u32| x as u64));
        pis
    }

    /// Convert the generated trace to the column-major representation the
    /// commitment layer expects.
    pub fn into_polynomial_values(self) -> (cols: Vec<Vec<u64>>)
        requires
            forall|r: int| 0 <= r < self.trace.0@.len() ==> (#[trigger] self.trace.0@[r])@.len() == 162,
        ensures
            cols@.len() == 162,
            forall|c: int| 0 <= c < 162 ==> (#[trigger] cols@[c])@.len() == self.trace.0@.len(),
            forall|c: int, r: int|
                0 <= c < 162 && 0 <= r < self.trace.0@.len() ==> (#[trigger] cols@[c]@[r])
                    == self.trace.0@[r]@[c],
    {
        trace_rows_to_poly_values(&self.trace.0, NUM_COLS)
    }
}

/// One boolean-ness residual: zero exactly when the value is 0 or 1.
pub open spec fn spec_bool_res(x: u64) -> u64 {
    crate::field::fe_mul(x, crate::field::fe_sub(x, 1u64))
}

/// One input-binding residual: when the input filter is on, the
/// domain-separated lookup input word (column `128 + w`) must equal the
/// corresponding working value plus the hash index in the 2^32 place.
pub open spec fn spec_input_res(row: Seq<u64>, w: int) -> u64 {
    crate::field::fe_mul(
        row[155],
        crate::field::fe_sub(
            row[128 + w],
            crate::field::fe_add(row[w], crate::field::fe_mul(row[154], 0x1_0000_0000u64)),
        ),
    )
}

/// The complement of the input filter: 1 on the root row and padding
/// rows, 0 on step rows.
pub open spec fn spec_off(curr: Seq<u64>) -> u64 {
    crate::field::fe_sub(1u64, curr[155])
}

/// Word `w` of the current row's compression output, with the domain
/// separation removed.
pub open spec fn spec_out_word(curr: Seq<u64>, w: int) -> u64 {
    crate::field::fe_sub(curr[144 + w], crate::field::fe_mul(curr[154], 0x1_0000_0000u64))
}

/// The single-row residuals: booleanity of the filters and flags, the two
/// filters equal, the one-hot flag sum equal to the filter, the half
/// level width determined by the flags, the level-done flag consistent
/// with the program counter, the bookkeeping and lookup columns zero on
/// unfiltered rows, and the sixteen lookup input words bound to the two
/// working values being compressed.
pub open spec fn spec_tree_row_constraints(curr: Seq<u64>) -> Seq<u64> {
    Seq::new(7, |j: int| spec_bool_res(curr[155 + j])) + seq![
        crate::field::fe_sub(curr[155], curr[156]),
        crate::field::fe_sub(
            crate::field::fe_add(
                crate::field::fe_add(curr[158], curr[159]),
                crate::field::fe_add(curr[160], curr[161]),
            ),
            curr[155],
        ),
        crate::field::fe_sub(
            curr[153],
            crate::field::fe_add(
                crate::field::fe_add(
                    crate::field::fe_mul(8u64, curr[158]),
                    crate::field::fe_mul(4u64, curr[159]),
                ),
                crate::field::fe_add(crate::field::fe_mul(2u64, curr[160]), curr[161]),
            ),
        ),
        crate::field::fe_mul(
            curr[157],
            crate::field::fe_sub(crate::field::fe_add(curr[152], 1u64), curr[153]),
        ),
        crate::field::fe_mul(spec_off(curr), curr[152]),
        crate::field::fe_mul(spec_off(curr), curr[154]),
    ] + Seq::new(16, |w: int| spec_input_res(curr, w)) + Seq::new(
        24,
        |w: int| crate::field::fe_mul(spec_off(curr), curr[128 + w]),
    )
}

/// The shift step's residual at working-value word `j`: values move left
/// by two hash values, the gap is zeroed, and the output lands at the
/// right edge.
pub open spec fn spec_shift_diff(curr: Seq<u64>, next: Seq<u64>, j: int) -> u64 {
    if j < 112 {
        crate::field::fe_sub(next[j], curr[j + 16])
    } else if j < 120 {
        next[j]
    } else {
        crate::field::fe_sub(next[j], spec_out_word(curr, j - 120))
    }
}

/// The unspread step's residual at word `j`, for a level with `n` steps:
/// the level's outputs compact to the left, the new output follows, the
/// rest is zeroed.
pub open spec fn spec_unspread_diff(curr: Seq<u64>, next: Seq<u64>, n: int, j: int) -> u64 {
    if j < 8 * (n - 1) {
        crate::field::fe_sub(next[j], curr[8 * (2 * (j / 8) + 19 - 2 * n) + (j % 8)])
    } else if j < 8 * n {
        crate::field::fe_sub(next[j], spec_out_word(curr, j - 8 * (n - 1)))
    } else {
        next[j]
    }
}

/// The last step's residual at column `j` of the whole next row: the root
/// lands in the first hash value and everything else is zero.
pub open spec fn spec_root_diff(curr: Seq<u64>, next: Seq<u64>, j: int) -> u64 {
    if j < 8 {
        crate::field::fe_sub(next[j], spec_out_word(curr, j))
    } else {
        next[j]
    }
}

/// The transition residuals between two adjacent rows. Selectors: the
/// shift family is live on step rows that do not end a level; the four
/// unspread families on level-ending rows, one per level via the one-hot
/// flags; the program counter increments within a level and resets after
/// it; on the last level's step the next row is the root row, whose first
/// hash value must also equal the public inputs; and every row after an
/// unfiltered row is all-zero padding.
pub open spec fn spec_tree_transition_constraints(
    curr: Seq<u64>,
    next: Seq<u64>,
    pis: Seq<u64>,
) -> Seq<u64> {
    let g_shift = crate::field::fe_mul(curr[155], crate::field::fe_sub(1u64, curr[157]));
    let g_done = crate::field::fe_mul(curr[155], curr[157]);
    Seq::new(128, |j: int| crate::field::fe_mul(g_shift, spec_shift_diff(curr, next, j))) + Seq::new(
        128,
        |j: int| crate::field::fe_mul(
            crate::field::fe_mul(g_done, curr[158]),
            spec_unspread_diff(curr, next, 8, j),
        ),
    ) + Seq::new(
        128,
        |j: int| crate::field::fe_mul(
            crate::field::fe_mul(g_done, curr[159]),
            spec_unspread_diff(curr, next, 4, j),
        ),
    ) + Seq::new(
        128,
        |j: int| crate::field::fe_mul(
            crate::field::fe_mul(g_done, curr[160]),
            spec_unspread_diff(curr, next, 2, j),
        ),
    ) + Seq::new(
        162,
        |j: int| crate::field::fe_mul(
            crate::field::fe_mul(g_done, curr[161]),
            spec_root_diff(curr, next, j),
        ),
    ) + Seq::new(
        8,
        |w: int| crate::field::fe_mul(
            crate::field::fe_mul(g_done, curr[161]),
            crate::field::fe_sub(next[w], pis[w]),
        ),
    ) + seq![
        crate::field::fe_mul(
            g_shift,
            crate::field::fe_sub(next[152], crate::field::fe_add(curr[152], 1u64)),
        ),
        crate::field::fe_mul(crate::field::fe_mul(g_done, next[155]), next[152]),
    ] + Seq::new(162, |j: int| crate::field::fe_mul(spec_off(curr), next[j]))
}

fn out_word(curr: &Vec<u64>, w: usize) -> (d: u64)
    requires
        curr@.len() == 162,
        crate::field::all_fe(curr@),
        w < 8,
    ensures
        d == spec_out_word(curr@, w as int),
{
    crate::field::sub_fe(curr[144 + w], crate::field::mul_fe(curr[154], 0x1_0000_0000u64))
}

fn unspread_diff(curr: &Vec<u64>, next: &Vec<u64>, n: usize, j: usize) -> (d: u64)
    requires
        curr@.len() == 162,
        next@.len() == 162,
        crate::field::all_fe(curr@),
        crate::field::all_fe(next@),
        2 <= n <= 8,
        j < 128,
    ensures
        d == spec_unspread_diff(curr@, next@, n as int, j as int),
{
    if j < 8 * (n - 1) {
        let b: usize = j / 8;
        let w: usize = j % 8;
        crate::field::sub_fe(next[j], curr[8 * (2 * b + 19 - 2 * n) + w])
    } else if j < 8 * n {
        crate::field::sub_fe(next[j], out_word(curr, j - 8 * (n - 1)))
    } else {
        next[j]
    }
}

/// The tree table's STARK: a complete constraint system over two-row
/// windows. Together with the two lookups, every committed cell is read:
/// the lookup columns and filters enter the lookups; the working values
/// are bound by the shift and unspread transitions (their first row by
/// the input bindings and the first shift); the bookkeeping columns by
/// the flag-sum, half-width, program-counter and level-done relations;
/// the root row by the last unspread and the public-input binding; and
/// padding rows by the zeroing rules.
#[derive(Clone, Copy, Debug)]
pub struct MerkleTree5STARK {}

impl crate::stark::Stark for MerkleTree5STARK {
    open spec fn spec_num_columns(&self) -> int {
        162
    }

    open spec fn spec_num_public_inputs(&self) -> int {
        8
    }

    open spec fn spec_constraints(&self, curr: Seq<u64>, next: Seq<u64>, last: bool, pis: Seq<u64>) -> Seq<
        u64,
    > {
        spec_tree_row_constraints(curr) + if last {
            Seq::<u64>::empty()
        } else {
            spec_tree_transition_constraints(curr, next, pis)
        }
    }

    open spec fn spec_num_permutation_batches(&self, config: crate::config::StarkConfig) -> int {
        0
    }

    open spec fn spec_permutation_batch_size(&self) -> int {
        1
    }

    fn num_columns(&self) -> (n: usize) {
        162
    }

    fn num_public_inputs(&self) -> (n: usize) {
        8
    }

    fn eval_transition(&self, curr: &Vec<u64>, next: &Vec<u64>, last: bool, public_inputs: &Vec<
        u64,
    >) -> (res: Vec<u64>) {
        let ghost rowt = spec_tree_row_constraints(curr@);
        let mut res: Vec<u64> = Vec::new();
        let mut j: usize = 0;
        while j < 7
            invariant
                j <= 7,
                curr@.len() == 162,
                crate::field::all_fe(curr@),
                rowt == spec_tree_row_constraints(curr@),
                res@ == rowt.take(j as int),
            decreases 7 - j,
        {
            let x = curr[155 + j];
            res.push(crate::field::mul_fe(x, crate::field::sub_fe(x, 1)));
            assert(res@ =~= rowt.take(j as int + 1));
            j = j + 1;
        }
        let off = crate::field::sub_fe(1, curr[155]);
        res.push(crate::field::sub_fe(curr[155], curr[156]));
        res.push(
            crate::field::sub_fe(
                crate::field::add_fe(
                    crate::field::add_fe(curr[158], curr[159]),
                    crate::field::add_fe(curr[160], curr[161]),
                ),
                curr[155],
            ),
        );
        res.push(
            crate::field::sub_fe(
                curr[153],
                crate::field::add_fe(
                    crate::field::add_fe(
                        crate::field::mul_fe(8, curr[158]),
                        crate::field::mul_fe(4, curr[159]),
                    ),
                    crate::field::add_fe(crate::field::mul_fe(2, curr[160]), curr[161]),
                ),
            ),
        );
        res.push(
            crate::field::mul_fe(
                curr[157],
                crate::field::sub_fe(crate::field::add_fe(curr[152], 1), curr[153]),
            ),
        );
        res.push(crate::field::mul_fe(off, curr[152]));
        res.push(crate::field::mul_fe(off, curr[154]));
        assert(res@ =~= rowt.take(13));
        let mut w: usize = 0;
        while w < 16
            invariant
                w <= 16,
                curr@.len() == 162,
                crate::field::all_fe(curr@),
                rowt == spec_tree_row_constraints(curr@),
                res@ == rowt.take(13 + w as int),
            decreases 16 - w,
        {
            let expected = crate::field::add_fe(
                curr[w],
                crate::field::mul_fe(curr[154], 0x1_0000_0000u64),
            );
            res.push(
                crate::field::mul_fe(curr[155], crate::field::sub_fe(curr[128 + w], expected)),
            );
            assert(res@ =~= rowt.take(13 + w as int + 1));
            w = w + 1;
        }
        let mut w: usize = 0;
        while w < 24
            invariant
                w <= 24,
                curr@.len() == 162,
                crate::field::all_fe(curr@),
                off == spec_off(curr@),
                rowt == spec_tree_row_constraints(curr@),
                res@ == rowt.take(29 + w as int),
            decreases 24 - w,
        {
            res.push(crate::field::mul_fe(off, curr[128 + w]));
            assert(res@ =~= rowt.take(29 + w as int + 1));
            w = w + 1;
        }
        assert(res@ =~= rowt);
        if last {
            assert(res@ =~= self.spec_constraints(curr@, next@, last, public_inputs@));
            return res;
        }
        let ghost trt = spec_tree_transition_constraints(curr@, next@, public_inputs@);
        let g_shift = crate::field::mul_fe(curr[155], crate::field::sub_fe(1, curr[157]));
        let g_done = crate::field::mul_fe(curr[155], curr[157]);
        let g_l0 = crate::field::mul_fe(g_done, curr[158]);
        let g_l1 = crate::field::mul_fe(g_done, curr[159]);
        let g_l2 = crate::field::mul_fe(g_done, curr[160]);
        let g_l3 = crate::field::mul_fe(g_done, curr[161]);
        let mut j: usize = 0;
        while j < 128
            invariant
                j <= 128,
                curr@.len() == 162,
                next@.len() == 162,
                crate::field::all_fe(curr@),
                crate::field::all_fe(next@),
                g_shift == crate::field::fe_mul(curr@[155], crate::field::fe_sub(1u64, curr@[157])),
                rowt == spec_tree_row_constraints(curr@),
                trt == spec_tree_transition_constraints(curr@, next@, public_inputs@),
                res@ == rowt + trt.take(j as int),
            decreases 128 - j,
        {
            let d: u64 = if j < 112 {
                crate::field::sub_fe(next[j], curr[j + 16])
            } else if j < 120 {
                next[j]
            } else {
                crate::field::sub_fe(next[j], out_word(curr, j - 120))
            };
            res.push(crate::field::mul_fe(g_shift, d));
            assert(res@ =~= rowt + trt.take(j as int + 1));
            j = j + 1;
        }
        let mut j: usize = 0;
        while j < 128
            invariant
                j <= 128,
                curr@.len() == 162,
                next@.len() == 162,
                crate::field::all_fe(curr@),
                crate::field::all_fe(next@),
                g_done == crate::field::fe_mul(curr@[155], curr@[157]),
                g_l0 == crate::field::fe_mul(g_done, curr@[158]),
                rowt == spec_tree_row_constraints(curr@),
                trt == spec_tree_transition_constraints(curr@, next@, public_inputs@),
                res@ == rowt + trt.take(128 + j as int),
            decreases 128 - j,
        {
            res.push(crate::field::mul_fe(g_l0, unspread_diff(curr, next, 8, j)));
            assert(res@ =~= rowt + trt.take(128 + j as int + 1));
            j = j + 1;
        }
        let mut j: usize = 0;
        while j < 128
            invariant
                j <= 128,
                curr@.len() == 162,
                next@.len() == 162,
                crate::field::all_fe(curr@),
                crate::field::all_fe(next@),
                g_done == crate::field::fe_mul(curr@[155], curr@[157]),
                g_l1 == crate::field::fe_mul(g_done, curr@[159]),
                rowt == spec_tree_row_constraints(curr@),
                trt == spec_tree_transition_constraints(curr@, next@, public_inputs@),
                res@ == rowt + trt.take(256 + j as int),
            decreases 128 - j,
        {
            res.push(crate::field::mul_fe(g_l1, unspread_diff(curr, next, 4, j)));
            assert(res@ =~= rowt + trt.take(256 + j as int + 1));
            j = j + 1;
        }
        let mut j: usize = 0;
        while j < 128
            invariant
                j <= 128,
                curr@.len() == 162,
                next@.len() == 162,
                crate::field::all_fe(curr@),
                crate::field::all_fe(next@),
                g_done == crate::field::fe_mul(curr@[155], curr@[157]),
                g_l2 == crate::field::fe_mul(g_done, curr@[160]),
                rowt == spec_tree_row_constraints(curr@),
                trt == spec_tree_transition_constraints(curr@, next@, public_inputs@),
                res@ == rowt + trt.take(384 + j as int),
            decreases 128 - j,
        {
            res.push(crate::field::mul_fe(g_l2, unspread_diff(curr, next, 2, j)));
            assert(res@ =~= rowt + trt.take(384 + j as int + 1));
            j = j + 1;
        }
        let mut j: usize = 0;
        while j < 162
            invariant
                j <= 162,
                curr@.len() == 162,
                next@.len() == 162,
                crate::field::all_fe(curr@),
                crate::field::all_fe(next@),
                g_done == crate::field::fe_mul(curr@[155], curr@[157]),
                g_l3 == crate::field::fe_mul(g_done, curr@[161]),
                rowt == spec_tree_row_constraints(curr@),
                trt == spec_tree_transition_constraints(curr@, next@, public_inputs@),
                res@ == rowt + trt.take(512 + j as int),
            decreases 162 - j,
        {
            let d: u64 = if j < 8 {
                crate::field::sub_fe(next[j], out_word(curr, j))
            } else {
                next[j]
            };
            res.push(crate::field::mul_fe(g_l3, d));
            assert(res@ =~= rowt + trt.take(512 + j as int + 1));
            j = j + 1;
        }
        let mut w: usize = 0;
        while w < 8
            invariant
                w <= 8,
                curr@.len() == 162,
                next@.len() == 162,
                public_inputs@.len() == 8,
                crate::field::all_fe(curr@),
                crate::field::all_fe(next@),
                crate::field::all_fe(public_inputs@),
                g_done == crate::field::fe_mul(curr@[155], curr@[157]),
                g_l3 == crate::field::fe_mul(g_done, curr@[161]),
                rowt == spec_tree_row_constraints(curr@),
                trt == spec_tree_transition_constraints(curr@, next@, public_inputs@),
                res@ == rowt + trt.take(674 + w as int),
            decreases 8 - w,
        {
            res.push(crate::field::mul_fe(g_l3, crate::field::sub_fe(next[w], public_inputs[w])));
            assert(res@ =~= rowt + trt.take(674 + w as int + 1));
            w = w + 1;
        }
        res.push(
            crate::field::mul_fe(
                g_shift,
                crate::field::sub_fe(next[152], crate::field::add_fe(curr[152], 1)),
            ),
        );
        res.push(crate::field::mul_fe(crate::field::mul_fe(g_done, next[155]), next[152]));
        assert(res@ =~= rowt + trt.take(684));
        let mut j: usize = 0;
        while j < 162
            invariant
                j <= 162,
                curr@.len() == 162,
                next@.len() == 162,
                crate::field::all_fe(curr@),
                crate::field::all_fe(next@),
                off == spec_off(curr@),
                rowt == spec_tree_row_constraints(curr@),
                trt == spec_tree_transition_constraints(curr@, next@, public_inputs@),
                res@ == rowt + trt.take(684 + j as int),
            decreases 162 - j,
        {
            res.push(crate::field::mul_fe(off, next[j]));
            assert(res@ =~= rowt + trt.take(684 + j as int + 1));
            j = j + 1;
        }
        assert(res@ =~= rowt + trt);
        assert(res@ =~= self.spec_constraints(curr@, next@, last, public_inputs@));
        res
    }

    fn num_permutation_batches(&self, config: &crate::config::StarkConfig) -> (n: usize) {
        0
    }

    fn permutation_batch_size(&self) -> (n: usize) {
        1
    }
}

/// Every generated row has the full column count.
pub proof fn lemma_trace_row_len(leaves: Seq<Seq<u32>>, r: int, max_rows: int)
    requires
        leaves_wf(leaves),
    ensures
        spec_trace_row(leaves, r, max_rows).len() == 162,
{
    if r < 15 {
        if r >= 0 {
            lemma_vals_bounded(leaves, r);
        } else {
            lemma_vals_bounded(leaves, 0);
            assert(spec_vals(leaves, r) =~= spec_vals(leaves, 0));
        }
    } else if r == 15 {
        lemma_vals_bounded(leaves, 15);
    }
}

} // verus!
