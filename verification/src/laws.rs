//! System-level laws, proved once and for all: completeness of the
//! pipeline, consistency of the two generators' lookup multisets,
//! determinism of trace generation, and the row-count invariant.

use vstd::prelude::*;

use crate::all_stark::{
    spec_challenges_of_commitments, spec_commitment, spec_fold_mul, spec_honest_proof,
    spec_prove_ok, spec_verify_ok,
};
use crate::hash_stark::CompressionStark;
use crate::stark::{window_satisfies, Stark};
use crate::tree_stark::{spec_bool_res, spec_input_res, spec_off, spec_out_word, spec_root_diff, spec_shift_diff, spec_tree_row_constraints, spec_tree_transition_constraints, spec_unspread_diff, MerkleTree5STARK};
use crate::config::StarkConfig;
use crate::ctl::{
    lemma_prod_terms_is_filtered, lemma_prod_tuples_concat, lemma_prod_tuples_multiset,
    spec_ctl_holds, spec_filtered, spec_looking_concat, spec_prod_terms, spec_prod_tuples,
    TableWithColumns,
};
use crate::ctl::{spec_filter_val, spec_row_tuple, ColumnRef};
use crate::hashing::{lemma_absorb_wf, lemma_compress_bounded};
use crate::hash_stark::{spec_hash_row_of, spec_hash_zero_row};
use crate::merkle_stark::{cols_are_single_range, is_ctl_hash, is_ctl_tree, twc_is};
use crate::hashing::spec_compress;
use crate::tree_stark::{
    leaves_wf, lemma_vals_bounded, level_idx_of, level_of, level_width, spec_misc, spec_out,
    spec_root, spec_root_row, spec_step_vals, spec_stepped_row, spec_trace_row, spec_vals,
    spec_zero_row, with_idx,
};
use crate::merkle_stark::Merkle5STARK;
use crate::proofs::AllProof;
use crate::transcript::CtlChallenge;
use crate::tree_stark::Tree5TraceGenerator;
use crate::util::spec_is_power_of_two;

verus! {

/// A trace's commitment is always a four-element digest.
pub proof fn lemma_commitment_len(rows: Seq<Seq<u64>>)
    ensures
        spec_commitment(rows).len() == 4,
{
    lemma_absorb_wf(
        crate::hashing::spec_initial_state(),
        crate::transcript::spec_flatten(rows),
    );
}

/// The product of per-side terminal values equals the product over the
/// union of the sides' filtered tuples.
proof fn lemma_fold_finals(
    ch: CtlChallenge,
    looking: Seq<TableWithColumns>,
    traces: Seq<Seq<Seq<u64>>>,
    finals: Seq<u64>,
)
    requires
        finals.len() == looking.len(),
        forall|j: int|
            0 <= j < looking.len() ==> (#[trigger] finals[j]) == spec_prod_terms(
                ch,
                looking[j],
                traces[looking[j].table as int],
            ),
    ensures
        spec_fold_mul(finals) == spec_prod_tuples(ch, spec_looking_concat(looking, traces)),
    decreases looking.len(),
{
    if looking.len() == 0 {
    } else {
        lemma_fold_finals(ch, looking.drop_last(), traces, finals.drop_last());
        let last_twc = looking.last();
        lemma_prod_terms_is_filtered(ch, last_twc, traces[last_twc.table as int]);
        lemma_prod_tuples_concat(
            ch,
            spec_looking_concat(looking.drop_last(), traces),
            spec_filtered(last_twc, traces[last_twc.table as int]),
        );
    }
}

/// Completeness: any well-formed workload — traces whose row counts,
/// widths, public inputs and local constraints are acceptable and whose
/// lookup multisets agree — proved honestly, verifies. The honest proof's
/// commitments replay the same challenges, and multiset equality forces
/// every lookup instance's terminal products to coincide.
pub proof fn lemma_completeness(
    sys: Merkle5STARK,
    config: StarkConfig,
    traces: Seq<Seq<Seq<u64>>>,
    pises: Seq<Seq<u64>>,
    proof: AllProof,
)
    requires
        sys.wf(),
        spec_prove_ok(sys, traces, pises),
        forall|i: int|
            0 <= i < sys.cross_table_lookups@.len() ==> spec_ctl_holds(
                #[trigger] sys.cross_table_lookups@[i],
                traces,
            ),
        spec_honest_proof(sys, config, traces, pises, proof),
    ensures
        spec_verify_ok(sys, config, proof),
{
    let n = sys.cross_table_lookups@.len() as int;
    let chs = spec_challenges_of_commitments(
        config,
        sys.cross_table_lookups@,
        spec_commitment(traces[0]),
        spec_commitment(traces[1]),
        n,
    );
    lemma_commitment_len(traces[0]);
    lemma_commitment_len(traces[1]);
    lemma_commitment_len(crate::all_stark::spec_all_z_columns(sys.cross_table_lookups@, chs, traces));
    assert(proof.proofs@[0].trace_commitment@ == spec_commitment(traces[0]));
    assert(proof.proofs@[1].trace_commitment@ == spec_commitment(traces[1]));
    assert forall|i: int| 0 <= i < n implies {
        let c = sys.cross_table_lookups@[i];
        let o = #[trigger] proof.ctl_openings@[i];
        &&& o.challenge == chs[i]
        &&& o.looking_z_finals@.len() == c.looking@.len()
        &&& o.looked_z_final == spec_fold_mul(o.looking_z_finals@)
    } by {
        let c = sys.cross_table_lookups@[i];
        let o = proof.ctl_openings@[i];
        lemma_fold_finals(chs[i], c.looking@, traces, o.looking_z_finals@);
        lemma_prod_terms_is_filtered(chs[i], c.looked, traces[c.looked.table as int]);
        assert(spec_ctl_holds(c, traces));
        lemma_prod_tuples_multiset(
            chs[i],
            spec_filtered(c.looked, traces[c.looked.table as int]),
            spec_looking_concat(c.looking@, traces),
        );
    }
}

// ---------------------------------------------------------------------
// Consistency of the two generators: the tree table's filtered lookup
// tuples and the compression table's are the same sequences, so every
// lookup's multisets agree and `check_ctls` accepts.
// ---------------------------------------------------------------------

/// The whole tree trace, as row sequences.
pub open spec fn spec_tree_trace(leaves: Seq<Seq<u32>>, mr: int) -> Seq<Seq<u64>> {
    Seq::new(mr as nat, |r: int| spec_trace_row(leaves, r, mr))
}

/// The whole compression-table trace generated from the tree's recorded
/// compressions, as row sequences.
pub open spec fn spec_hash_table_trace(leaves: Seq<Seq<u32>>, hr: int) -> Seq<Seq<u64>> {
    Seq::new(hr as nat, |i: int|
        if i < 15 {
            spec_hash_row_of(
                spec_vals(leaves, i).take(8),
                spec_vals(leaves, i).subrange(8, 16),
                spec_out(spec_vals(leaves, i)),
                i,
            )
        } else {
            spec_hash_zero_row()
        })
}

/// Word `c` (of the 24 lookup words) exposed by step `r`: the two
/// compression inputs, then the output, each domain-separated.
pub open spec fn lookup_word(leaves: Seq<Seq<u32>>, r: int, c: int) -> u64 {
    if c < 16 {
        with_idx(spec_vals(leaves, r)[c], r)
    } else {
        with_idx(spec_out(spec_vals(leaves, r))[c - 16], r)
    }
}

/// The lookup tuples of the first `count` steps, words `rel` through
/// `rel + ncols`.
pub open spec fn lookup_tuples(leaves: Seq<Seq<u32>>, rel: int, ncols: int, count: int) -> Seq<
    Seq<u64>,
> {
    Seq::new(count as nat, |r: int| Seq::new(ncols as nat, |c: int| lookup_word(leaves, r, rel + c)))
}

/// A tuple of consecutive single columns reads the row directly.
proof fn lemma_tuple_single_range(twc: TableWithColumns, row: Seq<u64>, start: int, ncols: int)
    requires
        cols_are_single_range(twc.columns@, start, ncols),
        0 <= start,
        0 <= ncols,
        start + ncols <= row.len(),
        start + ncols <= 1000,
    ensures
        spec_row_tuple(twc, row) =~= Seq::new(ncols as nat, |c: int| row[start + c]),
{
    assert forall|c: int| 0 <= c < ncols implies spec_row_tuple(twc, row)[c] == row[start + c] by {
        assert(twc.columns@[c] == ColumnRef::Single((start + c) as usize));
        assert(((start + c) as usize) as int == start + c);
        assert(spec_row_tuple(twc, row)[c] == crate::ctl::spec_eval_col(twc.columns@[c], row));
    }
}

/// Shape of a step row: the working values in the first 128 columns, the
/// lookup words at columns 128 through 151, and the bookkeeping columns;
/// every cell a canonical field element.
proof fn lemma_stepped_row_facts(leaves: Seq<Seq<u32>>, r: int, mr: int)
    requires
        leaves_wf(leaves),
        0 <= r < 15,
        mr >= 16,
    ensures
        spec_stepped_row(leaves, r, mr).len() == 162,
        forall|j: int|
            0 <= j < 128 ==> spec_stepped_row(leaves, r, mr)[j] == spec_vals(leaves, r)[j],
        forall|c: int|
            0 <= c < 24 ==> spec_stepped_row(leaves, r, mr)[128 + c] == lookup_word(leaves, r, c),
        spec_stepped_row(leaves, r, mr)[152] == level_idx_of(r) as u64,
        spec_stepped_row(leaves, r, mr)[153] == (level_width(level_of(r)) / 2) as u64,
        spec_stepped_row(leaves, r, mr)[154] == (r + 1) as u64,
        spec_stepped_row(leaves, r, mr)[155] == 1u64,
        spec_stepped_row(leaves, r, mr)[156] == 1u64,
        spec_stepped_row(leaves, r, mr)[157] == (if level_idx_of(r) == level_width(level_of(r)) / 2
            - 1 {
            1u64
        } else {
            0u64
        }),
        forall|l: int|
            0 <= l < 4 ==> #[trigger] spec_stepped_row(leaves, r, mr)[158 + l] == (if level_of(r)
                == l {
                1u64
            } else {
                0u64
            }),
        crate::field::all_fe(spec_stepped_row(leaves, r, mr)),
{
    lemma_vals_bounded(leaves, r);
    let vals = spec_vals(leaves, r);
    lemma_compress_bounded(vals.take(8), vals.subrange(8, 16));
    let row = spec_stepped_row(leaves, r, mr);
    let m = spec_misc(r, level_idx_of(r), level_of(r), mr);
    assert(row[152] == m[0]);
    assert(row[153] == m[1]);
    assert(row[154] == m[2]);
    assert(row[155] == m[3]);
    assert(row[156] == m[4]);
    assert(row[157] == m[5]);
    assert forall|l: int| 0 <= l < 4 implies #[trigger] row[158 + l] == (if level_of(r) == l {
        1u64
    } else {
        0u64
    }) by {
        assert(row[158 + l] == m[6 + l]);
    }
    assert forall|c: int| 0 <= c < 24 implies row[128 + c] == lookup_word(leaves, r, c) by {
        if c < 8 {
            assert(row[128 + c] == with_idx(vals[c], r));
        } else if c < 16 {
            assert(row[128 + c] == with_idx(vals[8 + (c - 8)], r));
        } else {
            assert(row[128 + c] == with_idx(spec_out(vals)[c - 16], r));
        }
    }
    assert forall|j: int| 0 <= j < 162 implies crate::field::is_fe(#[trigger] row[j]) by {
        if j < 128 {
            assert(row[j] == vals[j]);
        } else if j < 152 {
            assert(row[j] == lookup_word(leaves, r, j - 128));
        } else if j < 162 {
            assert(row[j] == m[j - 152]);
        }
    }
}

/// Shape of a compression-table instance row: the same lookup words at
/// columns 0 through 23, filter on.
proof fn lemma_hash_row_facts(leaves: Seq<Seq<u32>>, i: int)
    requires
        leaves_wf(leaves),
        0 <= i < 15,
    ensures
        spec_hash_table_trace_row(leaves, i).len() == 25,
        forall|c: int|
            0 <= c < 24 ==> spec_hash_table_trace_row(leaves, i)[c] == lookup_word(leaves, i, c),
        spec_hash_table_trace_row(leaves, i)[24] == 1u64,
{
    lemma_vals_bounded(leaves, i);
    let vals = spec_vals(leaves, i);
    lemma_compress_bounded(vals.take(8), vals.subrange(8, 16));
    let row = spec_hash_table_trace_row(leaves, i);
    assert forall|c: int| 0 <= c < 24 implies row[c] == lookup_word(leaves, i, c) by {
        if c < 8 {
            assert(row[c] == with_idx(vals.take(8)[c], i));
        } else if c < 16 {
            assert(row[c] == with_idx(vals.subrange(8, 16)[c - 8], i));
        } else {
            assert(row[c] == with_idx(spec_out(vals)[c - 16], i));
        }
    }
}

/// An instance row of the compression table.
pub open spec fn spec_hash_table_trace_row(leaves: Seq<Seq<u32>>, i: int) -> Seq<u64> {
    spec_hash_row_of(
        spec_vals(leaves, i).take(8),
        spec_vals(leaves, i).subrange(8, 16),
        spec_out(spec_vals(leaves, i)),
        i,
    )
}

/// The filtered tuples of one side over the tree trace are exactly the
/// fifteen steps' lookup tuples.
proof fn lemma_filtered_tree(
    twc: TableWithColumns,
    leaves: Seq<Seq<u32>>,
    mr: int,
    start: int,
    ncols: int,
    fcol: int,
    k: int,
)
    requires
        twc_is(twc, 1, start, ncols, fcol),
        fcol == 155 || fcol == 156,
        128 <= start,
        0 <= ncols,
        start + ncols <= 152,
        leaves_wf(leaves),
        mr >= 16,
        0 <= k <= mr,
    ensures
        spec_filtered(twc, spec_tree_trace(leaves, mr).take(k)) =~= lookup_tuples(
            leaves,
            start - 128,
            ncols,
            if k < 15 {
                k
            } else {
                15
            },
        ),
    decreases k,
{
    let rows = spec_tree_trace(leaves, mr);
    if k == 0 {
    } else {
        lemma_filtered_tree(twc, leaves, mr, start, ncols, fcol, k - 1);
        assert(rows.take(k).drop_last() =~= rows.take(k - 1));
        assert(rows.take(k).last() == spec_trace_row(leaves, k - 1, mr));
        let row = spec_trace_row(leaves, k - 1, mr);
        if k - 1 < 15 {
            lemma_stepped_row_facts(leaves, k - 1, mr);
            assert(spec_filter_val(twc, row) == row[fcol]);
            assert(row[fcol] == 1u64);
            lemma_tuple_single_range(twc, row, start, ncols);
            assert(spec_row_tuple(twc, row) =~= Seq::new(
                ncols as nat,
                |c: int| lookup_word(leaves, k - 1, start - 128 + c),
            ));
        } else {
            lemma_vals_bounded(leaves, 15);
            if k - 1 == 15 {
                assert(row == spec_root_row(leaves));
                assert(row[fcol] == 0u64);
            } else {
                assert(row == spec_zero_row());
                assert(row[fcol] == 0u64);
            }
            assert(spec_filter_val(twc, row) == 0u64);
        }
    }
}

/// The filtered tuples of one side over the compression table are exactly
/// the fifteen instances' lookup tuples.
proof fn lemma_filtered_hash(
    twc: TableWithColumns,
    leaves: Seq<Seq<u32>>,
    hr: int,
    start: int,
    ncols: int,
    k: int,
)
    requires
        twc_is(twc, 0, start, ncols, 24),
        0 <= start,
        0 <= ncols,
        start + ncols <= 24,
        leaves_wf(leaves),
        hr >= 15,
        0 <= k <= hr,
    ensures
        spec_filtered(twc, spec_hash_table_trace(leaves, hr).take(k)) =~= lookup_tuples(
            leaves,
            start,
            ncols,
            if k < 15 {
                k
            } else {
                15
            },
        ),
    decreases k,
{
    let rows = spec_hash_table_trace(leaves, hr);
    if k == 0 {
    } else {
        lemma_filtered_hash(twc, leaves, hr, start, ncols, k - 1);
        assert(rows.take(k).drop_last() =~= rows.take(k - 1));
        let row = rows[k - 1];
        assert(rows.take(k).last() == row);
        if k - 1 < 15 {
            assert(row == spec_hash_table_trace_row(leaves, k - 1));
            lemma_hash_row_facts(leaves, k - 1);
            assert(spec_filter_val(twc, row) == row[24]);
            lemma_tuple_single_range(twc, row, start, ncols);
            assert(spec_row_tuple(twc, row) =~= Seq::new(
                ncols as nat,
                |c: int| lookup_word(leaves, k - 1, start + c),
            ));
        } else {
            assert(row == spec_hash_zero_row());
            assert(spec_filter_val(twc, row) == 0u64);
        }
    }
}

/// Lookup consistency of the generators: on the traces the two generators
/// produce from one set of leaves, both cross-table lookups' filtered
/// multisets agree exactly — the oracle `check_ctls` accepts them.
pub proof fn lemma_generator_ctl_consistent(
    sys: Merkle5STARK,
    leaves: Seq<Seq<u32>>,
    mr: int,
    hr: int,
)
    requires
        sys.cross_table_lookups@.len() == 2,
        is_ctl_hash(sys.cross_table_lookups@[0]),
        is_ctl_tree(sys.cross_table_lookups@[1]),
        leaves_wf(leaves),
        mr >= 16,
        hr >= 15,
    ensures
        forall|i: int|
            0 <= i < 2 ==> spec_ctl_holds(
                #[trigger] sys.cross_table_lookups@[i],
                seq![spec_hash_table_trace(leaves, hr), spec_tree_trace(leaves, mr)],
            ),
{
    let traces = seq![spec_hash_table_trace(leaves, hr), spec_tree_trace(leaves, mr)];
    let tree = spec_tree_trace(leaves, mr);
    let hash = spec_hash_table_trace(leaves, hr);
    assert(tree.take(mr) =~= tree);
    assert(hash.take(hr) =~= hash);
    let c0 = sys.cross_table_lookups@[0];
    lemma_filtered_tree(c0.looking@[0], leaves, mr, 128, 24, 155, mr);
    lemma_filtered_hash(c0.looked, leaves, hr, 0, 24, hr);
    assert(spec_looking_concat(c0.looking@, traces) =~= spec_filtered(c0.looking@[0], tree)) by {
        let lk = c0.looking@;
        assert(lk.drop_last() =~= Seq::<TableWithColumns>::empty());
        assert(spec_looking_concat(lk.drop_last(), traces) == Seq::<Seq<u64>>::empty());
        assert(lk.last() == lk[0]);
        assert(lk[0].table as int == 1);
        assert(traces[1] == tree);
        assert(spec_looking_concat(lk, traces) == spec_looking_concat(lk.drop_last(), traces)
            + spec_filtered(lk.last(), traces[lk.last().table as int]));
        assert(Seq::<Seq<u64>>::empty() + spec_filtered(lk[0], tree) =~= spec_filtered(lk[0], tree));
    }
    assert(spec_filtered(c0.looked, hash) =~= spec_looking_concat(c0.looking@, traces));
    assert(spec_ctl_holds(c0, traces));
    let c1 = sys.cross_table_lookups@[1];
    lemma_filtered_hash(c1.looking@[0], leaves, hr, 16, 8, hr);
    lemma_filtered_tree(c1.looked, leaves, mr, 144, 8, 156, mr);
    assert(spec_looking_concat(c1.looking@, traces) =~= spec_filtered(c1.looking@[0], hash)) by {
        let lk = c1.looking@;
        assert(lk.drop_last() =~= Seq::<TableWithColumns>::empty());
        assert(spec_looking_concat(lk.drop_last(), traces) == Seq::<Seq<u64>>::empty());
        assert(lk.last() == lk[0]);
        assert(lk[0].table as int == 0);
        assert(traces[0] == hash);
        assert(spec_looking_concat(lk, traces) == spec_looking_concat(lk.drop_last(), traces)
            + spec_filtered(lk.last(), traces[lk.last().table as int]));
        assert(Seq::<Seq<u64>>::empty() + spec_filtered(lk[0], hash) =~= spec_filtered(lk[0], hash));
    }
    assert(spec_filtered(c1.looked, tree) =~= spec_looking_concat(c1.looking@, traces));
    assert(spec_ctl_holds(c1, traces));
}

/// Shape of the rows after the steps: the root row and the all-zero
/// padding rows.
proof fn lemma_tail_row_facts(leaves: Seq<Seq<u32>>, mr: int, r: int)
    requires
        leaves_wf(leaves),
        mr >= 16,
        15 <= r < mr,
    ensures
        spec_trace_row(leaves, r, mr).len() == 162,
        forall|j: int| 128 <= j < 162 ==> spec_trace_row(leaves, r, mr)[j] == 0u64,
        forall|j: int| 8 <= j < 128 ==> spec_trace_row(leaves, r, mr)[j] == 0u64,
        forall|j: int|
            0 <= j < 8 ==> spec_trace_row(leaves, r, mr)[j] == (if r == 15 {
                spec_root(leaves)[j]
            } else {
                0u64
            }),
        crate::field::all_fe(spec_trace_row(leaves, r, mr)),
{
    crate::tree_stark::lemma_trace_row_len(leaves, r, mr);
    lemma_vals_bounded(leaves, 15);
    let row = spec_trace_row(leaves, r, mr);
    if r == 15 {
        let vals = spec_vals(leaves, 15);
        assert(vals == spec_step_vals(
            spec_vals(leaves, 14),
            spec_out(spec_vals(leaves, 14)),
            level_width(level_of(14) + 1),
            level_idx_of(14),
        ));
        assert forall|j: int| 8 <= j < 128 implies row[j] == 0u64 by {
            assert(row[j] == vals[j]);
        }
        assert forall|j: int| 0 <= j < 8 implies row[j] == spec_root(leaves)[j] by {
            assert(row[j] == vals[j]);
        }
    }
}

/// The single-row residuals of every generated tree row are zero.
#[verifier::rlimit(100)]
#[verifier::spinoff_prover]
proof fn lemma_tree_row_ok(leaves: Seq<Seq<u32>>, mr: int, r: int)
    requires
        leaves_wf(leaves),
        mr >= 16,
        0 <= r < mr,
    ensures
        forall|j: int|
            0 <= j < spec_tree_row_constraints(spec_trace_row(leaves, r, mr)).len()
                ==> #[trigger] spec_tree_row_constraints(spec_trace_row(leaves, r, mr))[j] == 0u64,
{
    let row = spec_trace_row(leaves, r, mr);
    let cs = spec_tree_row_constraints(row);
    if r < 15 {
        lemma_vals_bounded(leaves, r);
        lemma_stepped_row_facts(leaves, r, mr);
        let vals = spec_vals(leaves, r);
        let lvl = level_of(r);
        let hlw = level_width(lvl) / 2;
        assert forall|j: int| 0 <= j < cs.len() implies cs[j] == 0u64 by {
            if j < 7 {
                assert(row[155 + j] == 0u64 || row[155 + j] == 1u64);
                assert(spec_bool_res(row[155 + j]) == 0u64);
            } else if j == 7 {
                assert(cs[j] == crate::field::fe_sub(1u64, 1u64));
            } else if j == 8 {
                assert(cs[j] == 0u64);
            } else if j == 9 {
                assert(row[153] == hlw as u64);
                assert(cs[j] == 0u64);
            } else if j == 10 {
                if level_idx_of(r) == hlw - 1 {
                    assert(row[157] == 1u64);
                    assert(crate::field::fe_add(row[152], 1u64) == row[153]);
                    assert(cs[j] == 0u64);
                } else {
                    assert(row[157] == 0u64);
                    crate::field::lemma_fe_mul_zero(
                        crate::field::fe_sub(crate::field::fe_add(row[152], 1u64), row[153]),
                    );
                }
            } else if j == 11 || j == 12 {
                assert(spec_off(row) == 0u64);
                assert(cs[j] == 0u64);
            } else if j < 29 {
                let w = j - 13;
                assert(row[128 + w] == lookup_word(leaves, r, w));
                assert(row[w] == vals[w]);
                crate::field::lemma_fe_mul_exact((r + 1) as u64, 0x1_0000_0000u64);
                crate::field::lemma_fe_add_exact(vals[w], ((r + 1) * 0x1_0000_0000) as u64);
                assert(spec_input_res(row, w) == 0u64);
            } else {
                let w = j - 29;
                assert(spec_off(row) == 0u64);
                crate::field::lemma_fe_mul_zero(row[128 + w]);
            }
        }
    } else {
        lemma_tail_row_facts(leaves, mr, r);
        assert forall|j: int| 0 <= j < cs.len() implies cs[j] == 0u64 by {
            assert(row[155] == 0u64);
            if j < 7 {
                assert(row[155 + j] == 0u64);
                assert(spec_bool_res(0u64) == 0u64);
            } else if j == 7 || j == 8 || j == 9 {
                assert(cs[j] == 0u64);
            } else if j == 10 {
                crate::field::lemma_fe_mul_zero(
                    crate::field::fe_sub(crate::field::fe_add(row[152], 1u64), row[153]),
                );
            } else if j == 11 || j == 12 {
                assert(spec_off(row) == 1u64);
                assert(row[152] == 0u64 && row[154] == 0u64);
                crate::field::lemma_fe_mul_one_left(0u64);
            } else if j < 29 {
                crate::field::lemma_fe_mul_zero(
                    crate::field::fe_sub(
                        row[128 + (j - 13)],
                        crate::field::fe_add(
                            row[j - 13],
                            crate::field::fe_mul(row[154], 0x1_0000_0000u64),
                        ),
                    ),
                );
            } else {
                assert(row[128 + (j - 29)] == 0u64);
                crate::field::lemma_fe_mul_one_left(0u64);
            }
        }
    }
}

/// The transition residuals of a within-level (shift) step are zero.
#[verifier::rlimit(100)]
#[verifier::spinoff_prover]
proof fn lemma_tree_window_shift(leaves: Seq<Seq<u32>>, mr: int, r: int, pis: Seq<u64>)
    requires
        leaves_wf(leaves),
        mr >= 16,
        0 <= r < 15,
        level_idx_of(r) != level_width(level_of(r)) / 2 - 1,
    ensures
        forall|j: int|
            0 <= j < spec_tree_transition_constraints(
                spec_trace_row(leaves, r, mr),
                spec_trace_row(leaves, r + 1, mr),
                pis,
            ).len() ==> #[trigger] spec_tree_transition_constraints(
                spec_trace_row(leaves, r, mr),
                spec_trace_row(leaves, r + 1, mr),
                pis,
            )[j] == 0u64,
{
    let curr = spec_trace_row(leaves, r, mr);
    let next = spec_trace_row(leaves, r + 1, mr);
    let cs = spec_tree_transition_constraints(curr, next, pis);
    let vals = spec_vals(leaves, r);
    let out = spec_out(vals);
    let n = level_width(level_of(r) + 1);
    let k = level_idx_of(r);
    lemma_vals_bounded(leaves, r);
    lemma_vals_bounded(leaves, r + 1);
    lemma_compress_bounded(vals.take(8), vals.subrange(8, 16));
    lemma_stepped_row_facts(leaves, r, mr);
    assert(r + 1 < 15 && level_of(r + 1) == level_of(r) && level_idx_of(r + 1) == k + 1);
    lemma_stepped_row_facts(leaves, r + 1, mr);
    assert(level_width(level_of(r)) / 2 == n);
    assert(curr[157] == 0u64);
    assert(spec_vals(leaves, r + 1) == spec_step_vals(vals, out, n, k));
    let g_shift = crate::field::fe_mul(curr[155], crate::field::fe_sub(1u64, curr[157]));
    let g_done = crate::field::fe_mul(curr[155], curr[157]);
    assert(g_shift == 1u64);
    assert(g_done == 0u64);
    assert(spec_off(curr) == 0u64);
    assert forall|j: int| 0 <= j < cs.len() implies cs[j] == 0u64 by {
        if j < 128 {
            if j < 112 {
                assert(next[j] == spec_step_vals(vals, out, n, k)[j]);
                assert(next[j] == vals[j + 16]);
                assert(curr[j + 16] == vals[j + 16]);
                assert(spec_shift_diff(curr, next, j) == 0u64);
            } else if j < 120 {
                assert(next[j] == 0u64);
                assert(spec_shift_diff(curr, next, j) == 0u64);
            } else {
                let w = j - 120;
                assert(next[j] == out[w]);
                assert(curr[144 + w] == with_idx(out[w], r));
                crate::field::lemma_fe_mul_exact((r + 1) as u64, 0x1_0000_0000u64);
                crate::field::lemma_fe_sub_exact(with_idx(out[w], r), ((r + 1) * 0x1_0000_0000) as u64);
                assert(spec_out_word(curr, w) == out[w]);
                assert(spec_shift_diff(curr, next, j) == 0u64);
            }
            crate::field::lemma_fe_mul_one_left(0u64);
        } else if j < 256 {
            crate::field::lemma_fe_mul_zero(spec_unspread_diff(curr, next, 8, j - 128));
            crate::field::lemma_fe_mul_zero(curr[158]);
        } else if j < 384 {
            crate::field::lemma_fe_mul_zero(spec_unspread_diff(curr, next, 4, j - 256));
            crate::field::lemma_fe_mul_zero(curr[159]);
        } else if j < 512 {
            crate::field::lemma_fe_mul_zero(spec_unspread_diff(curr, next, 2, j - 384));
            crate::field::lemma_fe_mul_zero(curr[160]);
        } else if j < 674 {
            crate::field::lemma_fe_mul_zero(spec_root_diff(curr, next, j - 512));
            crate::field::lemma_fe_mul_zero(curr[161]);
        } else if j < 682 {
            crate::field::lemma_fe_mul_zero(curr[161]);
            crate::field::lemma_fe_mul_zero(crate::field::fe_sub(next[j - 674], pis[j - 674]));
        } else if j == 682 {
            assert(next[152] == (k + 1) as u64);
            assert(curr[152] == k as u64);
            crate::field::lemma_fe_add_exact(k as u64, 1u64);
            assert(crate::field::fe_sub(next[152], crate::field::fe_add(curr[152], 1u64)) == 0u64);
            crate::field::lemma_fe_mul_one_left(0u64);
        } else if j == 683 {
            crate::field::lemma_fe_mul_zero(next[155]);
            crate::field::lemma_fe_mul_zero(next[152]);
        } else {
            crate::field::lemma_fe_mul_zero(next[j - 684]);
        }
    }
}

/// The transition residuals of a level-ending step below the top are zero.
#[verifier::rlimit(100)]
#[verifier::spinoff_prover]
proof fn lemma_tree_window_done(leaves: Seq<Seq<u32>>, mr: int, r: int, pis: Seq<u64>)
    requires
        leaves_wf(leaves),
        mr >= 16,
        0 <= r < 14,
        level_idx_of(r) == level_width(level_of(r)) / 2 - 1,
    ensures
        forall|j: int|
            0 <= j < spec_tree_transition_constraints(
                spec_trace_row(leaves, r, mr),
                spec_trace_row(leaves, r + 1, mr),
                pis,
            ).len() ==> #[trigger] spec_tree_transition_constraints(
                spec_trace_row(leaves, r, mr),
                spec_trace_row(leaves, r + 1, mr),
                pis,
            )[j] == 0u64,
{
    let curr = spec_trace_row(leaves, r, mr);
    let next = spec_trace_row(leaves, r + 1, mr);
    let cs = spec_tree_transition_constraints(curr, next, pis);
    let vals = spec_vals(leaves, r);
    let out = spec_out(vals);
    let lvl = level_of(r);
    let n = level_width(lvl + 1);
    let k = level_idx_of(r);
    lemma_vals_bounded(leaves, r);
    lemma_vals_bounded(leaves, r + 1);
    lemma_compress_bounded(vals.take(8), vals.subrange(8, 16));
    lemma_stepped_row_facts(leaves, r, mr);
    assert(r == 7 || r == 11 || r == 13);
    assert(lvl < 3);
    assert(r + 1 < 15 && level_of(r + 1) == lvl + 1 && level_idx_of(r + 1) == 0);
    lemma_stepped_row_facts(leaves, r + 1, mr);
    assert(level_width(lvl) / 2 == n);
    assert(k == n - 1);
    assert(curr[157] == 1u64);
    assert(spec_vals(leaves, r + 1) == spec_step_vals(vals, out, n, k));
    let g_shift = crate::field::fe_mul(curr[155], crate::field::fe_sub(1u64, curr[157]));
    let g_done = crate::field::fe_mul(curr[155], curr[157]);
    assert(g_shift == 0u64);
    assert(g_done == 1u64);
    assert(spec_off(curr) == 0u64);
    assert(curr[161] == 0u64);
    assert forall|j: int| 0 <= j < cs.len() implies cs[j] == 0u64 by {
        crate::field::lemma_fe_mul_exact((r + 1) as u64, 0x1_0000_0000u64);
        if j < 128 {
            crate::field::lemma_fe_mul_zero(spec_shift_diff(curr, next, j));
        } else if j < 512 {
            let fam: int = if j < 256 {
                0
            } else if j < 384 {
                1
            } else {
                2
            };
            let nf: int = if fam == 0 {
                8
            } else if fam == 1 {
                4
            } else {
                2
            };
            let jj = j - 128 - 128 * fam;
            assert(cs[j] == crate::field::fe_mul(
                crate::field::fe_mul(g_done, curr[158 + fam]),
                spec_unspread_diff(curr, next, nf, jj),
            ));
            if lvl == fam {
                assert(curr[158 + fam] == 1u64);
                assert(nf == n);
                crate::field::lemma_fe_mul_one_left(1u64);
                if jj < 8 * (n - 1) {
                    let b = jj / 8;
                    let w = jj % 8;
                    assert(next[jj] == spec_step_vals(vals, out, n, k)[jj]);
                    assert(next[jj] == vals[8 * (2 * b + 19 - 2 * n) + w]);
                    assert(curr[8 * (2 * b + 19 - 2 * n) + w] == vals[8 * (2 * b + 19 - 2 * n) + w]);
                    assert(spec_unspread_diff(curr, next, nf, jj) == 0u64);
                } else if jj < 8 * n {
                    let w = jj - 8 * (n - 1);
                    assert(next[jj] == out[w]);
                    assert(curr[144 + w] == with_idx(out[w], r));
                    crate::field::lemma_fe_sub_exact(
                        with_idx(out[w], r),
                        ((r + 1) * 0x1_0000_0000) as u64,
                    );
                    assert(spec_out_word(curr, w) == out[w]);
                    assert(spec_unspread_diff(curr, next, nf, jj) == 0u64);
                } else {
                    assert(next[jj] == 0u64);
                    assert(spec_unspread_diff(curr, next, nf, jj) == 0u64);
                }
                crate::field::lemma_fe_mul_one_left(0u64);
            } else {
                assert(curr[158 + fam] == 0u64);
                crate::field::lemma_fe_mul_one_left(0u64);
                crate::field::lemma_fe_mul_zero(spec_unspread_diff(curr, next, nf, jj));
            }
        } else if j < 674 {
            crate::field::lemma_fe_mul_one_left(0u64);
            crate::field::lemma_fe_mul_zero(spec_root_diff(curr, next, j - 512));
        } else if j < 682 {
            crate::field::lemma_fe_mul_one_left(0u64);
            crate::field::lemma_fe_mul_zero(crate::field::fe_sub(next[j - 674], pis[j - 674]));
        } else if j == 682 {
            crate::field::lemma_fe_mul_zero(
                crate::field::fe_sub(next[152], crate::field::fe_add(curr[152], 1u64)),
            );
        } else if j == 683 {
            assert(next[155] == 1u64);
            assert(next[152] == 0u64);
            crate::field::lemma_fe_mul_one_left(1u64);
            crate::field::lemma_fe_mul_one_left(0u64);
        } else {
            crate::field::lemma_fe_mul_zero(next[j - 684]);
        }
    }
}

/// The transition residuals of the top level's only step are zero: the
/// next row is the root row, whose first value is the root and the
/// public inputs.
#[verifier::rlimit(100)]
#[verifier::spinoff_prover]
proof fn lemma_tree_window_root(leaves: Seq<Seq<u32>>, mr: int, pis: Seq<u64>)
    requires
        leaves_wf(leaves),
        mr >= 16,
        pis == spec_root(leaves),
    ensures
        forall|j: int|
            0 <= j < spec_tree_transition_constraints(
                spec_trace_row(leaves, 14, mr),
                spec_trace_row(leaves, 15, mr),
                pis,
            ).len() ==> #[trigger] spec_tree_transition_constraints(
                spec_trace_row(leaves, 14, mr),
                spec_trace_row(leaves, 15, mr),
                pis,
            )[j] == 0u64,
{
    let curr = spec_trace_row(leaves, 14, mr);
    let next = spec_trace_row(leaves, 15, mr);
    let cs = spec_tree_transition_constraints(curr, next, pis);
    let vals = spec_vals(leaves, 14);
    let out = spec_out(vals);
    lemma_vals_bounded(leaves, 14);
    lemma_vals_bounded(leaves, 15);
    lemma_compress_bounded(vals.take(8), vals.subrange(8, 16));
    lemma_stepped_row_facts(leaves, 14, mr);
    lemma_tail_row_facts(leaves, mr, 15);
    assert(level_of(14) == 3 && level_idx_of(14) == 0 && level_width(3) / 2 == 1);
    assert(curr[157] == 1u64);
    assert(curr[161] == 1u64);
    assert(spec_vals(leaves, 15) == spec_step_vals(vals, out, 1, 0));
    assert forall|w: int| 0 <= w < 8 implies spec_vals(leaves, 15)[w] == out[w] by {
        assert(spec_step_vals(vals, out, 1, 0)[w] == out[w]);
    }
    let g_done = crate::field::fe_mul(curr[155], curr[157]);
    assert(g_done == 1u64);
    assert(crate::field::fe_mul(curr[155], crate::field::fe_sub(1u64, curr[157])) == 0u64);
    assert(spec_off(curr) == 0u64);
    assert forall|j: int| 0 <= j < cs.len() implies cs[j] == 0u64 by {
        crate::field::lemma_fe_mul_exact(15u64, 0x1_0000_0000u64);
        if j < 128 {
            crate::field::lemma_fe_mul_zero(spec_shift_diff(curr, next, j));
        } else if j < 512 {
            let fam: int = if j < 256 {
                0
            } else if j < 384 {
                1
            } else {
                2
            };
            let nf: int = if fam == 0 {
                8
            } else if fam == 1 {
                4
            } else {
                2
            };
            assert(curr[158 + fam] == 0u64);
            crate::field::lemma_fe_mul_one_left(0u64);
            crate::field::lemma_fe_mul_zero(spec_unspread_diff(curr, next, nf, j - 128 - 128 * fam));
        } else if j < 674 {
            let jj = j - 512;
            crate::field::lemma_fe_mul_one_left(1u64);
            if jj < 8 {
                assert(next[jj] == spec_root(leaves)[jj]);
                assert(spec_root(leaves)[jj] == spec_vals(leaves, 15)[jj]);
                assert(next[jj] == out[jj]);
                assert(curr[144 + jj] == with_idx(out[jj], 14));
                crate::field::lemma_fe_sub_exact(with_idx(out[jj], 14), (15 * 0x1_0000_0000) as u64);
                assert(spec_out_word(curr, jj) == out[jj]);
                assert(spec_root_diff(curr, next, jj) == 0u64);
            } else if jj < 162 {
                assert(next[jj] == 0u64);
                assert(spec_root_diff(curr, next, jj) == 0u64);
            }
            crate::field::lemma_fe_mul_one_left(0u64);
        } else if j < 682 {
            let w = j - 674;
            crate::field::lemma_fe_mul_one_left(1u64);
            assert(next[w] == spec_root(leaves)[w]);
            assert(crate::field::fe_sub(next[w], pis[w]) == 0u64);
            crate::field::lemma_fe_mul_one_left(0u64);
        } else if j == 682 {
            crate::field::lemma_fe_mul_zero(
                crate::field::fe_sub(next[152], crate::field::fe_add(curr[152], 1u64)),
            );
        } else if j == 683 {
            assert(next[155] == 0u64);
            crate::field::lemma_fe_mul_one_left(0u64);
            crate::field::lemma_fe_mul_zero(next[152]);
        } else {
            crate::field::lemma_fe_mul_zero(next[j - 684]);
        }
    }
}

/// The transition residuals out of the root row and the padding rows are
/// zero: everything below them is zero.
#[verifier::rlimit(100)]
#[verifier::spinoff_prover]
proof fn lemma_tree_window_tail(leaves: Seq<Seq<u32>>, mr: int, r: int, pis: Seq<u64>)
    requires
        leaves_wf(leaves),
        mr >= 16,
        15 <= r < mr - 1,
    ensures
        forall|j: int|
            0 <= j < spec_tree_transition_constraints(
                spec_trace_row(leaves, r, mr),
                spec_trace_row(leaves, r + 1, mr),
                pis,
            ).len() ==> #[trigger] spec_tree_transition_constraints(
                spec_trace_row(leaves, r, mr),
                spec_trace_row(leaves, r + 1, mr),
                pis,
            )[j] == 0u64,
{
    let curr = spec_trace_row(leaves, r, mr);
    let next = spec_trace_row(leaves, r + 1, mr);
    let cs = spec_tree_transition_constraints(curr, next, pis);
    lemma_tail_row_facts(leaves, mr, r);
    lemma_tail_row_facts(leaves, mr, r + 1);
    assert(curr[155] == 0u64);
    assert(crate::field::fe_mul(curr[155], crate::field::fe_sub(1u64, curr[157])) == 0u64);
    assert(crate::field::fe_mul(curr[155], curr[157]) == 0u64);
    assert(spec_off(curr) == 1u64);
    assert forall|j: int| 0 <= j < 162 implies next[j] == 0u64 by {
        if j < 8 {
            assert(next[j] == 0u64);
        }
    }
    assert forall|j: int| 0 <= j < cs.len() implies cs[j] == 0u64 by {
        if j < 128 {
            crate::field::lemma_fe_mul_zero(spec_shift_diff(curr, next, j));
        } else if j < 256 {
            crate::field::lemma_fe_mul_zero(curr[158]);
            crate::field::lemma_fe_mul_zero(spec_unspread_diff(curr, next, 8, j - 128));
        } else if j < 384 {
            crate::field::lemma_fe_mul_zero(curr[159]);
            crate::field::lemma_fe_mul_zero(spec_unspread_diff(curr, next, 4, j - 256));
        } else if j < 512 {
            crate::field::lemma_fe_mul_zero(curr[160]);
            crate::field::lemma_fe_mul_zero(spec_unspread_diff(curr, next, 2, j - 384));
        } else if j < 674 {
            crate::field::lemma_fe_mul_zero(curr[161]);
            crate::field::lemma_fe_mul_zero(spec_root_diff(curr, next, j - 512));
        } else if j < 682 {
            crate::field::lemma_fe_mul_zero(curr[161]);
            crate::field::lemma_fe_mul_zero(crate::field::fe_sub(next[j - 674], pis[j - 674]));
        } else if j == 682 {
            crate::field::lemma_fe_mul_zero(
                crate::field::fe_sub(next[152], crate::field::fe_add(curr[152], 1u64)),
            );
        } else if j == 683 {
            crate::field::lemma_fe_mul_zero(next[155]);
            crate::field::lemma_fe_mul_zero(next[152]);
        } else {
            assert(next[j - 684] == 0u64);
            crate::field::lemma_fe_mul_one_left(0u64);
        }
    }
}

/// Every two-row window of a generated tree trace satisfies the tree
/// table's constraints, with the root as public inputs.
proof fn lemma_tree_window_ok(leaves: Seq<Seq<u32>>, mr: int, r: int, pis: Seq<u64>)
    requires
        leaves_wf(leaves),
        mr >= 16,
        0 <= r < mr,
        pis == spec_root(leaves),
    ensures
        window_satisfies(
            MerkleTree5STARK {},
            spec_tree_trace(leaves, mr)[r],
            crate::all_stark::window_next(spec_tree_trace(leaves, mr), r),
            r == mr - 1,
            pis,
        ),
{
    let tree = spec_tree_trace(leaves, mr);
    let s = MerkleTree5STARK {};
    let curr = spec_trace_row(leaves, r, mr);
    let last = r == mr - 1;
    assert(tree[r] == curr);
    lemma_tree_row_ok(leaves, mr, r);
    let rowc = spec_tree_row_constraints(curr);
    if last {
        let cs = s.spec_constraints(curr, curr, true, pis);
        assert(cs =~= rowc + Seq::<u64>::empty());
        assert forall|j: int| 0 <= j < cs.len() implies cs[j] == 0u64 by {
            assert(cs[j] == rowc[j]);
        }
        assert(crate::all_stark::window_next(tree, r) == tree[r]);
    } else {
        let next = spec_trace_row(leaves, r + 1, mr);
        assert(crate::all_stark::window_next(tree, r) == next);
        if r < 15 {
            if r == 14 {
                lemma_tree_window_root(leaves, mr, pis);
            } else if level_idx_of(r) == level_width(level_of(r)) / 2 - 1 {
                lemma_tree_window_done(leaves, mr, r, pis);
            } else {
                lemma_tree_window_shift(leaves, mr, r, pis);
            }
        } else {
            lemma_tree_window_tail(leaves, mr, r, pis);
        }
        let trc = spec_tree_transition_constraints(curr, next, pis);
        let cs = s.spec_constraints(curr, next, false, pis);
        assert(cs == rowc + trc);
        assert forall|j: int| 0 <= j < cs.len() implies cs[j] == 0u64 by {
            if j < rowc.len() {
                assert(cs[j] == rowc[j]);
            } else {
                assert(cs[j] == trc[j - rowc.len()]);
            }
        }
    }
}

/// Every window of a generated compression-table trace satisfies its
/// constraints: instance rows carry the filter, padding rows are zero.
proof fn lemma_hash_window_ok(leaves: Seq<Seq<u32>>, hr: int, i: int, next: Seq<u64>, last: bool)
    requires
        leaves_wf(leaves),
        hr >= 15,
        0 <= i < hr,
    ensures
        spec_hash_table_trace(leaves, hr)[i].len() == 25,
        window_satisfies(CompressionStark {}, spec_hash_table_trace(leaves, hr)[i], next, last, Seq::<u64>::empty()),
{
    let row = spec_hash_table_trace(leaves, hr)[i];
    let s = CompressionStark {};
    let cs = crate::hash_stark::spec_hash_row_constraints(row);
    if i < 15 {
        lemma_hash_row_facts(leaves, i);
        assert forall|j: int| 0 <= j < cs.len() implies cs[j] == 0u64 by {
            if j == 0 {
                assert(row[24] == 1u64);
                assert(spec_bool_res(1u64) == 0u64);
                assert(cs[0] == crate::field::fe_mul(row[24], crate::field::fe_sub(row[24], 1u64)));
            } else {
                assert(crate::field::fe_sub(1u64, row[24]) == 0u64);
                crate::field::lemma_fe_mul_zero(row[j - 1]);
            }
        }
    } else {
        assert(row == spec_hash_zero_row());
        assert forall|j: int| 0 <= j < cs.len() implies cs[j] == 0u64 by {
            if j == 0 {
                assert(row[24] == 0u64);
                assert(spec_bool_res(0u64) == 0u64);
                assert(cs[0] == crate::field::fe_mul(row[24], crate::field::fe_sub(row[24], 1u64)));
            } else {
                assert(row[j - 1] == 0u64);
                assert(crate::field::fe_sub(1u64, row[24]) == 1u64);
                crate::field::lemma_fe_mul_one_left(0u64);
            }
        }
    }
    assert forall|j: int|
        0 <= j < s.spec_constraints(row, next, last, Seq::<u64>::empty()).len() implies s.spec_constraints(
        row,
        next,
        last,
        Seq::<u64>::empty(),
    )[j] == 0u64 by {
        assert(s.spec_constraints(row, next, last, Seq::<u64>::empty())[j] == cs[j]);
    }
}

/// The traces the two generators produce are accepted by the prover:
/// right shapes, the root as the tree table's public inputs, every window
/// satisfying the constraints.
pub proof fn lemma_generator_tables_ok(
    sys: Merkle5STARK,
    leaves: Seq<Seq<u32>>,
    mr: int,
    hr: int,
    tree_pis: Seq<u64>,
)
    requires
        leaves_wf(leaves),
        mr >= 16,
        hr >= 15,
        spec_is_power_of_two(mr),
        spec_is_power_of_two(hr),
        tree_pis == spec_root(leaves),
    ensures
        spec_prove_ok(
            sys,
            seq![spec_hash_table_trace(leaves, hr), spec_tree_trace(leaves, mr)],
            seq![Seq::<u64>::empty(), tree_pis],
        ),
{
    let hash = spec_hash_table_trace(leaves, hr);
    let tree = spec_tree_trace(leaves, mr);
    lemma_vals_bounded(leaves, 15);
    assert(tree_pis.len() == 8);
    assert forall|r: int| 0 <= r < hash.len() implies (#[trigger] hash[r]).len()
        == CompressionStark {}.spec_num_columns() by {
        lemma_hash_window_ok(leaves, hr, r, crate::all_stark::window_next(hash, r), r == hr - 1);
    }
    assert forall|r: int|
        0 <= r < hash.len() implies window_satisfies(
        CompressionStark {},
        #[trigger] hash[r],
        crate::all_stark::window_next(hash, r),
        r == hash.len() - 1,
        Seq::<u64>::empty(),
    ) by {
        lemma_hash_window_ok(leaves, hr, r, crate::all_stark::window_next(hash, r), r == hr - 1);
    }
    assert forall|r: int| 0 <= r < tree.len() implies (#[trigger] tree[r]).len()
        == MerkleTree5STARK {}.spec_num_columns() by {
        crate::tree_stark::lemma_trace_row_len(leaves, r, mr);
    }
    assert forall|r: int|
        0 <= r < tree.len() implies window_satisfies(
        MerkleTree5STARK {},
        #[trigger] tree[r],
        crate::all_stark::window_next(tree, r),
        r == tree.len() - 1,
        tree_pis,
    ) by {
        lemma_tree_window_ok(leaves, mr, r, tree_pis);
        assert(tree[r] == spec_tree_trace(leaves, mr)[r]);
    }
}

/// Completeness for generator workloads, end to end: the traces the two
/// generators produce from any sixteen leaves, proved honestly under any
/// configuration, verify.
pub proof fn lemma_generator_completeness(
    sys: Merkle5STARK,
    config: StarkConfig,
    leaves: Seq<Seq<u32>>,
    mr: int,
    hr: int,
    tree_pis: Seq<u64>,
    proof: AllProof,
)
    requires
        sys.wf(),
        sys.cross_table_lookups@.len() == 2,
        is_ctl_hash(sys.cross_table_lookups@[0]),
        is_ctl_tree(sys.cross_table_lookups@[1]),
        leaves_wf(leaves),
        mr >= 16,
        hr >= 15,
        spec_is_power_of_two(mr),
        spec_is_power_of_two(hr),
        tree_pis == spec_root(leaves),
        spec_honest_proof(
            sys,
            config,
            seq![spec_hash_table_trace(leaves, hr), spec_tree_trace(leaves, mr)],
            seq![Seq::<u64>::empty(), tree_pis],
            proof,
        ),
    ensures
        spec_verify_ok(sys, config, proof),
{
    lemma_generator_tables_ok(sys, leaves, mr, hr, tree_pis);
    lemma_generator_ctl_consistent(sys, leaves, mr, hr);
    lemma_completeness(
        sys,
        config,
        seq![spec_hash_table_trace(leaves, hr), spec_tree_trace(leaves, mr)],
        seq![Seq::<u64>::empty(), tree_pis],
        proof,
    );
}

// ---------------------------------------------------------------------
// The generator computes the Merkle root: its working values at the start
// of every level are exactly that level's values of the tree, defined
// independently of the state machine by pairwise compression.
// ---------------------------------------------------------------------

/// The words of the tree's values at level `l`: the sixteen leaves at
/// level 0; at each higher level, the pairwise compressions of the level
/// below.
pub open spec fn spec_level_values(leaves: Seq<Seq<u32>>, l: int) -> Seq<u64>
    decreases l,
{
    if l <= 0 {
        Seq::new(128, |j: int| leaves[j / 8][j % 8] as u64)
    } else {
        let prev = spec_level_values(leaves, l - 1);
        Seq::new((8 * level_width(l)) as nat, |j: int|
            spec_compress(
                prev.subrange(16 * (j / 8), 16 * (j / 8) + 8),
                prev.subrange(16 * (j / 8) + 8, 16 * (j / 8) + 16),
            )[j % 8])
    }
}

/// The root of the tree: the one value at the top level.
pub open spec fn spec_merkle_root_words(leaves: Seq<Seq<u32>>) -> Seq<u64> {
    spec_level_values(leaves, 4)
}

/// The outputs a level has produced after `k` steps, as they sit among
/// the working values: an empty value, then output 0, then an empty
/// value, then output 1, and so on.
pub open spec fn spec_interleave(vnext: Seq<u64>, k: int) -> Seq<u64> {
    Seq::new((16 * k) as nat, |j: int|
        if (j / 8) % 2 == 0 {
            0u64
        } else {
            vnext[8 * ((j / 8 - 1) / 2) + j % 8]
        })
}

/// The working values during level `L`, after `k` of its steps: the
/// level's remaining values, a fixed block of empty values, and the
/// interleaved outputs produced so far.
pub open spec fn spec_vals_shape(leaves: Seq<Seq<u32>>, l: int, k: int) -> Seq<u64> {
    spec_level_values(leaves, l).skip(16 * k) + Seq::new(
        (128 - 8 * level_width(l)) as nat,
        |j: int| 0u64,
    ) + spec_interleave(spec_level_values(leaves, l + 1), k)
}

/// Which (level, step-within-level) state the working values are in
/// before step `r`; the state after the last step is the top level.
pub open spec fn spec_shape_at(leaves: Seq<Seq<u32>>, r: int) -> Seq<u64> {
    if r >= 15 {
        spec_vals_shape(leaves, 4, 0)
    } else {
        spec_vals_shape(leaves, level_of(r), level_idx_of(r))
    }
}

proof fn lemma_level_values_len(leaves: Seq<Seq<u32>>, l: int)
    ensures
        l <= 0 ==> spec_level_values(leaves, l).len() == 128,
        l > 0 ==> spec_level_values(leaves, l).len() == 8 * level_width(l),
{
}

/// One within-level step: shift the working values left by two and
/// append the compression output at the right edge.
#[verifier::rlimit(100)]
#[verifier::spinoff_prover]
proof fn lemma_step_shift(lv: Seq<u64>, vnext: Seq<u64>, prev: Seq<u64>, out: Seq<u64>, n: int, k: int)
    requires
        1 <= n <= 8,
        0 <= k < n - 1,
        lv.len() == 16 * n,
        vnext.len() == 8 * n,
        prev == lv.skip(16 * k) + Seq::new((128 - 16 * n) as nat, |j: int| 0u64) + spec_interleave(
            vnext,
            k,
        ),
        out.len() == 8,
        forall|j: int| 0 <= j < 8 ==> out[j] == vnext[8 * k + j],
    ensures
        spec_step_vals(prev, out, n, k) =~= lv.skip(16 * (k + 1)) + Seq::new(
            (128 - 16 * n) as nat,
            |j: int| 0u64,
        ) + spec_interleave(vnext, k + 1),
{
    let target = lv.skip(16 * (k + 1)) + Seq::new((128 - 16 * n) as nat, |j: int| 0u64)
        + spec_interleave(vnext, k + 1);
    let len_rest = 16 * n - 16 * (k + 1);
    let z = 128 - 16 * n;
    assert forall|j: int| 0 <= j < 128 implies spec_step_vals(prev, out, n, k)[j] == target[j] by {
        if j < len_rest {
            assert(spec_step_vals(prev, out, n, k)[j] == prev[j + 16]);
            assert(prev[j + 16] == lv[16 * k + 16 + j]);
            assert(target[j] == lv[16 * (k + 1) + j]);
        } else if j < len_rest + z {
            assert(spec_step_vals(prev, out, n, k)[j] == prev[j + 16]);
            assert(prev[j + 16] == 0u64);
            assert(target[j] == 0u64);
        } else {
            let m = j - len_rest - z;
            assert(target[j] == spec_interleave(vnext, k + 1)[m]);
            let b = m / 8;
            let wd = m % 8;
            assert(m == 8 * b + wd);
            if j < 112 {
                assert(m < 16 * k);
                assert(spec_step_vals(prev, out, n, k)[j] == prev[j + 16]);
                assert(prev[j + 16] == spec_interleave(vnext, k)[m]);
                assert(spec_interleave(vnext, k)[m] == spec_interleave(vnext, k + 1)[m]);
            } else if j < 120 {
                assert(m / 8 == 2 * k);
                assert((m / 8) % 2 == 0);
                assert(spec_step_vals(prev, out, n, k)[j] == 0u64);
                assert(spec_interleave(vnext, k + 1)[m] == 0u64);
            } else {
                assert(m / 8 == 2 * k + 1);
                assert((m / 8) % 2 == 1);
                assert((m / 8 - 1) / 2 == k);
                assert(spec_step_vals(prev, out, n, k)[j] == out[j - 120]);
                assert(wd == j - 120);
                assert(spec_interleave(vnext, k + 1)[m] == vnext[8 * k + wd]);
                assert(out[j - 120] == vnext[8 * k + (j - 120)]);
            }
        }
    }
}

/// The last step of a level: compact ("unspread") the level's outputs to
/// the left and append the final output, leaving exactly the next level's
/// values.
#[verifier::rlimit(100)]
#[verifier::spinoff_prover]
proof fn lemma_step_unspread(
    lv: Seq<u64>,
    vnext: Seq<u64>,
    prev: Seq<u64>,
    out: Seq<u64>,
    n: int,
    k: int,
)
    requires
        1 <= n <= 8,
        k == n - 1,
        lv.len() == 16 * n,
        vnext.len() == 8 * n,
        prev == lv.skip(16 * k) + Seq::new((128 - 16 * n) as nat, |j: int| 0u64) + spec_interleave(
            vnext,
            k,
        ),
        out.len() == 8,
        forall|j: int| 0 <= j < 8 ==> out[j] == vnext[8 * k + j],
    ensures
        spec_step_vals(prev, out, n, k) =~= vnext + Seq::new((128 - 8 * n) as nat, |j: int| 0u64),
{
    let target = vnext + Seq::new((128 - 8 * n) as nat, |j: int| 0u64);
    assert forall|j: int| 0 <= j < 128 implies spec_step_vals(prev, out, n, k)[j] == target[j] by {
        let b = j / 8;
        let wd = j % 8;
        assert(j == 8 * b + wd);
        if j < 8 * (n - 1) {
            let src = 8 * (2 * b + 19 - 2 * n) + wd;
            assert(spec_step_vals(prev, out, n, k)[j] == prev[src]);
            let base = 16 + (128 - 16 * n);
            let m = src - base;
            assert(m == 8 * (2 * b + 1) + wd);
            assert(m / 8 == 2 * b + 1);
            assert(m % 8 == wd);
            assert((m / 8) % 2 == 1);
            assert((m / 8 - 1) / 2 == b);
            assert(prev[src] == spec_interleave(vnext, k)[m]);
            assert(prev[src] == vnext[8 * b + wd]);
            assert(target[j] == vnext[j]);
        } else if j < 8 * n {
            assert(spec_step_vals(prev, out, n, k)[j] == out[j - 8 * (n - 1)]);
            assert(out[j - 8 * (n - 1)] == vnext[8 * (n - 1) + j - 8 * (n - 1)]);
            assert(target[j] == vnext[j]);
        } else {
            assert(spec_step_vals(prev, out, n, k)[j] == 0u64);
            assert(target[j] == 0u64);
        }
    }
}

/// One step of the state machine preserves the level structure.
#[verifier::rlimit(100)]
#[verifier::spinoff_prover]
proof fn lemma_vals_step(leaves: Seq<Seq<u32>>, lp: int)
    requires
        leaves_wf(leaves),
        0 <= lp < 15,
        spec_vals(leaves, lp) == spec_shape_at(leaves, lp),
    ensures
        spec_vals(leaves, lp + 1) == spec_shape_at(leaves, lp + 1),
{
    {
        let r = lp + 1;
        let ll = level_of(lp);
        let k = level_idx_of(lp);
        let n = level_width(ll + 1);
        let lv = spec_level_values(leaves, ll);
        let vnext = spec_level_values(leaves, ll + 1);
        let prev = spec_vals(leaves, lp);
        let out = spec_out(prev);
        lemma_level_values_len(leaves, ll);
        lemma_level_values_len(leaves, ll + 1);
        lemma_vals_bounded(leaves, lp);
        assert(level_width(ll) == 2 * n);
        assert(0 <= k < n);
        assert(lv.len() == 16 * n);
        assert(vnext.len() == 8 * n);
        assert(prev == lv.skip(16 * k) + Seq::new((128 - 16 * n) as nat, |j: int| 0u64)
            + spec_interleave(vnext, k)) by {
            assert(spec_vals_shape(leaves, ll, k) =~= lv.skip(16 * k) + Seq::new(
                (128 - 16 * n) as nat,
                |j: int| 0u64,
            ) + spec_interleave(vnext, k));
        }
        assert(prev.take(8) =~= lv.subrange(16 * k, 16 * k + 8));
        assert(prev.subrange(8, 16) =~= lv.subrange(16 * k + 8, 16 * k + 16));
        lemma_compress_bounded(prev.take(8), prev.subrange(8, 16));
        assert forall|j: int| 0 <= j < 8 implies out[j] == vnext[8 * k + j] by {
            assert(vnext[8 * k + j] == spec_compress(
                lv.subrange(16 * k, 16 * k + 8),
                lv.subrange(16 * k + 8, 16 * k + 16),
            )[j]);
        }
        assert(spec_vals(leaves, r) == spec_step_vals(prev, out, n, k));
        if k == n - 1 {
            lemma_step_unspread(lv, vnext, prev, out, n, k);
            assert(spec_shape_at(leaves, r) =~= vnext + Seq::new(
                (128 - 8 * n) as nat,
                |j: int| 0u64,
            )) by {
                assert(level_width(ll + 1) == n);
                assert(spec_interleave(spec_level_values(leaves, ll + 2), 0) =~= Seq::<
                    u64,
                >::empty());
                assert(spec_level_values(leaves, ll + 1).skip(0) =~= vnext);
            }
            assert(spec_vals(leaves, r) =~= spec_shape_at(leaves, r));
        } else {
            lemma_step_shift(lv, vnext, prev, out, n, k);
            assert(spec_shape_at(leaves, r) == spec_vals_shape(leaves, ll, k + 1));
            assert(spec_vals_shape(leaves, ll, k + 1) =~= lv.skip(16 * (k + 1)) + Seq::new(
                (128 - 16 * n) as nat,
                |j: int| 0u64,
            ) + spec_interleave(vnext, k + 1));
            assert(spec_vals(leaves, r) =~= spec_shape_at(leaves, r));
        }
    }
}

/// The structure of the working values before every step.
proof fn lemma_vals_structure(leaves: Seq<Seq<u32>>, r: int)
    requires
        leaves_wf(leaves),
        0 <= r <= 15,
    ensures
        spec_vals(leaves, r) == spec_shape_at(leaves, r),
    decreases r,
{
    if r == 0 {
        assert(spec_vals(leaves, 0) =~= spec_vals_shape(leaves, 0, 0));
    } else {
        lemma_vals_structure(leaves, r - 1);
        lemma_vals_step(leaves, r - 1);
    }
}

/// Root correctness: the generator's root — and so the tree table's
/// public-input vector — is the Merkle root of the leaves, as defined by
/// pairwise compression level by level.
pub proof fn lemma_generator_root(leaves: Seq<Seq<u32>>)
    requires
        leaves_wf(leaves),
    ensures
        spec_root(leaves) == spec_merkle_root_words(leaves),
{
    lemma_vals_structure(leaves, 15);
    lemma_level_values_len(leaves, 4);
    assert(spec_root(leaves) =~= spec_merkle_root_words(leaves));
}

/// Determinism: two generators run on equal leaves with equal row budgets
/// produce identical traces, row for row — generation has no hidden
/// randomness.
pub proof fn lemma_generator_deterministic(a: Tree5TraceGenerator, b: Tree5TraceGenerator, mr: int)
    requires
        a.generated(mr),
        b.generated(mr),
        a.leaves.deep_view() == b.leaves.deep_view(),
    ensures
        a.trace.0@.len() == b.trace.0@.len(),
        forall|r: int| 0 <= r < mr ==> (#[trigger] a.trace.0@[r])@ == b.trace.0@[r]@,
{
}

/// Row-count invariant: a generated trace has exactly its budgeted row
/// count, which construction forces to be a power of two of at least the
/// sixteen rows the tree needs.
pub proof fn lemma_row_count_invariant(g: Tree5TraceGenerator, budget: int)
    requires
        g.generated(budget),
        spec_is_power_of_two(budget),
        budget >= 16,
    ensures
        g.trace.0@.len() == budget,
        spec_is_power_of_two(g.trace.0@.len() as int),
        g.trace.0@.len() >= 16,
{
}

} // verus!
