//! The orchestrator: owns the fixed table set and lookup instances, and
//! drives the end-to-end pipeline. Proving validates the traces, commits
//! each one, derives one challenge per lookup instance from the shared
//! transcript (seeded by the configuration and every commitment, in table
//! order), builds the running-product columns, and packages the per-table
//! proofs with the opened terminal values. Verification replays the
//! challenge derivation from the commitments in the proof — trusting no
//! value it cannot re-derive — and checks every instance's terminal
//! equality, reporting cross-table mismatches apart from per-table faults.

use vstd::prelude::*;

use crate::config::StarkConfig;
use crate::ctl::{
    compute_ctl_data, copy_lookups, ctl_equiv, ctl_in_range, encode_descriptor,
    spec_encode_descriptor, spec_prod_terms, spec_z, twc_in_range, CrossTableLookup, CtlDescriptor,
};
use crate::error::StarkError;
use crate::field::{all_fe, fe_mul, mul_fe};
use crate::hashing::{digest, spec_digest};
use crate::merkle_stark::{spec_table_width, Merkle5STARK};
use crate::proofs::{AllProof, CtlInstanceOpening, StarkProofWithPublicInputs};
use crate::stark::{window_satisfies, Stark};
use crate::transcript::{
    derive_challenges, flatten, spec_derive_challenges, spec_flatten, CtlChallenge,
};
use crate::util::{copy_vec, is_power_of_two, rows_view, spec_is_power_of_two, traces_view};

verus! {

/// Every element of every row is a canonical field element.
pub open spec fn rows_fe(rows: Seq<Seq<u64>>) -> bool {
    forall|r: int| 0 <= r < rows.len() ==> all_fe(#[trigger] rows[r])
}

pub open spec fn traces_fe(traces: Seq<Seq<Seq<u64>>>) -> bool {
    forall|t: int| 0 <= t < traces.len() ==> rows_fe(#[trigger] traces[t])
}

/// The successor row of a window: the row below, or the row itself at the
/// trace's end, where only the single-row constraints apply.
pub open spec fn window_next(rows: Seq<Seq<u64>>, r: int) -> Seq<u64> {
    if r + 1 < rows.len() {
        rows[r + 1]
    } else {
        rows[r]
    }
}

/// Every two-row window of the trace satisfies the table's constraints.
pub open spec fn all_windows_ok<S: Stark>(s: S, rows: Seq<Seq<u64>>, pis: Seq<u64>) -> bool {
    forall|r: int|
        0 <= r < rows.len() ==> window_satisfies(
            s,
            #[trigger] rows[r],
            window_next(rows, r),
            r == rows.len() - 1,
            pis,
        )
}

/// One table's trace and public inputs are acceptable: the row count is a
/// power of two, every row has the table's width, the public-input vector
/// has the table's length, and every two-row window satisfies the local
/// and transition constraints.
pub open spec fn table_ok<S: Stark>(s: S, rows: Seq<Seq<u64>>, pis: Seq<u64>) -> bool {
    &&& spec_is_power_of_two(rows.len() as int)
    &&& forall|r: int| 0 <= r < rows.len() ==> (#[trigger] rows[r]).len() == s.spec_num_columns()
    &&& pis.len() == s.spec_num_public_inputs()
    &&& all_windows_ok(s, rows, pis)
}

/// The first fault of one table's trace, in check order, or nothing.
pub open spec fn spec_table_err<S: Stark>(
    s: S,
    rows: Seq<Seq<u64>>,
    pis: Seq<u64>,
    t: usize,
) -> Option<StarkError> {
    if !spec_is_power_of_two(rows.len() as int) {
        Option::Some(StarkError::RowCountNotPowerOfTwo { table: t })
    } else if exists|r: int|
        0 <= r < rows.len() && (#[trigger] rows[r]).len() != s.spec_num_columns() {
        Option::Some(StarkError::RowWidthMismatch { table: t })
    } else if pis.len() != s.spec_num_public_inputs() {
        Option::Some(StarkError::PublicInputCountMismatch { table: t })
    } else if !all_windows_ok(s, rows, pis) {
        Option::Some(StarkError::LocalConstraintFailure { table: t })
    } else {
        Option::None
    }
}

/// Validate one table's trace and public inputs, reporting the first
/// fault in check order.
fn check_table<S: Stark>(s: &S, rows: &Vec<Vec<u64>>, pis: &Vec<u64>, t: usize) -> (r: Option<
    StarkError,
>)
    requires
        rows_fe(rows_view(rows@)),
        all_fe(pis@),
    ensures
        r == spec_table_err(*s, rows_view(rows@), pis@, t),
        r is None ==> table_ok(*s, rows_view(rows@), pis@),
{
    let ghost dv = rows_view(rows@);
    if !is_power_of_two(rows.len() as u64) {
        return Option::Some(StarkError::RowCountNotPowerOfTwo { table: t });
    }
    let nc = s.num_columns();
    let mut r: usize = 0;
    while r < rows.len()
        invariant
            r <= rows@.len(),
            dv == rows_view(rows@),
            spec_is_power_of_two(dv.len() as int),
            nc as int == s.spec_num_columns(),
            forall|k: int| 0 <= k < r ==> (#[trigger] dv[k]).len() == s.spec_num_columns(),
        decreases rows@.len() - r,
    {
        if rows[r].len() != nc {
            proof {
                assert(dv[r as int].len() != s.spec_num_columns());
                assert(spec_is_power_of_two(dv.len() as int));
                assert(exists|k: int|
                    0 <= k < dv.len() && (#[trigger] dv[k]).len() != s.spec_num_columns());
                assert(spec_table_err(*s, dv, pis@, t) == Option::Some(
                    StarkError::RowWidthMismatch { table: t },
                ));
            }
            return Option::Some(StarkError::RowWidthMismatch { table: t });
        }
        r = r + 1;
    }
    if pis.len() != s.num_public_inputs() {
        return Option::Some(StarkError::PublicInputCountMismatch { table: t });
    }
    let mut r: usize = 0;
    while r < rows.len()
        invariant
            r <= rows@.len(),
            dv == rows_view(rows@),
            rows_fe(dv),
            all_fe(pis@),
            spec_is_power_of_two(dv.len() as int),
            pis@.len() == s.spec_num_public_inputs(),
            nc as int == s.spec_num_columns(),
            forall|k: int| 0 <= k < rows@.len() ==> (#[trigger] dv[k]).len() == s.spec_num_columns(),
            forall|k: int|
                0 <= k < r ==> window_satisfies(
                    *s,
                    #[trigger] dv[k],
                    window_next(dv, k),
                    k == dv.len() - 1,
                    pis@,
                ),
        decreases rows@.len() - r,
    {
        proof {
            assert(dv[r as int] == rows@[r as int]@);
        }
        let last: bool = r + 1 == rows.len();
        let res = if last {
            s.eval_transition(&rows[r], &rows[r], true, pis)
        } else {
            proof {
                assert(dv[r as int + 1] == rows@[r as int + 1]@);
            }
            s.eval_transition(&rows[r], &rows[r + 1], false, pis)
        };
        proof {
            assert(res@ == s.spec_constraints(dv[r as int], window_next(dv, r as int), last, pis@));
        }
        let mut j: usize = 0;
        let mut bad: bool = false;
        while j < res.len()
            invariant
                j <= res@.len(),
                r < rows@.len(),
                dv == rows_view(rows@),
                last == (r as int == dv.len() - 1),
                res@ == s.spec_constraints(dv[r as int], window_next(dv, r as int), last, pis@),
                !bad ==> forall|m: int| 0 <= m < j ==> res@[m] == 0u64,
                bad ==> !window_satisfies(*s, dv[r as int], window_next(dv, r as int), last, pis@),
            decreases res@.len() - j,
        {
            if res[j] != 0 {
                bad = true;
            }
            j = j + 1;
        }
        if bad {
            proof {
                assert(!window_satisfies(*s, dv[r as int], window_next(dv, r as int), last, pis@));
                assert(!all_windows_ok(*s, dv, pis@));
                assert(spec_is_power_of_two(dv.len() as int));
                assert(spec_table_err(*s, dv, pis@, t) == Option::Some(
                    StarkError::LocalConstraintFailure { table: t },
                ));
            }
            return Option::Some(StarkError::LocalConstraintFailure { table: t });
        }
        assert(window_satisfies(*s, dv[r as int], window_next(dv, r as int), last, pis@));
        r = r + 1;
    }
    Option::None
}

/// A trace's commitment: the digest of its rows, flattened in order.
pub open spec fn spec_commitment(rows: Seq<Seq<u64>>) -> Seq<u64> {
    spec_digest(spec_flatten(rows))
}

/// The challenges both sides derive: one per lookup instance, from the
/// configuration, the descriptor in its enumeration order, and the two
/// trace commitments in table order. Reordering the descriptor between
/// proving and verification changes every challenge.
pub open spec fn spec_challenges_of_commitments(
    config: StarkConfig,
    ctls: Seq<CrossTableLookup>,
    c0: Seq<u64>,
    c1: Seq<u64>,
    n: int,
) -> Seq<CtlChallenge> {
    spec_derive_challenges(config, spec_encode_descriptor(ctls), seq![c0, c1], n)
}

/// The running-product columns of one lookup instance, in side order:
/// every looking side's, then the looked side's.
pub open spec fn spec_instance_zs(
    c: CrossTableLookup,
    ch: CtlChallenge,
    traces: Seq<Seq<Seq<u64>>>,
) -> Seq<Seq<u64>> {
    Seq::new(
        c.looking@.len(),
        |j: int| spec_z(ch, c.looking@[j], traces[c.looking@[j].table as int]),
    ) + seq![spec_z(ch, c.looked, traces[c.looked.table as int])]
}

/// All running-product columns of a proof, instance by instance in
/// descriptor order.
pub open spec fn spec_all_z_columns(
    ctls: Seq<CrossTableLookup>,
    chs: Seq<CtlChallenge>,
    traces: Seq<Seq<Seq<u64>>>,
) -> Seq<Seq<u64>>
    decreases ctls.len(),
{
    if ctls.len() == 0 {
        Seq::empty()
    } else {
        spec_all_z_columns(ctls.drop_last(), chs, traces) + spec_instance_zs(
            ctls.last(),
            chs[ctls.len() - 1],
            traces,
        )
    }
}

/// Everything the prover may not get wrong: accepted inputs.
pub open spec fn spec_prove_ok(
    sys: Merkle5STARK,
    traces: Seq<Seq<Seq<u64>>>,
    pises: Seq<Seq<u64>>,
) -> bool {
    &&& traces.len() == 2
    &&& pises.len() == 2
    &&& table_ok(sys.hash_stark, traces[0], pises[0])
    &&& table_ok(sys.tree_stark, traces[1], pises[1])
}

/// The honest proof of given traces: every field of the proof object is
/// pinned to the traces, the configuration and the descriptor.
pub open spec fn spec_honest_proof(
    sys: Merkle5STARK,
    config: StarkConfig,
    traces: Seq<Seq<Seq<u64>>>,
    pises: Seq<Seq<u64>>,
    proof: AllProof,
) -> bool {
    let n = sys.cross_table_lookups@.len() as int;
    let chs = spec_challenges_of_commitments(
        config,
        sys.cross_table_lookups@,
        spec_commitment(traces[0]),
        spec_commitment(traces[1]),
        n,
    );
    &&& proof.proofs@.len() == 2
    &&& forall|t: int|
        0 <= t < 2 ==> (#[trigger] proof.proofs@[t]).trace_commitment@ == spec_commitment(traces[t])
            && proof.proofs@[t].num_rows as int == traces[t].len()
            && proof.proofs@[t].public_inputs@ == pises[t]
    &&& proof.ctl_openings@.len() == n
    &&& proof.ctl_zs_commitment@ == spec_commitment(
        spec_all_z_columns(sys.cross_table_lookups@, chs, traces),
    )
    &&& forall|i: int|
        0 <= i < n ==> {
            let c = sys.cross_table_lookups@[i];
            let o = #[trigger] proof.ctl_openings@[i];
            &&& o.challenge == chs[i]
            &&& o.looking_z_finals@.len() == c.looking@.len()
            &&& forall|j: int|
                0 <= j < c.looking@.len() ==> (#[trigger] o.looking_z_finals@[j]) == spec_prod_terms(
                    chs[i],
                    c.looking@[j],
                    traces[c.looking@[j].table as int],
                )
            &&& o.looked_z_final == spec_prod_terms(chs[i], c.looked, traces[c.looked.table as int])
        }
}

/// The product of a list of terminal values.
pub open spec fn spec_fold_mul(s: Seq<u64>) -> u64
    decreases s.len(),
{
    if s.len() == 0 {
        1u64
    } else {
        fe_mul(spec_fold_mul(s.drop_last()), s.last())
    }
}

/// What verification accepts: well-shaped per-table proofs, challenges
/// that replay from the commitments in descriptor order, and, for every
/// instance, the looked side's terminal value equal to the product of the
/// looking sides' terminal values. The per-table check here is the shape
/// of the proof and the replayed transcript; checking each table's opened
/// values against its commitments (the low-degree test) belongs to the
/// out-of-scope commitment layer, which consumes the commitments and
/// openings this proof carries.
pub open spec fn spec_verify_ok(sys: Merkle5STARK, config: StarkConfig, proof: AllProof) -> bool {
    let n = sys.cross_table_lookups@.len() as int;
    let chs = spec_challenges_of_commitments(
        config,
        sys.cross_table_lookups@,
        proof.proofs@[0].trace_commitment@,
        proof.proofs@[1].trace_commitment@,
        n,
    );
    &&& sys.wf()
    &&& proof.proofs@.len() == 2
    &&& proof.ctl_openings@.len() == n
    &&& proof.ctl_zs_commitment@.len() == 4
    &&& forall|t: int|
        0 <= t < 2 ==> (#[trigger] proof.proofs@[t]).trace_commitment@.len() == 4
            && spec_is_power_of_two(proof.proofs@[t].num_rows as int)
    &&& proof.proofs@[0].public_inputs@.len() == sys.hash_stark.spec_num_public_inputs()
    &&& proof.proofs@[1].public_inputs@.len() == sys.tree_stark.spec_num_public_inputs()
    &&& forall|i: int|
        0 <= i < n ==> {
            let c = sys.cross_table_lookups@[i];
            let o = #[trigger] proof.ctl_openings@[i];
            &&& o.challenge == chs[i]
            &&& o.looking_z_finals@.len() == c.looking@.len()
            &&& o.looked_z_final == spec_fold_mul(o.looking_z_finals@)
        }
}

/// The first failing lookup instance at or after `i`, in descriptor
/// order, with its error: a recorded challenge that does not replay, a
/// side count that does not match the descriptor, or a terminal-product
/// mismatch.
pub open spec fn spec_first_instance_err(
    sys: Merkle5STARK,
    chs: Seq<CtlChallenge>,
    proof: AllProof,
    i: int,
) -> Option<StarkError>
    decreases sys.cross_table_lookups@.len() - i,
{
    let n = sys.cross_table_lookups@.len() as int;
    if i < 0 || i >= n {
        Option::None
    } else {
        let c = sys.cross_table_lookups@[i];
        let o = proof.ctl_openings@[i];
        if o.challenge != chs[i] {
            Option::Some(StarkError::ChallengeMismatch { instance: i as usize })
        } else if o.looking_z_finals@.len() != c.looking@.len() {
            Option::Some(StarkError::MalformedProof)
        } else if o.looked_z_final != spec_fold_mul(o.looking_z_finals@) {
            Option::Some(StarkError::CtlTerminalMismatch { instance: i as usize })
        } else {
            spec_first_instance_err(sys, chs, proof, i + 1)
        }
    }
}

/// The first fault of a proof against this system, in check order, or
/// nothing when verification accepts.
pub open spec fn spec_verify_err(sys: Merkle5STARK, config: StarkConfig, proof: AllProof) -> Option<
    StarkError,
> {
    let n = sys.cross_table_lookups@.len() as int;
    let chs = spec_challenges_of_commitments(
        config,
        sys.cross_table_lookups@,
        proof.proofs@[0].trace_commitment@,
        proof.proofs@[1].trace_commitment@,
        n,
    );
    if !sys.wf() {
        Option::Some(StarkError::MalformedDescriptor)
    } else if proof.proofs@.len() != 2 {
        Option::Some(StarkError::TableCountMismatch)
    } else if proof.ctl_openings@.len() != n {
        Option::Some(StarkError::MalformedProof)
    } else if proof.ctl_zs_commitment@.len() != 4 {
        Option::Some(StarkError::MalformedProof)
    } else if proof.proofs@[0].trace_commitment@.len() != 4 || proof.proofs@[1].trace_commitment@.len() != 4 {
        Option::Some(StarkError::MalformedProof)
    } else if !spec_is_power_of_two(proof.proofs@[0].num_rows as int) {
        Option::Some(StarkError::RowCountNotPowerOfTwo { table: 0 })
    } else if !spec_is_power_of_two(proof.proofs@[1].num_rows as int) {
        Option::Some(StarkError::RowCountNotPowerOfTwo { table: 1 })
    } else if proof.proofs@[0].public_inputs@.len() != sys.hash_stark.spec_num_public_inputs() {
        Option::Some(StarkError::PublicInputCountMismatch { table: 0 })
    } else if proof.proofs@[1].public_inputs@.len() != sys.tree_stark.spec_num_public_inputs() {
        Option::Some(StarkError::PublicInputCountMismatch { table: 1 })
    } else {
        spec_first_instance_err(sys, chs, proof, 0)
    }
}

/// When the first `i` instances pass their checks, the first failing
/// instance overall is the first failing one at or after `i`.
proof fn lemma_first_instance_skip(
    sys: Merkle5STARK,
    chs: Seq<CtlChallenge>,
    proof: AllProof,
    i: int,
)
    requires
        0 <= i <= sys.cross_table_lookups@.len(),
        proof.ctl_openings@.len() == sys.cross_table_lookups@.len(),
        chs.len() == sys.cross_table_lookups@.len(),
        forall|m: int|
            0 <= m < i ==> {
                let c = sys.cross_table_lookups@[m];
                let o = #[trigger] proof.ctl_openings@[m];
                &&& o.challenge == chs[m]
                &&& o.looking_z_finals@.len() == c.looking@.len()
                &&& o.looked_z_final == spec_fold_mul(o.looking_z_finals@)
            },
    ensures
        spec_first_instance_err(sys, chs, proof, 0) == spec_first_instance_err(sys, chs, proof, i),
    decreases i,
{
    if i > 0 {
        lemma_first_instance_skip(sys, chs, proof, i - 1);
    }
}

/// The interface of a multi-table STARK that uses cross-table lookups: it
/// fixes the table count and hands out the descriptor whose enumeration
/// order decides how transcript challenges are bound to instances.
pub trait CtlStark: Sized {
    spec fn spec_num_tables(&self) -> int;

    /// What the constructor guarantees of the system it builds.
    spec fn spec_new_ok(&self) -> bool;

    /// What the descriptor accessor guarantees of the descriptor it hands
    /// out, relative to the system it was asked of.
    spec fn spec_descriptor_ok(&self, d: CtlDescriptor) -> bool;

    fn new() -> (r: Self)
        ensures
            r.spec_new_ok(),
    ;

    fn num_tables(&self) -> (n: usize)
        ensures
            n as int == self.spec_num_tables(),
    ;

    fn get_ctl_descriptor(&self) -> (d: CtlDescriptor)
        ensures
            self.spec_descriptor_ok(d),
    ;
}

impl CtlStark for Merkle5STARK {
    open spec fn spec_num_tables(&self) -> int {
        2
    }

    /// A fresh system is well formed and holds exactly the two lookups in
    /// their canonical order.
    open spec fn spec_new_ok(&self) -> bool {
        &&& self.wf()
        &&& self.cross_table_lookups@.len() == 2
        &&& crate::merkle_stark::is_ctl_hash(self.cross_table_lookups@[0])
        &&& crate::merkle_stark::is_ctl_tree(self.cross_table_lookups@[1])
    }

    /// The descriptor handed out holds this system's own instances — the
    /// same content, in the same order. Two separately built values of a
    /// `Vec`-bearing type are never provably equal in the logic, so the
    /// pinning goes through the structural-equality predicate, which
    /// compares every field.
    open spec fn spec_descriptor_ok(&self, d: CtlDescriptor) -> bool {
        &&& d.instances@.len() == self.cross_table_lookups@.len()
        &&& forall|i: int|
            0 <= i < self.cross_table_lookups@.len() ==> ctl_equiv(
                #[trigger] d.instances@[i],
                self.cross_table_lookups@[i],
            )
    }

    fn new() -> (r: Self) {
        Merkle5STARK::default()
    }

    fn num_tables(&self) -> (n: usize) {
        2
    }

    /// This system's descriptor, in its fixed enumeration order.
    fn get_ctl_descriptor(&self) -> (d: CtlDescriptor) {
        CtlDescriptor { instances: copy_lookups(&self.cross_table_lookups) }
    }
}

/// The end-to-end pipeline of a multi-table STARK. Proving consumes
/// row-major traces, the generators' native form; the column-major
/// conversion (`into_polynomial_values`) serves only the out-of-scope
/// commitment layer.
pub trait AllStark: CtlStark {
    spec fn spec_prove_pre(&self, traces: Seq<Seq<Seq<u64>>>, pises: Seq<Seq<u64>>) -> bool;

    spec fn spec_prove_post(
        &self,
        config: StarkConfig,
        traces: Seq<Seq<Seq<u64>>>,
        pises: Seq<Seq<u64>>,
        r: Result<AllProof, StarkError>,
    ) -> bool;

    spec fn spec_verify_pre(&self) -> bool;

    spec fn spec_verify_post(&self, config: StarkConfig, proof: AllProof, r: Result<
        (),
        StarkError,
    >) -> bool;

    fn prove(
        &self,
        config: &StarkConfig,
        traces: &Vec<Vec<Vec<u64>>>,
        public_inputses: &Vec<Vec<u64>>,
    ) -> (r: Result<AllProof, StarkError>)
        requires
            self.spec_prove_pre(traces_view(traces@), rows_view(public_inputses@)),
        ensures
            self.spec_prove_post(*config, traces_view(traces@), rows_view(public_inputses@), r),
    ;

    fn verify(&self, config: &StarkConfig, proof: &AllProof) -> (r: Result<(), StarkError>)
        requires
            self.spec_verify_pre(),
        ensures
            self.spec_verify_post(*config, *proof, r),
    ;
}

impl AllStark for Merkle5STARK {
    open spec fn spec_prove_pre(&self, traces: Seq<Seq<Seq<u64>>>, pises: Seq<Seq<u64>>) -> bool {
        &&& traces_fe(traces)
        &&& rows_fe(pises)
    }

    open spec fn spec_prove_post(
        &self,
        config: StarkConfig,
        traces: Seq<Seq<Seq<u64>>>,
        pises: Seq<Seq<u64>>,
        r: Result<AllProof, StarkError>,
    ) -> bool {
        &&& (r is Ok) == (self.wf() && spec_prove_ok(*self, traces, pises))
        &&& r is Ok ==> spec_honest_proof(*self, config, traces, pises, r->Ok_0)
        &&& !self.wf() ==> r == Result::<AllProof, StarkError>::Err(StarkError::MalformedDescriptor)
        &&& (self.wf() && (traces.len() != 2 || pises.len() != 2)) ==> r == Result::<
            AllProof,
            StarkError,
        >::Err(StarkError::TableCountMismatch)
        &&& (self.wf() && traces.len() == 2 && pises.len() == 2 && spec_table_err(
            self.hash_stark,
            traces[0],
            pises[0],
            0,
        ) is Some) ==> r == Result::<AllProof, StarkError>::Err(
            spec_table_err(self.hash_stark, traces[0], pises[0], 0)->0,
        )
        &&& (self.wf() && traces.len() == 2 && pises.len() == 2 && spec_table_err(
            self.hash_stark,
            traces[0],
            pises[0],
            0,
        ) is None && spec_table_err(self.tree_stark, traces[1], pises[1], 1) is Some) ==> r
            == Result::<AllProof, StarkError>::Err(
            spec_table_err(self.tree_stark, traces[1], pises[1], 1)->0,
        )
    }

    open spec fn spec_verify_pre(&self) -> bool {
        true
    }

    open spec fn spec_verify_post(&self, config: StarkConfig, proof: AllProof, r: Result<
        (),
        StarkError,
    >) -> bool {
        &&& (r is Ok) == spec_verify_ok(*self, config, proof)
        &&& r is Err ==> spec_verify_err(*self, config, proof) == Option::Some(r->Err_0)
    }

    fn prove(
        &self,
        config: &StarkConfig,
        traces: &Vec<Vec<Vec<u64>>>,
        public_inputses: &Vec<Vec<u64>>,
    ) -> (r: Result<AllProof, StarkError>) {
        let ghost tv = traces_view(traces@);
        let ghost pv = rows_view(public_inputses@);
        if !self.descriptor_wf_check() {
            return Result::Err(StarkError::MalformedDescriptor);
        }
        if traces.len() != 2 || public_inputses.len() != 2 {
            return Result::Err(StarkError::TableCountMismatch);
        }
        proof {
            assert(tv[0] == rows_view(traces@[0]@));
            assert(tv[1] == rows_view(traces@[1]@));
            assert(pv[0] == public_inputses@[0]@);
            assert(pv[1] == public_inputses@[1]@);
            assert forall|r: int| 0 <= r < tv[0].len() implies all_fe(#[trigger] tv[0][r]) by {
                assert(tv[0][r] == rows_view(traces@[0]@)[r]);
            }
            assert forall|r: int| 0 <= r < tv[1].len() implies all_fe(#[trigger] tv[1][r]) by {
                assert(tv[1][r] == rows_view(traces@[1]@)[r]);
            }
        }
        let e0 = check_table(&self.hash_stark, &traces[0], &public_inputses[0], 0);
        if let Option::Some(e) = e0 {
            return Result::Err(e);
        }
        let e1 = check_table(&self.tree_stark, &traces[1], &public_inputses[1], 1);
        if let Option::Some(e) = e1 {
            return Result::Err(e);
        }
        let flat0 = flatten(&traces[0]);
        let c0 = digest(&flat0);
        let flat1 = flatten(&traces[1]);
        let c1 = digest(&flat1);
        let mut commits: Vec<Vec<u64>> = Vec::new();
        commits.push(copy_vec(&c0));
        commits.push(copy_vec(&c1));
        let n = self.cross_table_lookups.len();
        let binding = encode_descriptor(&self.cross_table_lookups);
        let challenges = derive_challenges(config, &binding, &commits, n);
        let ghost chs = spec_challenges_of_commitments(
            *config,
            self.cross_table_lookups@,
            spec_commitment(tv[0]),
            spec_commitment(tv[1]),
            n as int,
        );
        proof {
            assert(rows_view(commits@) =~= seq![spec_commitment(tv[0]), spec_commitment(tv[1])]);
            assert(challenges@ == chs);
        }
        let mut ctl_openings: Vec<CtlInstanceOpening> = Vec::new();
        let mut all_zs: Vec<Vec<u64>> = Vec::new();
        let mut i: usize = 0;
        while i < n
            invariant
                i <= n,
                n == self.cross_table_lookups@.len(),
                traces@.len() == 2,
                tv == traces_view(traces@),
                self.wf(),
                table_ok(self.hash_stark, tv[0], pv[0]),
                table_ok(self.tree_stark, tv[1], pv[1]),
                challenges@ == chs,
                challenges@.len() == n,
                rows_view(all_zs@) == spec_all_z_columns(
                    self.cross_table_lookups@.take(i as int),
                    chs,
                    tv,
                ),
                ctl_openings@.len() == i,
                forall|m: int|
                    0 <= m < i ==> {
                        let c = self.cross_table_lookups@[m];
                        let o = #[trigger] ctl_openings@[m];
                        &&& o.challenge == chs[m]
                        &&& o.looking_z_finals@.len() == c.looking@.len()
                        &&& forall|j: int|
                            0 <= j < c.looking@.len() ==> (#[trigger] o.looking_z_finals@[j])
                                == spec_prod_terms(
                                chs[m],
                                c.looking@[j],
                                tv[c.looking@[j].table as int],
                            )
                        &&& o.looked_z_final == spec_prod_terms(
                            chs[m],
                            c.looked,
                            tv[c.looked.table as int],
                        )
                    },
            decreases n - i,
        {
            let c = &self.cross_table_lookups[i];
            proof {
                assert(Merkle5STARK::ctl_wf(*c));
                assert(tv[0].len() == traces@[0]@.len());
                assert(tv[1].len() == traces@[1]@.len());
                assert forall|r: int|
                    0 <= r < tv[c.looked.table as int].len() implies twc_in_range(
                    c.looked,
                    (#[trigger] tv[c.looked.table as int][r]).len() as int,
                ) by {
                    let t = c.looked.table as int;
                    assert(tv[t][r].len() == spec_table_width(t));
                }
                assert forall|j: int, r: int|
                    0 <= j < c.looking@.len() && 0 <= r < tv[(#[trigger] c.looking@[j]).table as int].len()
                    implies twc_in_range(
                    c.looking@[j],
                    (#[trigger] tv[c.looking@[j].table as int][r]).len() as int,
                ) by {
                    let t = c.looking@[j].table as int;
                    assert(tv[t][r].len() == spec_table_width(t));
                }
                assert(ctl_in_range(*c, tv));
            }
            let d = compute_ctl_data(c, &challenges[i], traces);
            let ghost pre_zs = rows_view(all_zs@);
            let mut looking_z_finals: Vec<u64> = Vec::new();
            let mut j: usize = 0;
            while j < d.looking_zs.len()
                invariant
                    j <= d.looking_zs@.len(),
                    i < n,
                    n == self.cross_table_lookups@.len(),
                    c == &self.cross_table_lookups@[i as int],
                    tv == traces_view(traces@),
                    table_ok(self.hash_stark, tv[0], pv[0]),
                    table_ok(self.tree_stark, tv[1], pv[1]),
                    Merkle5STARK::ctl_wf(*c),
                    d.challenge == chs[i as int],
                    d.looking_zs@.len() == c.looking@.len(),
                    forall|m: int|
                        0 <= m < c.looking@.len() ==> (#[trigger] d.looking_zs@[m])@ == spec_z(
                            chs[i as int],
                            c.looking@[m],
                            tv[c.looking@[m].table as int],
                        ),
                    looking_z_finals@.len() == j,
                    forall|m: int|
                        0 <= m < j ==> (#[trigger] looking_z_finals@[m]) == spec_prod_terms(
                            chs[i as int],
                            c.looking@[m],
                            tv[c.looking@[m].table as int],
                        ),
                    all_zs@.len() == pre_zs.len() + j,
                    rows_view(all_zs@) == pre_zs + spec_instance_zs(*c, chs[i as int], tv).take(
                        j as int,
                    ),
                decreases d.looking_zs@.len() - j,
            {
                let z = &d.looking_zs[j];
                proof {
                    let t = c.looking@[j as int].table as int;
                    assert(spec_is_power_of_two(tv[t].len() as int));
                    assert(tv[t].len() >= 1);
                    assert(tv[t].take(tv[t].len() as int) =~= tv[t]);
                }
                looking_z_finals.push(z[z.len() - 1]);
                let zc = copy_vec(z);
                all_zs.push(zc);
                proof {
                    let inst = spec_instance_zs(*c, chs[i as int], tv);
                    assert(inst.len() == c.looking@.len() + 1);
                    assert(inst[j as int] == spec_z(
                        chs[i as int],
                        c.looking@[j as int],
                        tv[c.looking@[j as int].table as int],
                    ));
                    assert(zc@ == inst[j as int]);
                    let lhs = rows_view(all_zs@);
                    let rhs = pre_zs + inst.take(j as int + 1);
                    assert(inst.take(j as int + 1).len() == j + 1);
                    assert(inst.take(j as int).len() == j as int);
                    assert(all_zs@.len() == pre_zs.len() + j + 1);
                    assert(lhs.len() == rhs.len());
                    assert forall|m: int| 0 <= m < lhs.len() implies lhs[m] == rhs[m] by {
                        if m < pre_zs.len() + j {
                            assert(lhs[m] == (pre_zs + inst.take(j as int))[m]);
                        } else {
                            assert(all_zs@[m] == zc);
                        }
                    }
                    assert(lhs =~= rhs);
                }
                j = j + 1;
            }
            proof {
                let t = c.looked.table as int;
                assert(spec_is_power_of_two(tv[t].len() as int));
                assert(tv[t].len() >= 1);
                assert(tv[t].take(tv[t].len() as int) =~= tv[t]);
            }
            let lz = &d.looked_z;
            let looked_z_final = lz[lz.len() - 1];
            let lzc = copy_vec(lz);
            all_zs.push(lzc);
            proof {
                let inst = spec_instance_zs(*c, chs[i as int], tv);
                assert(inst.len() == c.looking@.len() + 1);
                assert(inst[c.looking@.len() as int] == spec_z(
                    chs[i as int],
                    c.looked,
                    tv[c.looked.table as int],
                ));
                assert(lzc@ == inst[c.looking@.len() as int]);
                let lhs = rows_view(all_zs@);
                let rhs = pre_zs + inst;
                assert(inst.take(c.looking@.len() as int) =~= inst.drop_last());
                assert(lhs.len() == rhs.len());
                assert forall|m: int| 0 <= m < lhs.len() implies lhs[m] == rhs[m] by {
                    if m < pre_zs.len() + c.looking@.len() {
                        assert(lhs[m] == (pre_zs + inst.take(c.looking@.len() as int))[m]);
                    } else {
                        assert(all_zs@[m] == lzc);
                    }
                }
                assert(lhs =~= rhs);
                assert(self.cross_table_lookups@.take(i as int + 1).drop_last()
                    =~= self.cross_table_lookups@.take(i as int));
                assert(self.cross_table_lookups@.take(i as int + 1).last()
                    == self.cross_table_lookups@[i as int]);
            }
            ctl_openings.push(
                CtlInstanceOpening { challenge: challenges[i], looking_z_finals, looked_z_final },
            );
            i = i + 1;
        }
        proof {
            assert(self.cross_table_lookups@.take(n as int) =~= self.cross_table_lookups@);
        }
        let zs_flat = flatten(&all_zs);
        let ctl_zs_commitment = digest(&zs_flat);
        let mut proofs: Vec<StarkProofWithPublicInputs> = Vec::new();
        proofs.push(
            StarkProofWithPublicInputs {
                trace_commitment: c0,
                num_rows: traces[0].len(),
                public_inputs: copy_vec(&public_inputses[0]),
            },
        );
        proofs.push(
            StarkProofWithPublicInputs {
                trace_commitment: c1,
                num_rows: traces[1].len(),
                public_inputs: copy_vec(&public_inputses[1]),
            },
        );
        Result::Ok(AllProof { proofs, ctl_openings, ctl_zs_commitment })
    }

    fn verify(&self, config: &StarkConfig, proof: &AllProof) -> (r: Result<(), StarkError>) {
        if !self.descriptor_wf_check() {
            return Result::Err(StarkError::MalformedDescriptor);
        }
        if proof.proofs.len() != 2 {
            return Result::Err(StarkError::TableCountMismatch);
        }
        let n = self.cross_table_lookups.len();
        if proof.ctl_openings.len() != n {
            return Result::Err(StarkError::MalformedProof);
        }
        if proof.ctl_zs_commitment.len() != 4 {
            return Result::Err(StarkError::MalformedProof);
        }
        if proof.proofs[0].trace_commitment.len() != 4 || proof.proofs[1].trace_commitment.len()
            != 4 {
            return Result::Err(StarkError::MalformedProof);
        }
        if !is_power_of_two(proof.proofs[0].num_rows as u64) {
            return Result::Err(StarkError::RowCountNotPowerOfTwo { table: 0 });
        }
        if !is_power_of_two(proof.proofs[1].num_rows as u64) {
            return Result::Err(StarkError::RowCountNotPowerOfTwo { table: 1 });
        }
        if proof.proofs[0].public_inputs.len() != self.hash_stark.num_public_inputs() {
            return Result::Err(StarkError::PublicInputCountMismatch { table: 0 });
        }
        if proof.proofs[1].public_inputs.len() != self.tree_stark.num_public_inputs() {
            return Result::Err(StarkError::PublicInputCountMismatch { table: 1 });
        }
        let mut commits: Vec<Vec<u64>> = Vec::new();
        commits.push(copy_vec(&proof.proofs[0].trace_commitment));
        commits.push(copy_vec(&proof.proofs[1].trace_commitment));
        let binding = encode_descriptor(&self.cross_table_lookups);
        let challenges = derive_challenges(config, &binding, &commits, n);
        let ghost chs = spec_challenges_of_commitments(
            *config,
            self.cross_table_lookups@,
            proof.proofs@[0].trace_commitment@,
            proof.proofs@[1].trace_commitment@,
            n as int,
        );
        proof {
            assert(rows_view(commits@) =~= seq![
                proof.proofs@[0].trace_commitment@,
                proof.proofs@[1].trace_commitment@,
            ]);
            assert(challenges@ == chs);
        }
        let mut i: usize = 0;
        while i < n
            invariant
                i <= n,
                n == self.cross_table_lookups@.len(),
                self.wf(),
                proof.proofs@.len() == 2,
                proof.ctl_openings@.len() == n,
                proof.ctl_zs_commitment@.len() == 4,
                proof.proofs@[0].trace_commitment@.len() == 4,
                proof.proofs@[1].trace_commitment@.len() == 4,
                spec_is_power_of_two(proof.proofs@[0].num_rows as int),
                spec_is_power_of_two(proof.proofs@[1].num_rows as int),
                proof.proofs@[0].public_inputs@.len() == self.hash_stark.spec_num_public_inputs(),
                proof.proofs@[1].public_inputs@.len() == self.tree_stark.spec_num_public_inputs(),
                challenges@ == chs,
                challenges@.len() == n,
                chs == spec_challenges_of_commitments(
                    *config,
                    self.cross_table_lookups@,
                    proof.proofs@[0].trace_commitment@,
                    proof.proofs@[1].trace_commitment@,
                    n as int,
                ),
                forall|m: int|
                    0 <= m < i ==> {
                        let c = self.cross_table_lookups@[m];
                        let o = #[trigger] proof.ctl_openings@[m];
                        &&& o.challenge == chs[m]
                        &&& o.looking_z_finals@.len() == c.looking@.len()
                        &&& o.looked_z_final == spec_fold_mul(o.looking_z_finals@)
                    },
            decreases n - i,
        {
            let c = &self.cross_table_lookups[i];
            let o = &proof.ctl_openings[i];
            if !(o.challenge == challenges[i]) {
                proof {
                    assert(proof.ctl_openings@[i as int].challenge != chs[i as int]);
                    if spec_verify_ok(*self, *config, *proof) {
                        assert(proof.ctl_openings@[i as int].challenge == chs[i as int]);
                        assert(false);
                    }
                    lemma_first_instance_skip(*self, chs, *proof, i as int);
                    assert(spec_first_instance_err(*self, chs, *proof, i as int) == Option::Some(
                        StarkError::ChallengeMismatch { instance: i },
                    ));
                }
                return Result::Err(StarkError::ChallengeMismatch { instance: i });
            }
            if o.looking_z_finals.len() != c.looking.len() {
                proof {
                    if spec_verify_ok(*self, *config, *proof) {
                        assert(proof.ctl_openings@[i as int].looking_z_finals@.len()
                            == self.cross_table_lookups@[i as int].looking@.len());
                        assert(false);
                    }
                    lemma_first_instance_skip(*self, chs, *proof, i as int);
                    assert(spec_first_instance_err(*self, chs, *proof, i as int) == Option::Some(
                        StarkError::MalformedProof,
                    ));
                }
                return Result::Err(StarkError::MalformedProof);
            }
            let mut prod: u64 = 1;
            let mut j: usize = 0;
            while j < o.looking_z_finals.len()
                invariant
                    j <= o.looking_z_finals@.len(),
                    prod == spec_fold_mul(o.looking_z_finals@.take(j as int)),
                decreases o.looking_z_finals@.len() - j,
            {
                prod = mul_fe(prod, o.looking_z_finals[j]);
                proof {
                    assert(o.looking_z_finals@.take(j + 1).drop_last() =~= o.looking_z_finals@.take(
                        j as int,
                    ));
                    assert(o.looking_z_finals@.take(j + 1).last() == o.looking_z_finals@[j as int]);
                }
                j = j + 1;
            }
            assert(o.looking_z_finals@.take(o.looking_z_finals@.len() as int)
                =~= o.looking_z_finals@);
            if o.looked_z_final != prod {
                proof {
                    assert(proof.ctl_openings@[i as int].looked_z_final != spec_fold_mul(
                        proof.ctl_openings@[i as int].looking_z_finals@,
                    ));
                    if spec_verify_ok(*self, *config, *proof) {
                        assert(proof.ctl_openings@[i as int].looked_z_final == spec_fold_mul(
                            proof.ctl_openings@[i as int].looking_z_finals@,
                        ));
                        assert(false);
                    }
                    lemma_first_instance_skip(*self, chs, *proof, i as int);
                    assert(spec_first_instance_err(*self, chs, *proof, i as int) == Option::Some(
                        StarkError::CtlTerminalMismatch { instance: i },
                    ));
                }
                return Result::Err(StarkError::CtlTerminalMismatch { instance: i });
            }
            i = i + 1;
        }
        Result::Ok(())
    }
}

} // verus!
