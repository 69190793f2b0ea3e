//! Cross-table lookups: the descriptor (which column tuples of which
//! tables must agree), the running-product engine that turns one lookup
//! instance and one transcript challenge into per-table Z columns, and the
//! clear-text multiset oracle `check_ctls`.
//!
//! The accumulator scheme is a multiplicative grand product: every
//! participating row contributes the factor `gamma + rlc(alpha, tuple)`,
//! a filtered-out row contributes 1, and one lookup holds exactly when the
//! looked side's terminal product equals the product of the looking sides'
//! terminal products — which this module proves follows from multiset
//! equality of the filtered tuples.

use vstd::multiset::Multiset;
use vstd::prelude::*;

use crate::error::StarkError;
use crate::field::{add_fe, fe_add, fe_mul, is_fe, mul_fe, FIELD_ORDER};
use crate::transcript::CtlChallenge;
use crate::util::{rows_view, traces_view};

verus! {

/// A reference to data of one table's row: either one column, or a linear
/// combination of columns plus a constant (so two tables can expose
/// differently laid out data under one comparison key).
#[derive(Clone)]
pub enum ColumnRef {
    Single(usize),
    Linear(Vec<(usize, u64)>, u64),
}

pub open spec fn col_in_range(c: ColumnRef, width: int) -> bool {
    match c {
        ColumnRef::Single(i) => (i as int) < width,
        ColumnRef::Linear(ts, k) => forall|j: int|
            0 <= j < ts@.len() ==> ((#[trigger] ts@[j]).0 as int) < width,
    }
}

pub open spec fn spec_eval_terms(ts: Seq<(usize, u64)>, row: Seq<u64>) -> u64
    decreases ts.len(),
{
    if ts.len() == 0 {
        0u64
    } else {
        fe_add(spec_eval_terms(ts.drop_last(), row), fe_mul(ts.last().1, row[ts.last().0 as int]))
    }
}

/// The value a column reference takes on a row.
pub open spec fn spec_eval_col(c: ColumnRef, row: Seq<u64>) -> u64 {
    match c {
        ColumnRef::Single(i) => row[i as int],
        ColumnRef::Linear(ts, k) => fe_add(spec_eval_terms(ts@, row), k),
    }
}

pub fn eval_col(c: &ColumnRef, row: &Vec<u64>) -> (v: u64)
    requires
        col_in_range(*c, row@.len() as int),
    ensures
        v == spec_eval_col(*c, row@),
{
    match c {
        ColumnRef::Single(i) => row[*i],
        ColumnRef::Linear(ts, k) => {
            let mut acc: u64 = 0;
            let mut j: usize = 0;
            while j < ts.len()
                invariant
                    j <= ts@.len(),
                    forall|m: int| 0 <= m < ts@.len() ==> ((#[trigger] ts@[m]).0 as int) < row@.len(),
                    acc == spec_eval_terms(ts@.take(j as int), row@),
                decreases ts@.len() - j,
            {
                let (i, coef) = ts[j];
                acc = add_fe(acc, mul_fe(coef, row[i]));
                proof {
                    assert(ts@.take(j + 1).drop_last() =~= ts@.take(j as int));
                    assert(ts@.take(j + 1).last() == ts@[j as int]);
                }
                j = j + 1;
            }
            assert(ts@.take(ts@.len() as int) =~= ts@);
            add_fe(acc, *k)
        },
    }
}

/// One side of one lookup: a table, the ordered column references whose
/// tuple enters the lookup, and an optional filter; rows where the filter
/// is zero stay out, and an absent filter admits every row.
#[derive(Clone)]
pub struct TableWithColumns {
    pub table: usize,
    pub columns: Vec<ColumnRef>,
    pub filter: Option<ColumnRef>,
}

impl TableWithColumns {
    pub fn new(table: usize, columns: Vec<ColumnRef>, filter: Option<ColumnRef>) -> (t:
        TableWithColumns)
        ensures
            t.table == table,
            t.columns == columns,
            t.filter == filter,
    {
        TableWithColumns { table, columns, filter }
    }
}

pub open spec fn twc_in_range(twc: TableWithColumns, width: int) -> bool {
    &&& forall|j: int| 0 <= j < twc.columns@.len() ==> col_in_range(#[trigger] twc.columns@[j], width)
    &&& match twc.filter {
        Option::None => true,
        Option::Some(c) => col_in_range(c, width),
    }
}

/// The column tuple a row exposes to a lookup.
pub open spec fn spec_row_tuple(twc: TableWithColumns, row: Seq<u64>) -> Seq<u64> {
    twc.columns@.map_values(|c: ColumnRef| spec_eval_col(c, row))
}

/// The filter value of a row; an absent filter admits every row.
pub open spec fn spec_filter_val(twc: TableWithColumns, row: Seq<u64>) -> u64 {
    match twc.filter {
        Option::None => 1u64,
        Option::Some(c) => spec_eval_col(c, row),
    }
}

pub fn row_tuple(twc: &TableWithColumns, row: &Vec<u64>) -> (t: Vec<u64>)
    requires
        twc_in_range(*twc, row@.len() as int),
    ensures
        t@ == spec_row_tuple(*twc, row@),
{
    let mut t: Vec<u64> = Vec::new();
    let mut j: usize = 0;
    while j < twc.columns.len()
        invariant
            j <= twc.columns@.len(),
            twc_in_range(*twc, row@.len() as int),
            t@.len() == j,
            forall|m: int| 0 <= m < j ==> (#[trigger] t@[m]) == spec_eval_col(twc.columns@[m], row@),
        decreases twc.columns@.len() - j,
    {
        t.push(eval_col(&twc.columns[j], row));
        j = j + 1;
    }
    assert(t@ =~= spec_row_tuple(*twc, row@));
    t
}

pub fn filter_val(twc: &TableWithColumns, row: &Vec<u64>) -> (v: u64)
    requires
        twc_in_range(*twc, row@.len() as int),
    ensures
        v == spec_filter_val(*twc, row@),
{
    match &twc.filter {
        Option::None => 1u64,
        Option::Some(c) => eval_col(c, row),
    }
}

/// The tuples of the rows a side contributes, in row order.
pub open spec fn spec_filtered(twc: TableWithColumns, rows: Seq<Seq<u64>>) -> Seq<Seq<u64>>
    decreases rows.len(),
{
    if rows.len() == 0 {
        Seq::empty()
    } else {
        spec_filtered(twc, rows.drop_last()) + (if spec_filter_val(twc, rows.last()) != 0 {
            seq![spec_row_tuple(twc, rows.last())]
        } else {
            Seq::empty()
        })
    }
}

pub fn filtered_tuples(twc: &TableWithColumns, rows: &Vec<Vec<u64>>) -> (out: Vec<Vec<u64>>)
    requires
        forall|r: int| 0 <= r < rows@.len() ==> twc_in_range(*twc, (#[trigger] rows@[r])@.len() as int),
    ensures
        rows_view(out@) == spec_filtered(*twc, rows_view(rows@)),
{
    let mut out: Vec<Vec<u64>> = Vec::new();
    let mut r: usize = 0;
    while r < rows.len()
        invariant
            r <= rows@.len(),
            forall|k: int|
                0 <= k < rows@.len() ==> twc_in_range(*twc, (#[trigger] rows@[k])@.len() as int),
            rows_view(out@) == spec_filtered(*twc, rows_view(rows@).take(r as int)),
        decreases rows@.len() - r,
    {
        let ghost pre = rows_view(out@);
        let fv = filter_val(twc, &rows[r]);
        if fv != 0 {
            let t = row_tuple(twc, &rows[r]);
            out.push(t);
        }
        proof {
            let dv = rows_view(rows@);
            assert(dv[r as int] == rows@[r as int]@);
            assert(dv.take(r + 1).drop_last() =~= dv.take(r as int));
            assert(dv.take(r + 1).last() == dv[r as int]);
            if fv != 0 {
                assert(rows_view(out@) =~= pre + seq![spec_row_tuple(*twc, dv[r as int])]);
            } else {
                assert(rows_view(out@) =~= pre + Seq::<Seq<u64>>::empty());
            }
        }
        r = r + 1;
    }
    assert(rows_view(rows@).take(rows@.len() as int) =~= rows_view(rows@));
    out
}

/// One cross-table lookup: a single looked side and one or more looking
/// sides whose filtered tuple multisets, taken together, must equal the
/// looked side's. The optional default row is carried for descriptors
/// whose instance has no looking side, where it would stand in as that
/// side's one tuple; this system's well-formedness (`Merkle5STARK::wf`)
/// demands a looking side on every instance, so the engine and the oracle
/// never substitute it. It still enters the transcript encoding, so a
/// proof stays bound to it.
#[derive(Clone)]
pub struct CrossTableLookup {
    pub looking: Vec<TableWithColumns>,
    pub looked: TableWithColumns,
    pub default: Option<Vec<u64>>,
}

impl CrossTableLookup {
    /// Both sides of a lookup must expose tuples of one width; an
    /// instance with no looking side needs the default row.
    pub fn new(
        looking: Vec<TableWithColumns>,
        looked: TableWithColumns,
        default: Option<Vec<u64>>,
    ) -> (c: CrossTableLookup)
        requires
            forall|j: int|
                0 <= j < looking@.len() ==> (#[trigger] looking@[j]).columns@.len()
                    == looked.columns@.len(),
            looking@.len() > 0 || default is Some,
        ensures
            c.looking == looking,
            c.looked == looked,
            c.default == default,
    {
        CrossTableLookup { looking, looked, default }
    }
}

// ---------------------------------------------------------------------
// Structural equality of descriptor values, and verified copies. Verus
// learns nothing from a derived `Clone` of a type with `Vec` fields, and
// two separately built `Vec`s are never provably the same value, so
// handing out a copy of a descriptor pins it through these predicates:
// they compare the entire content, field by field.
// ---------------------------------------------------------------------

/// Two column references hold the same content.
pub open spec fn col_equiv(a: ColumnRef, b: ColumnRef) -> bool {
    match (a, b) {
        (ColumnRef::Single(i), ColumnRef::Single(j)) => i == j,
        (ColumnRef::Linear(ts, k), ColumnRef::Linear(us, m)) => ts@ == us@ && k == m,
        _ => false,
    }
}

/// Two lookup sides hold the same content.
pub open spec fn twc_equiv(a: TableWithColumns, b: TableWithColumns) -> bool {
    &&& a.table == b.table
    &&& a.columns@.len() == b.columns@.len()
    &&& forall|i: int|
        0 <= i < a.columns@.len() ==> col_equiv(#[trigger] a.columns@[i], b.columns@[i])
    &&& match (a.filter, b.filter) {
        (Option::None, Option::None) => true,
        (Option::Some(x), Option::Some(y)) => col_equiv(x, y),
        _ => false,
    }
}

/// Two lookup instances hold the same content.
pub open spec fn ctl_equiv(a: CrossTableLookup, b: CrossTableLookup) -> bool {
    &&& a.looking@.len() == b.looking@.len()
    &&& forall|j: int|
        0 <= j < a.looking@.len() ==> twc_equiv(#[trigger] a.looking@[j], b.looking@[j])
    &&& twc_equiv(a.looked, b.looked)
    &&& match (a.default, b.default) {
        (Option::None, Option::None) => true,
        (Option::Some(x), Option::Some(y)) => x@ == y@,
        _ => false,
    }
}

fn copy_column_ref(c: &ColumnRef) -> (out: ColumnRef)
    ensures
        col_equiv(out, *c),
{
    match c {
        ColumnRef::Single(i) => ColumnRef::Single(*i),
        ColumnRef::Linear(ts, k) => {
            let mut us: Vec<(usize, u64)> = Vec::new();
            let mut j: usize = 0;
            while j < ts.len()
                invariant
                    j <= ts@.len(),
                    us@ == ts@.take(j as int),
                decreases ts@.len() - j,
            {
                us.push(ts[j]);
                assert(us@ =~= ts@.take(j as int + 1));
                j = j + 1;
            }
            assert(us@ =~= ts@);
            ColumnRef::Linear(us, *k)
        },
    }
}

fn copy_table_with_columns(t: &TableWithColumns) -> (out: TableWithColumns)
    ensures
        twc_equiv(out, *t),
{
    let mut columns: Vec<ColumnRef> = Vec::new();
    let mut j: usize = 0;
    while j < t.columns.len()
        invariant
            j <= t.columns@.len(),
            columns@.len() == j,
            forall|m: int| 0 <= m < j ==> col_equiv(#[trigger] columns@[m], t.columns@[m]),
        decreases t.columns@.len() - j,
    {
        columns.push(copy_column_ref(&t.columns[j]));
        j = j + 1;
    }
    let filter: Option<ColumnRef> = match &t.filter {
        Option::None => Option::None,
        Option::Some(c) => Option::Some(copy_column_ref(c)),
    };
    TableWithColumns { table: t.table, columns, filter }
}

fn copy_lookup(c: &CrossTableLookup) -> (out: CrossTableLookup)
    ensures
        ctl_equiv(out, *c),
{
    let mut looking: Vec<TableWithColumns> = Vec::new();
    let mut j: usize = 0;
    while j < c.looking.len()
        invariant
            j <= c.looking@.len(),
            looking@.len() == j,
            forall|m: int| 0 <= m < j ==> twc_equiv(#[trigger] looking@[m], c.looking@[m]),
        decreases c.looking@.len() - j,
    {
        looking.push(copy_table_with_columns(&c.looking[j]));
        j = j + 1;
    }
    let looked = copy_table_with_columns(&c.looked);
    let default: Option<Vec<u64>> = match &c.default {
        Option::None => Option::None,
        Option::Some(row) => Option::Some(crate::util::copy_vec(row)),
    };
    CrossTableLookup { looking, looked, default }
}

/// Copy a whole descriptor; the result holds the same instances, with the
/// same content, in the same order.
pub fn copy_lookups(cs: &Vec<CrossTableLookup>) -> (out: Vec<CrossTableLookup>)
    ensures
        out@.len() == cs@.len(),
        forall|i: int| 0 <= i < cs@.len() ==> ctl_equiv(#[trigger] out@[i], cs@[i]),
{
    let mut out: Vec<CrossTableLookup> = Vec::new();
    let mut i: usize = 0;
    while i < cs.len()
        invariant
            i <= cs@.len(),
            out@.len() == i,
            forall|m: int| 0 <= m < i ==> ctl_equiv(#[trigger] out@[m], cs@[m]),
        decreases cs@.len() - i,
    {
        out.push(copy_lookup(&cs[i]));
        i = i + 1;
    }
    out
}

/// The complete, deterministically ordered set of lookup instances of a
/// multi-table system. The order is fixed at construction and must be the
/// same at proving and at verification: it decides which transcript
/// challenge is bound to which instance.
pub struct CtlDescriptor {
    pub instances: Vec<CrossTableLookup>,
}

/// Sides reference only existing tables and columns.
pub open spec fn ctl_in_range(c: CrossTableLookup, traces: Seq<Seq<Seq<u64>>>) -> bool {
    &&& (c.looked.table as int) < traces.len()
    &&& forall|r: int|
        0 <= r < traces[c.looked.table as int].len() ==> twc_in_range(
            c.looked,
            (#[trigger] traces[c.looked.table as int][r]).len() as int,
        )
    &&& forall|j: int|
        0 <= j < c.looking@.len() ==> ((#[trigger] c.looking@[j]).table as int) < traces.len()
    &&& forall|j: int, r: int|
        0 <= j < c.looking@.len() && 0 <= r < traces[(#[trigger] c.looking@[j]).table as int].len()
            ==> twc_in_range(
            c.looking@[j],
            (#[trigger] traces[c.looking@[j].table as int][r]).len() as int,
        )
}

/// The union (concatenation) of the looking sides' filtered tuples.
pub open spec fn spec_looking_concat(
    looking: Seq<TableWithColumns>,
    traces: Seq<Seq<Seq<u64>>>,
) -> Seq<Seq<u64>>
    decreases looking.len(),
{
    if looking.len() == 0 {
        Seq::empty()
    } else {
        spec_looking_concat(looking.drop_last(), traces) + spec_filtered(
            looking.last(),
            traces[looking.last().table as int],
        )
    }
}

/// One lookup holds on raw traces: the looked multiset equals the union of
/// the looking multisets, multiplicities included.
pub open spec fn spec_ctl_holds(c: CrossTableLookup, traces: Seq<Seq<Seq<u64>>>) -> bool {
    spec_filtered(c.looked, traces[c.looked.table as int]).to_multiset()
        == spec_looking_concat(c.looking@, traces).to_multiset()
}

// ---------------------------------------------------------------------
// Multiset equality of tuple lists, decided by counting.
// ---------------------------------------------------------------------

pub open spec fn spec_count(s: Seq<Seq<u64>>, x: Seq<u64>) -> int
    decreases s.len(),
{
    if s.len() == 0 {
        0
    } else {
        spec_count(s.drop_last(), x) + if s.last() == x {
            1int
        } else {
            0int
        }
    }
}

pub proof fn lemma_count_is_multiset_count(s: Seq<Seq<u64>>, x: Seq<u64>)
    ensures
        spec_count(s, x) == s.to_multiset().count(x),
    decreases s.len(),
{
    broadcast use vstd::seq_lib::group_to_multiset_ensures;

    if s.len() == 0 {
        assert(s.to_multiset() =~= Multiset::<Seq<u64>>::empty());
    } else {
        lemma_count_is_multiset_count(s.drop_last(), x);
        assert(s =~= s.drop_last().push(s.last()));
        assert(s.drop_last().push(s.last()).to_multiset() =~= s.drop_last().to_multiset().insert(
            s.last(),
        ));
    }
}

fn rows_equal(a: &Vec<u64>, b: &Vec<u64>) -> (r: bool)
    ensures
        r == (a@ == b@),
{
    if a.len() != b.len() {
        assert(a@ != b@);
        return false;
    }
    let mut i: usize = 0;
    while i < a.len()
        invariant
            i <= a@.len(),
            a@.len() == b@.len(),
            forall|k: int| 0 <= k < i ==> a@[k] == b@[k],
        decreases a@.len() - i,
    {
        if a[i] != b[i] {
            return false;
        }
        i = i + 1;
    }
    assert(a@ =~= b@);
    true
}

fn count_rows(xs: &Vec<Vec<u64>>, t: &Vec<u64>) -> (n: usize)
    ensures
        n as int == spec_count(rows_view(xs@), t@),
        n <= xs@.len(),
{
    let mut n: usize = 0;
    let mut i: usize = 0;
    while i < xs.len()
        invariant
            i <= xs@.len(),
            n as int == spec_count(rows_view(xs@).take(i as int), t@),
            n <= i,
        decreases xs@.len() - i,
    {
        let eq = rows_equal(&xs[i], t);
        proof {
            let dv = rows_view(xs@);
            assert(dv[i as int] == xs@[i as int]@);
            assert(dv.take(i + 1).drop_last() =~= dv.take(i as int));
            assert(dv.take(i + 1).last() == dv[i as int]);
        }
        if eq {
            n = n + 1;
        }
        i = i + 1;
    }
    assert(rows_view(xs@).take(xs@.len() as int) =~= rows_view(xs@));
    n
}

/// Decide whether two tuple lists carry the same multiset.
pub fn multiset_eq(a: &Vec<Vec<u64>>, b: &Vec<Vec<u64>>) -> (r: bool)
    ensures
        r == (rows_view(a@).to_multiset() == rows_view(b@).to_multiset()),
{
    let ghost av = rows_view(a@);
    let ghost bv = rows_view(b@);
    let mut i: usize = 0;
    while i < a.len()
        invariant
            i <= a@.len(),
            av == rows_view(a@),
            bv == rows_view(b@),
            forall|k: int| 0 <= k < i ==> spec_count(av, #[trigger] av[k]) == spec_count(bv, av[k]),
        decreases a@.len() - i,
    {
        let ca = count_rows(a, &a[i]);
        let cb = count_rows(b, &a[i]);
        proof {
            assert(av[i as int] == a@[i as int]@);
        }
        if ca != cb {
            proof {
                lemma_count_is_multiset_count(av, a@[i as int]@);
                lemma_count_is_multiset_count(bv, a@[i as int]@);
            }
            return false;
        }
        i = i + 1;
    }
    let mut j: usize = 0;
    while j < b.len()
        invariant
            j <= b@.len(),
            av == rows_view(a@),
            bv == rows_view(b@),
            forall|k: int|
                0 <= k < a@.len() ==> spec_count(av, #[trigger] av[k]) == spec_count(bv, av[k]),
            forall|k: int| 0 <= k < j ==> spec_count(av, #[trigger] bv[k]) == spec_count(bv, bv[k]),
        decreases b@.len() - j,
    {
        let ca = count_rows(a, &b[j]);
        let cb = count_rows(b, &b[j]);
        proof {
            assert(bv[j as int] == b@[j as int]@);
        }
        if ca != cb {
            proof {
                lemma_count_is_multiset_count(av, b@[j as int]@);
                lemma_count_is_multiset_count(bv, b@[j as int]@);
            }
            return false;
        }
        j = j + 1;
    }
    proof {
        broadcast use vstd::seq_lib::group_to_multiset_ensures;

        assert forall|x: Seq<u64>| av.to_multiset().count(x) == bv.to_multiset().count(x) by {
            lemma_count_is_multiset_count(av, x);
            lemma_count_is_multiset_count(bv, x);
            if av.to_multiset().count(x) > 0 {
                assert(av.contains(x));
                let k = choose|k: int| 0 <= k < av.len() && av[k] == x;
                assert(spec_count(av, av[k]) == spec_count(bv, av[k]));
            } else if bv.to_multiset().count(x) > 0 {
                assert(bv.contains(x));
                let k = choose|k: int| 0 <= k < bv.len() && bv[k] == x;
                assert(spec_count(av, bv[k]) == spec_count(bv, bv[k]));
            }
        }
        assert(av.to_multiset() =~= bv.to_multiset());
    }
    true
}

// ---------------------------------------------------------------------
// Descriptor encoding: the transcript absorbs the full descriptor, in
// its enumeration order, before any challenge is squeezed, so a proof is
// bound to the instances and the order it was produced under.
// ---------------------------------------------------------------------

pub open spec fn spec_encode_terms(ts: Seq<(usize, u64)>) -> Seq<u64>
    decreases ts.len(),
{
    if ts.len() == 0 {
        Seq::empty()
    } else {
        spec_encode_terms(ts.drop_last()) + seq![ts.last().0 as u64, ts.last().1]
    }
}

pub open spec fn spec_encode_col(c: ColumnRef) -> Seq<u64> {
    match c {
        ColumnRef::Single(i) => seq![0u64, i as u64],
        ColumnRef::Linear(ts, k) => seq![1u64, ts@.len() as u64] + spec_encode_terms(ts@) + seq![k],
    }
}

pub open spec fn spec_encode_cols(cs: Seq<ColumnRef>) -> Seq<u64>
    decreases cs.len(),
{
    if cs.len() == 0 {
        Seq::empty()
    } else {
        spec_encode_cols(cs.drop_last()) + spec_encode_col(cs.last())
    }
}

pub open spec fn spec_encode_twc(t: TableWithColumns) -> Seq<u64> {
    seq![t.table as u64, t.columns@.len() as u64] + spec_encode_cols(t.columns@) + (match t.filter {
        Option::None => seq![0u64],
        Option::Some(c) => seq![1u64] + spec_encode_col(c),
    })
}

pub open spec fn spec_encode_twcs(ts: Seq<TableWithColumns>) -> Seq<u64>
    decreases ts.len(),
{
    if ts.len() == 0 {
        Seq::empty()
    } else {
        spec_encode_twcs(ts.drop_last()) + spec_encode_twc(ts.last())
    }
}

pub open spec fn spec_encode_ctl(c: CrossTableLookup) -> Seq<u64> {
    seq![c.looking@.len() as u64] + spec_encode_twcs(c.looking@) + spec_encode_twc(c.looked)
        + (match c.default {
        Option::None => seq![0u64],
        Option::Some(row) => seq![1u64, row@.len() as u64] + row@,
    })
}

/// The descriptor's transcript encoding: every instance, in order.
pub open spec fn spec_encode_descriptor(cs: Seq<CrossTableLookup>) -> Seq<u64>
    decreases cs.len(),
{
    if cs.len() == 0 {
        Seq::empty()
    } else {
        spec_encode_descriptor(cs.drop_last()) + spec_encode_ctl(cs.last())
    }
}

fn encode_col(c: &ColumnRef, out: &mut Vec<u64>)
    ensures
        final(out)@ == old(out)@ + spec_encode_col(*c),
{
    match c {
        ColumnRef::Single(i) => {
            out.push(0u64);
            out.push(*i as u64);
            assert(out@ =~= old(out)@ + spec_encode_col(*c));
        },
        ColumnRef::Linear(ts, k) => {
            out.push(1u64);
            out.push(ts.len() as u64);
            let ghost mid = out@;
            let mut j: usize = 0;
            while j < ts.len()
                invariant
                    j <= ts@.len(),
                    out@ == mid + spec_encode_terms(ts@.take(j as int)),
                decreases ts@.len() - j,
            {
                let (i, coef) = ts[j];
                out.push(i as u64);
                out.push(coef);
                proof {
                    assert(ts@.take(j + 1).drop_last() =~= ts@.take(j as int));
                    assert(ts@.take(j + 1).last() == ts@[j as int]);
                    assert(out@ =~= mid + spec_encode_terms(ts@.take(j + 1)));
                }
                j = j + 1;
            }
            assert(ts@.take(ts@.len() as int) =~= ts@);
            out.push(*k);
            assert(out@ =~= old(out)@ + spec_encode_col(*c));
        },
    }
}

fn encode_twc(t: &TableWithColumns, out: &mut Vec<u64>)
    ensures
        final(out)@ == old(out)@ + spec_encode_twc(*t),
{
    out.push(t.table as u64);
    out.push(t.columns.len() as u64);
    let ghost mid = out@;
    let mut j: usize = 0;
    while j < t.columns.len()
        invariant
            j <= t.columns@.len(),
            out@ == mid + spec_encode_cols(t.columns@.take(j as int)),
        decreases t.columns@.len() - j,
    {
        encode_col(&t.columns[j], out);
        proof {
            assert(t.columns@.take(j + 1).drop_last() =~= t.columns@.take(j as int));
            assert(t.columns@.take(j + 1).last() == t.columns@[j as int]);
        }
        j = j + 1;
    }
    assert(t.columns@.take(t.columns@.len() as int) =~= t.columns@);
    match &t.filter {
        Option::None => {
            out.push(0u64);
        },
        Option::Some(c) => {
            out.push(1u64);
            encode_col(c, out);
        },
    }
    assert(out@ =~= old(out)@ + spec_encode_twc(*t));
}

fn encode_ctl(c: &CrossTableLookup, out: &mut Vec<u64>)
    ensures
        final(out)@ == old(out)@ + spec_encode_ctl(*c),
{
    out.push(c.looking.len() as u64);
    let ghost mid = out@;
    let mut j: usize = 0;
    while j < c.looking.len()
        invariant
            j <= c.looking@.len(),
            out@ == mid + spec_encode_twcs(c.looking@.take(j as int)),
        decreases c.looking@.len() - j,
    {
        encode_twc(&c.looking[j], out);
        proof {
            assert(c.looking@.take(j + 1).drop_last() =~= c.looking@.take(j as int));
            assert(c.looking@.take(j + 1).last() == c.looking@[j as int]);
        }
        j = j + 1;
    }
    assert(c.looking@.take(c.looking@.len() as int) =~= c.looking@);
    encode_twc(&c.looked, out);
    match &c.default {
        Option::None => {
            out.push(0u64);
        },
        Option::Some(row) => {
            out.push(1u64);
            out.push(row.len() as u64);
            let ghost mid2 = out@;
            let mut j: usize = 0;
            while j < row.len()
                invariant
                    j <= row@.len(),
                    out@ == mid2 + row@.take(j as int),
                decreases row@.len() - j,
            {
                out.push(row[j]);
                assert(out@ =~= mid2 + row@.take(j + 1));
                j = j + 1;
            }
            assert(row@.take(row@.len() as int) =~= row@);
        },
    }
    assert(out@ =~= old(out)@ + spec_encode_ctl(*c));
}

/// Encode the whole descriptor for the transcript.
pub fn encode_descriptor(cs: &Vec<CrossTableLookup>) -> (out: Vec<u64>)
    ensures
        out@ == spec_encode_descriptor(cs@),
{
    let mut out: Vec<u64> = Vec::new();
    let mut i: usize = 0;
    while i < cs.len()
        invariant
            i <= cs@.len(),
            out@ == spec_encode_descriptor(cs@.take(i as int)),
        decreases cs@.len() - i,
    {
        encode_ctl(&cs[i], &mut out);
        proof {
            assert(cs@.take(i + 1).drop_last() =~= cs@.take(i as int));
            assert(cs@.take(i + 1).last() == cs@[i as int]);
        }
        i = i + 1;
    }
    assert(cs@.take(cs@.len() as int) =~= cs@);
    out
}

// ---------------------------------------------------------------------
// The running-product engine.
// ---------------------------------------------------------------------

/// Horner-style random linear combination of a tuple with `alpha`.
pub open spec fn spec_rlc(alpha: u64, t: Seq<u64>) -> u64
    decreases t.len(),
{
    if t.len() == 0 {
        0u64
    } else {
        fe_add(fe_mul(spec_rlc(alpha, t.drop_last()), alpha), t.last())
    }
}

pub fn rlc(alpha: u64, t: &Vec<u64>) -> (v: u64)
    ensures
        v == spec_rlc(alpha, t@),
{
    let mut acc: u64 = 0;
    let mut j: usize = 0;
    while j < t.len()
        invariant
            j <= t@.len(),
            acc == spec_rlc(alpha, t@.take(j as int)),
        decreases t@.len() - j,
    {
        acc = add_fe(mul_fe(acc, alpha), t[j]);
        proof {
            assert(t@.take(j + 1).drop_last() =~= t@.take(j as int));
            assert(t@.take(j + 1).last() == t@[j as int]);
        }
        j = j + 1;
    }
    assert(t@.take(t@.len() as int) =~= t@);
    acc
}

/// The factor one tuple contributes to a running product.
pub open spec fn spec_tuple_factor(ch: CtlChallenge, t: Seq<u64>) -> u64 {
    fe_add(ch.gamma, spec_rlc(ch.alpha, t))
}

/// The factor one row contributes: its tuple's factor when the filter is
/// on, the neutral 1 when it is off.
pub open spec fn spec_term(ch: CtlChallenge, twc: TableWithColumns, row: Seq<u64>) -> u64 {
    if spec_filter_val(twc, row) == 0 {
        1u64
    } else {
        spec_tuple_factor(ch, spec_row_tuple(twc, row))
    }
}

/// The running product over a table's rows for one lookup side.
pub open spec fn spec_prod_terms(ch: CtlChallenge, twc: TableWithColumns, rows: Seq<Seq<u64>>) -> u64
    decreases rows.len(),
{
    if rows.len() == 0 {
        1u64
    } else {
        fe_mul(spec_prod_terms(ch, twc, rows.drop_last()), spec_term(ch, twc, rows.last()))
    }
}

/// The Z column: entry `i` is the running product over the first `i + 1`
/// rows, so the last entry is the side's terminal value.
pub open spec fn spec_z(ch: CtlChallenge, twc: TableWithColumns, rows: Seq<Seq<u64>>) -> Seq<u64> {
    Seq::new(rows.len(), |i: int| spec_prod_terms(ch, twc, rows.take(i + 1)))
}

pub proof fn lemma_prod_terms_fe(ch: CtlChallenge, twc: TableWithColumns, rows: Seq<Seq<u64>>)
    ensures
        is_fe(spec_prod_terms(ch, twc, rows)),
    decreases rows.len(),
{
    if rows.len() > 0 {
        lemma_prod_terms_fe(ch, twc, rows.drop_last());
    }
}

/// Compute one side's Z column over its table's rows.
pub fn compute_z_column(ch: &CtlChallenge, twc: &TableWithColumns, rows: &Vec<Vec<u64>>) -> (z: Vec<
    u64,
>)
    requires
        forall|r: int| 0 <= r < rows@.len() ==> twc_in_range(*twc, (#[trigger] rows@[r])@.len() as int),
    ensures
        z@ == spec_z(*ch, *twc, rows_view(rows@)),
        z@.len() == rows@.len(),
{
    let ghost dv = rows_view(rows@);
    let mut z: Vec<u64> = Vec::new();
    let mut acc: u64 = 1;
    let mut r: usize = 0;
    while r < rows.len()
        invariant
            r <= rows@.len(),
            dv == rows_view(rows@),
            forall|k: int|
                0 <= k < rows@.len() ==> twc_in_range(*twc, (#[trigger] rows@[k])@.len() as int),
            acc == spec_prod_terms(*ch, *twc, dv.take(r as int)),
            z@.len() == r,
            forall|k: int| 0 <= k < r ==> (#[trigger] z@[k]) == spec_prod_terms(*ch, *twc, dv.take(k + 1)),
        decreases rows@.len() - r,
    {
        let fv = filter_val(twc, &rows[r]);
        let term: u64 = if fv == 0 {
            1u64
        } else {
            let t = row_tuple(twc, &rows[r]);
            add_fe(ch.gamma, rlc(ch.alpha, &t))
        };
        proof {
            assert(dv[r as int] == rows@[r as int]@);
            assert(term == spec_term(*ch, *twc, dv[r as int]));
            assert(dv.take(r + 1).drop_last() =~= dv.take(r as int));
            assert(dv.take(r + 1).last() == dv[r as int]);
        }
        acc = mul_fe(acc, term);
        z.push(acc);
        r = r + 1;
    }
    assert(z@ =~= spec_z(*ch, *twc, dv));
    z
}

/// The per-lookup auxiliary data a prover computes: the challenge the Z
/// columns were built from, one Z column per looking side, and the looked
/// side's Z column. Created fresh per proof and discarded after its
/// terminal values are copied into the proof.
pub struct CtlData {
    pub challenge: CtlChallenge,
    pub looking_zs: Vec<Vec<u64>>,
    pub looked_z: Vec<u64>,
}

/// Build the Z columns of one lookup instance from its challenge.
pub fn compute_ctl_data(c: &CrossTableLookup, ch: &CtlChallenge, traces: &Vec<Vec<Vec<u64>>>) -> (d:
    CtlData)
    requires
        ctl_in_range(*c, traces_view(traces@)),
    ensures
        d.challenge == *ch,
        d.looking_zs@.len() == c.looking@.len(),
        forall|j: int|
            0 <= j < c.looking@.len() ==> (#[trigger] d.looking_zs@[j])@ == spec_z(
                *ch,
                c.looking@[j],
                traces_view(traces@)[c.looking@[j].table as int],
            ),
        d.looked_z@ == spec_z(*ch, c.looked, traces_view(traces@)[c.looked.table as int]),
    {
    let ghost tv = traces_view(traces@);
    let mut looking_zs: Vec<Vec<u64>> = Vec::new();
    let mut j: usize = 0;
    while j < c.looking.len()
        invariant
            j <= c.looking@.len(),
            tv == traces_view(traces@),
            ctl_in_range(*c, tv),
            looking_zs@.len() == j,
            forall|m: int|
                0 <= m < j ==> (#[trigger] looking_zs@[m])@ == spec_z(
                    *ch,
                    c.looking@[m],
                    tv[c.looking@[m].table as int],
                ),
        decreases c.looking@.len() - j,
    {
        let twc = &c.looking[j];
        let rows = &traces[twc.table];
        proof {
            assert(tv[twc.table as int] == rows_view(rows@));
            assert forall|r: int|
                0 <= r < rows@.len() implies twc_in_range(
                *twc,
                (#[trigger] rows@[r])@.len() as int,
            ) by {
                assert(tv[twc.table as int][r] == rows@[r]@);
            }
        }
        let z = compute_z_column(ch, twc, rows);
        looking_zs.push(z);
        j = j + 1;
    }
    let rows = &traces[c.looked.table];
    proof {
        assert(tv[c.looked.table as int] == rows_view(rows@));
        assert forall|r: int|
            0 <= r < rows@.len() implies twc_in_range(
            c.looked,
            (#[trigger] rows@[r])@.len() as int,
        ) by {
            assert(tv[c.looked.table as int][r] == rows@[r]@);
        }
    }
    let looked_z = compute_z_column(ch, &c.looked, rows);
    CtlData { challenge: *ch, looking_zs, looked_z }
}

// ---------------------------------------------------------------------
// Why terminal products decide multiset equality of honest traces: the
// running product equals the product over the filtered tuples, and that
// product depends only on the tuples' multiset.
// ---------------------------------------------------------------------

/// The product of the factors of a tuple list.
pub open spec fn spec_prod_tuples(ch: CtlChallenge, ts: Seq<Seq<u64>>) -> u64
    decreases ts.len(),
{
    if ts.len() == 0 {
        1u64
    } else {
        fe_mul(spec_prod_tuples(ch, ts.drop_last()), spec_tuple_factor(ch, ts.last()))
    }
}

pub proof fn lemma_prod_tuples_fe(ch: CtlChallenge, ts: Seq<Seq<u64>>)
    ensures
        is_fe(spec_prod_tuples(ch, ts)),
    decreases ts.len(),
{
    if ts.len() > 0 {
        lemma_prod_tuples_fe(ch, ts.drop_last());
    }
}

proof fn lemma_fe_mul_one(a: u64)
    requires
        is_fe(a),
    ensures
        fe_mul(a, 1u64) == a,
{
    vstd::arithmetic::div_mod::lemma_small_mod(a as nat, FIELD_ORDER as nat);
}

proof fn lemma_fe_mul_comm(a: u64, b: u64)
    ensures
        fe_mul(a, b) == fe_mul(b, a),
{
    vstd::arithmetic::mul::lemma_mul_is_commutative(a as int, b as int);
}

proof fn lemma_fe_mul_assoc(a: u64, b: u64, c: u64)
    ensures
        fe_mul(fe_mul(a, b), c) == fe_mul(a, fe_mul(b, c)),
{
    let p = FIELD_ORDER as int;
    let (ai, bi, ci) = (a as int, b as int, c as int);
    vstd::arithmetic::div_mod::lemma_mul_mod_noop_left(ai * bi, ci, p);
    vstd::arithmetic::div_mod::lemma_mul_mod_noop_right(ai, bi * ci, p);
    vstd::arithmetic::mul::lemma_mul_is_associative(ai, bi, ci);
}

/// The running product over a side's rows is the product over exactly the
/// filtered tuples: masked-out rows contribute nothing.
pub proof fn lemma_prod_terms_is_filtered(
    ch: CtlChallenge,
    twc: TableWithColumns,
    rows: Seq<Seq<u64>>,
)
    ensures
        spec_prod_terms(ch, twc, rows) == spec_prod_tuples(ch, spec_filtered(twc, rows)),
    decreases rows.len(),
{
    if rows.len() == 0 {
    } else {
        lemma_prod_terms_is_filtered(ch, twc, rows.drop_last());
        let pre = spec_filtered(twc, rows.drop_last());
        if spec_filter_val(twc, rows.last()) != 0 {
            assert(spec_filtered(twc, rows) =~= pre.push(spec_row_tuple(twc, rows.last())));
            assert(spec_filtered(twc, rows).drop_last() =~= pre);
        } else {
            assert(spec_filtered(twc, rows) =~= pre);
            lemma_prod_tuples_fe(ch, pre);
            lemma_fe_mul_one(spec_prod_tuples(ch, pre));
        }
    }
}

/// Removing one tuple divides the product by its factor.
proof fn lemma_prod_tuples_remove(ch: CtlChallenge, ts: Seq<Seq<u64>>, i: int)
    requires
        0 <= i < ts.len(),
    ensures
        spec_prod_tuples(ch, ts) == fe_mul(
            spec_prod_tuples(ch, ts.remove(i)),
            spec_tuple_factor(ch, ts[i]),
        ),
    decreases ts.len(),
{
    if i == ts.len() - 1 {
        assert(ts.remove(i) =~= ts.drop_last());
    } else {
        let shorter = ts.drop_last();
        lemma_prod_tuples_remove(ch, shorter, i);
        assert(ts.remove(i).drop_last() =~= shorter.remove(i));
        assert(ts.remove(i).last() == ts.last());
        let q = spec_prod_tuples(ch, shorter.remove(i));
        let fi = spec_tuple_factor(ch, ts[i]);
        let fl = spec_tuple_factor(ch, ts.last());
        lemma_fe_mul_assoc(q, fi, fl);
        lemma_fe_mul_comm(fi, fl);
        lemma_fe_mul_assoc(q, fl, fi);
    }
}

/// The product of the factors depends only on the tuples' multiset.
pub proof fn lemma_prod_tuples_multiset(ch: CtlChallenge, t1: Seq<Seq<u64>>, t2: Seq<Seq<u64>>)
    requires
        t1.to_multiset() == t2.to_multiset(),
    ensures
        spec_prod_tuples(ch, t1) == spec_prod_tuples(ch, t2),
    decreases t1.len(),
{
    broadcast use vstd::seq_lib::group_to_multiset_ensures;

    if t1.len() == 0 {
        t1.to_multiset_ensures();
        t2.to_multiset_ensures();
        assert(t2.to_multiset().len() == 0);
        assert(t2.len() == 0);
    } else {
        let x = t1.last();
        let shorter = t1.drop_last();
        assert(t1 =~= shorter.push(x));
        assert(t1.to_multiset() =~= shorter.to_multiset().insert(x));
        assert(t2.to_multiset().count(x) > 0);
        assert(t2.contains(x));
        let i = choose|i: int| 0 <= i < t2.len() && t2[i] == x;
        assert(t1.remove(t1.len() - 1) =~= shorter);
        assert(shorter.to_multiset() =~= t1.to_multiset().remove(x));
        assert(t2.remove(i).to_multiset() =~= t2.to_multiset().remove(x));
        lemma_prod_tuples_multiset(ch, shorter, t2.remove(i));
        lemma_prod_tuples_remove(ch, t2, i);
    }
}

/// The product of a concatenation is the product of the products.
pub proof fn lemma_prod_tuples_concat(ch: CtlChallenge, a: Seq<Seq<u64>>, b: Seq<Seq<u64>>)
    ensures
        spec_prod_tuples(ch, a + b) == fe_mul(spec_prod_tuples(ch, a), spec_prod_tuples(ch, b)),
    decreases b.len(),
{
    if b.len() == 0 {
        assert(a + b =~= a);
        lemma_prod_tuples_fe(ch, a);
        lemma_fe_mul_one(spec_prod_tuples(ch, a));
    } else {
        assert((a + b).drop_last() =~= a + b.drop_last());
        assert((a + b).last() == b.last());
        lemma_prod_tuples_concat(ch, a, b.drop_last());
        lemma_fe_mul_assoc(
            spec_prod_tuples(ch, a),
            spec_prod_tuples(ch, b.drop_last()),
            spec_tuple_factor(ch, b.last()),
        );
    }
}

// ---------------------------------------------------------------------
// The testing oracle: recompute every lookup's multisets in the clear.
// ---------------------------------------------------------------------

/// Ground-truth oracle for the lookup argument: recompute each instance's
/// filtered tuple multisets on both sides directly from raw traces and
/// compare them, independent of any transcript or challenge.
pub fn check_ctls(traces: &Vec<Vec<Vec<u64>>>, cross_table_lookups: &Vec<CrossTableLookup>) -> (r:
    Result<(), StarkError>)
    requires
        forall|i: int|
            0 <= i < cross_table_lookups@.len() ==> ctl_in_range(
                #[trigger] cross_table_lookups@[i],
                traces_view(traces@),
            ),
    ensures
        r is Ok <==> forall|i: int|
            0 <= i < cross_table_lookups@.len() ==> spec_ctl_holds(
                #[trigger] cross_table_lookups@[i],
                traces_view(traces@),
            ),
        r is Err ==> exists|i: int|
            0 <= i < cross_table_lookups@.len() && r == Result::<(), StarkError>::Err(
                StarkError::CtlTerminalMismatch { instance: i as usize },
            ) && !spec_ctl_holds(#[trigger] cross_table_lookups@[i], traces_view(traces@)),
    {
    let ghost tv = traces_view(traces@);
    let mut i: usize = 0;
    while i < cross_table_lookups.len()
        invariant
            i <= cross_table_lookups@.len(),
            tv == traces_view(traces@),
            forall|k: int|
                0 <= k < cross_table_lookups@.len() ==> ctl_in_range(
                    #[trigger] cross_table_lookups@[k],
                    tv,
                ),
            forall|k: int| 0 <= k < i ==> spec_ctl_holds(#[trigger] cross_table_lookups@[k], tv),
        decreases cross_table_lookups@.len() - i,
    {
        let c = &cross_table_lookups[i];
        proof {
            assert(tv[c.looked.table as int] == rows_view(traces@[c.looked.table as int]@));
        }
        let looked_rows = &traces[c.looked.table];
        proof {
            assert forall|r: int|
                0 <= r < looked_rows@.len() implies twc_in_range(
                c.looked,
                (#[trigger] looked_rows@[r])@.len() as int,
            ) by {
                assert(tv[c.looked.table as int][r] == looked_rows@[r]@);
            }
        }
        let looked_tuples = filtered_tuples(&c.looked, looked_rows);
        let mut looking_all: Vec<Vec<u64>> = Vec::new();
        let mut j: usize = 0;
        while j < c.looking.len()
            invariant
                j <= c.looking@.len(),
                tv == traces_view(traces@),
                ctl_in_range(*c, tv),
                rows_view(looking_all@) == spec_looking_concat(c.looking@.take(j as int), tv),
            decreases c.looking@.len() - j,
        {
            let ghost pre = rows_view(looking_all@);
            let twc = &c.looking[j];
            proof {
                assert(tv[twc.table as int] == rows_view(traces@[twc.table as int]@));
            }
            let rows = &traces[twc.table];
            proof {
                assert forall|r: int|
                    0 <= r < rows@.len() implies twc_in_range(
                    *twc,
                    (#[trigger] rows@[r])@.len() as int,
                ) by {
                    assert(tv[twc.table as int][r] == rows@[r]@);
                }
            }
            let mut part = filtered_tuples(twc, rows);
            let ghost partv = rows_view(part@);
            looking_all.append(&mut part);
            proof {
                assert(rows_view(looking_all@) =~= pre + partv);
                assert(c.looking@.take(j + 1).drop_last() =~= c.looking@.take(j as int));
                assert(c.looking@.take(j + 1).last() == c.looking@[j as int]);
            }
            j = j + 1;
        }
        assert(c.looking@.take(c.looking@.len() as int) =~= c.looking@);
        let ok = multiset_eq(&looked_tuples, &looking_all);
        if !ok {
            return Result::Err(StarkError::CtlTerminalMismatch { instance: i });
        }
        i = i + 1;
    }
    Result::Ok(())
}

} // verus!
