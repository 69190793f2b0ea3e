//! The two-table system: a compression table and a depth-5 Merkle-tree
//! table, bound by two cross-table lookups — the tree's compression
//! inputs and outputs must appear in the compression table, and the
//! compression table's outputs must appear in the tree table.

use vstd::prelude::*;

use crate::ctl::{ColumnRef, CrossTableLookup, TableWithColumns};
use crate::hash_stark::CompressionStark;
use crate::tree_stark::MerkleTree5STARK;

verus! {

/// Index of the compression table in table order.
pub const HASH_TABLE_ID: usize = 0;

/// Index of the tree table in table order.
pub const TREE_TABLE_ID: usize = 1;

/// The tables of this system, a closed enumeration fixed at construction.
#[derive(Debug, Copy, Clone, PartialEq, Eq, Structural)]
pub enum Table {
    Hash,
    Tree,
}

impl Table {
    pub open spec fn spec_id(self) -> int {
        match self {
            Table::Hash => 0,
            Table::Tree => 1,
        }
    }

    /// The table's index in table order.
    pub fn table_id(self) -> (i: usize)
        ensures
            i as int == self.spec_id(),
    {
        match self {
            Table::Hash => 0,
            Table::Tree => 1,
        }
    }

    /// How many tables the system has.
    pub fn num_tables() -> (n: usize)
        ensures
            n == 2,
    {
        2
    }
}

/// `n` consecutive single-column references starting at `start`.
pub open spec fn cols_are_single_range(cs: Seq<ColumnRef>, start: int, n: int) -> bool {
    cs.len() == n && forall|k: int|
        0 <= k < n ==> (#[trigger] cs[k]) == ColumnRef::Single((start + k) as usize)
}

fn single_cols(start: usize, n: usize) -> (cs: Vec<ColumnRef>)
    requires
        start + n <= 1000,
    ensures
        cols_are_single_range(cs@, start as int, n as int),
{
    let mut cs: Vec<ColumnRef> = Vec::new();
    let mut k: usize = 0;
    while k < n
        invariant
            k <= n,
            start + n <= 1000,
            cs@.len() == k,
            forall|m: int| 0 <= m < k ==> (#[trigger] cs@[m]) == ColumnRef::Single((start + m) as usize),
        decreases n - k,
    {
        cs.push(ColumnRef::Single(start + k));
        k = k + 1;
    }
    cs
}

/// One side references `n` consecutive columns from `start` of `table`,
/// filtered by the single column `filter_col`.
pub open spec fn twc_is(twc: TableWithColumns, table: int, start: int, n: int, filter_col: int) -> bool {
    &&& twc.table as int == table
    &&& cols_are_single_range(twc.columns@, start, n)
    &&& twc.filter == Option::Some(ColumnRef::Single(filter_col as usize))
}

/// The first lookup: the tree table's compression inputs and output
/// (24 columns, filtered by its input filter) must appear among the
/// compression table's rows (its 24 data columns, filtered by its filter).
pub open spec fn is_ctl_hash(c: CrossTableLookup) -> bool {
    &&& c.looking@.len() == 1
    &&& twc_is(c.looking@[0], 1, 128, 24, 155)
    &&& twc_is(c.looked, 0, 0, 24, 24)
    &&& c.default is None
}

/// The second lookup: the compression table's outputs (8 columns) must
/// appear among the tree table's compression-output columns.
pub open spec fn is_ctl_tree(c: CrossTableLookup) -> bool {
    &&& c.looking@.len() == 1
    &&& twc_is(c.looking@[0], 0, 16, 8, 24)
    &&& twc_is(c.looked, 1, 144, 8, 156)
    &&& c.default is None
}

fn ctl_hash() -> (c: CrossTableLookup)
    ensures
        is_ctl_hash(c),
{
    let looking = vec![
        TableWithColumns::new(
            Table::Tree.table_id(),
            single_cols(128, 24),
            Some(ColumnRef::Single(155)),
        ),
    ];
    CrossTableLookup::new(
        looking,
        TableWithColumns::new(Table::Hash.table_id(), single_cols(0, 24), Some(ColumnRef::Single(24))),
        None,
    )
}

fn ctl_tree() -> (c: CrossTableLookup)
    ensures
        is_ctl_tree(c),
{
    let looking = vec![
        TableWithColumns::new(
            Table::Hash.table_id(),
            single_cols(16, 8),
            Some(ColumnRef::Single(24)),
        ),
    ];
    CrossTableLookup::new(
        looking,
        TableWithColumns::new(
            Table::Tree.table_id(),
            single_cols(144, 8),
            Some(ColumnRef::Single(156)),
        ),
        None,
    )
}

/// The complete, ordered set of this system's cross-table lookups.
pub fn all_cross_table_lookups() -> (cs: Vec<CrossTableLookup>)
    ensures
        cs@.len() == 2,
        is_ctl_hash(cs@[0]),
        is_ctl_tree(cs@[1]),
{
    let mut cross_table_lookups: Vec<CrossTableLookup> = Vec::new();
    cross_table_lookups.push(ctl_hash());
    cross_table_lookups.push(ctl_tree());
    cross_table_lookups
}

/// The two-table system: its table handles and its lookup instances, in
/// their fixed order.
#[derive(Clone)]
pub struct Merkle5STARK {
    pub hash_stark: CompressionStark,
    pub tree_stark: MerkleTree5STARK,
    pub cross_table_lookups: Vec<CrossTableLookup>,
}

/// The column count of the table with index `t` in this system.
pub open spec fn spec_table_width(t: int) -> int {
    if t == 0 {
        25
    } else {
        162
    }
}

impl Merkle5STARK {
    /// The descriptor refers only to this system's tables and their
    /// columns, with equal tuple widths on both sides of each instance.
    pub open spec fn wf(self) -> bool {
        &&& self.cross_table_lookups@.len() <= 1000
        &&& forall|i: int|
            0 <= i < self.cross_table_lookups@.len() ==> Self::ctl_wf(
                #[trigger] self.cross_table_lookups@[i],
            )
    }

    pub open spec fn ctl_wf(c: CrossTableLookup) -> bool {
        &&& (c.looked.table as int) < 2
        &&& crate::ctl::twc_in_range(c.looked, spec_table_width(c.looked.table as int))
        &&& c.looking@.len() > 0
        &&& forall|j: int|
            0 <= j < c.looking@.len() ==> ((#[trigger] c.looking@[j]).table as int) < 2
                && crate::ctl::twc_in_range(
                c.looking@[j],
                spec_table_width(c.looking@[j].table as int),
            ) && c.looking@[j].columns@.len() == c.looked.columns@.len()
    }

    pub(crate) fn nums_permutation_zs(&self, config: &crate::config::StarkConfig) -> (ns: Vec<usize>)
        ensures
            ns@.len() == 2,
            ns@[0] as int == crate::stark::Stark::spec_num_permutation_batches(&self.hash_stark, *config),
            ns@[1] as int == crate::stark::Stark::spec_num_permutation_batches(&self.tree_stark, *config),
    {
        let mut ans: Vec<usize> = Vec::new();
        ans.push(crate::stark::Stark::num_permutation_batches(&self.hash_stark, config));
        ans.push(crate::stark::Stark::num_permutation_batches(&self.tree_stark, config));
        ans
    }

    pub(crate) fn permutation_batch_sizes(&self) -> (ns: Vec<usize>)
        ensures
            ns@.len() == 2,
            ns@[0] as int == crate::stark::Stark::spec_permutation_batch_size(&self.hash_stark),
            ns@[1] as int == crate::stark::Stark::spec_permutation_batch_size(&self.tree_stark),
    {
        let mut ans: Vec<usize> = Vec::new();
        ans.push(crate::stark::Stark::permutation_batch_size(&self.hash_stark));
        ans.push(crate::stark::Stark::permutation_batch_size(&self.tree_stark));
        ans
    }
}

fn col_in_range_check(c: &ColumnRef, width: usize) -> (b: bool)
    ensures
        b == crate::ctl::col_in_range(*c, width as int),
{
    match c {
        ColumnRef::Single(i) => *i < width,
        ColumnRef::Linear(ts, k) => {
            let mut j: usize = 0;
            while j < ts.len()
                invariant
                    j <= ts@.len(),
                    c is Linear,
                    (c->Linear_0)@ == ts@,
                    forall|m: int| 0 <= m < j ==> ((#[trigger] ts@[m]).0 as int) < width,
                decreases ts@.len() - j,
            {
                if ts[j].0 >= width {
                    proof {
                        if crate::ctl::col_in_range(*c, width as int) {
                            assert(c is Linear);
                            assert((c->Linear_0)@ == ts@);
                            assert((((c->Linear_0)@[j as int]).0 as int) < width);
                            assert(false);
                        }
                    }
                    return false;
                }
                j = j + 1;
            }
            true
        },
    }
}

fn twc_in_range_check(twc: &TableWithColumns, width: usize) -> (b: bool)
    ensures
        b == crate::ctl::twc_in_range(*twc, width as int),
{
    let mut j: usize = 0;
    while j < twc.columns.len()
        invariant
            j <= twc.columns@.len(),
            forall|m: int|
                0 <= m < j ==> crate::ctl::col_in_range(#[trigger] twc.columns@[m], width as int),
        decreases twc.columns@.len() - j,
    {
        if !col_in_range_check(&twc.columns[j], width) {
            return false;
        }
        j = j + 1;
    }
    match &twc.filter {
        Option::None => true,
        Option::Some(c) => col_in_range_check(c, width),
    }
}

fn table_width(t: usize) -> (w: usize)
    requires
        t < 2,
    ensures
        w as int == spec_table_width(t as int),
{
    if t == 0 {
        25
    } else {
        162
    }
}

impl Merkle5STARK {
    /// Decide the descriptor's well-formedness at entry, as the error
    /// taxonomy demands: a malformed descriptor is reported, never run.
    pub fn descriptor_wf_check(&self) -> (b: bool)
        ensures
            b == self.wf(),
    {
        if self.cross_table_lookups.len() > 1000 {
            return false;
        }
        let mut i: usize = 0;
        while i < self.cross_table_lookups.len()
            invariant
                i <= self.cross_table_lookups@.len(),
                self.cross_table_lookups@.len() <= 1000,
                forall|m: int|
                    0 <= m < i ==> Merkle5STARK::ctl_wf(#[trigger] self.cross_table_lookups@[m]),
            decreases self.cross_table_lookups@.len() - i,
        {
            let c = &self.cross_table_lookups[i];
            if c.looked.table >= 2 {
                return false;
            }
            if !twc_in_range_check(&c.looked, table_width(c.looked.table)) {
                return false;
            }
            if c.looking.len() == 0 {
                return false;
            }
            let mut j: usize = 0;
            while j < c.looking.len()
                invariant
                    j <= c.looking@.len(),
                    i < self.cross_table_lookups@.len(),
                    *c == self.cross_table_lookups@[i as int],
                    (c.looked.table as int) < 2,
                    crate::ctl::twc_in_range(c.looked, spec_table_width(c.looked.table as int)),
                    c.looking@.len() > 0,
                    forall|m: int|
                        0 <= m < j ==> ((#[trigger] c.looking@[m]).table as int) < 2
                            && crate::ctl::twc_in_range(
                            c.looking@[m],
                            spec_table_width(c.looking@[m].table as int),
                        ) && c.looking@[m].columns@.len() == c.looked.columns@.len(),
                decreases c.looking@.len() - j,
            {
                let l = &c.looking[j];
                if l.table >= 2 {
                    proof {
                        if self.wf() {
                            assert(*c == self.cross_table_lookups@[i as int]);
                            assert(Merkle5STARK::ctl_wf(self.cross_table_lookups@[i as int]));
                            assert(Merkle5STARK::ctl_wf(*c));
                            assert(((c.looking@[j as int]).table as int) < 2);
                            assert(false);
                        }
                    }
                    return false;
                }
                if !twc_in_range_check(l, table_width(l.table)) {
                    proof {
                        if self.wf() {
                            assert(*c == self.cross_table_lookups@[i as int]);
                            assert(Merkle5STARK::ctl_wf(self.cross_table_lookups@[i as int]));
                            assert(Merkle5STARK::ctl_wf(*c));
                            assert(((#[trigger] c.looking@[j as int]).table as int) < 2
                                && crate::ctl::twc_in_range(
                                c.looking@[j as int],
                                spec_table_width(c.looking@[j as int].table as int),
                            ));
                            assert(false);
                        }
                    }
                    return false;
                }
                if l.columns.len() != c.looked.columns.len() {
                    proof {
                        if self.wf() {
                            assert(*c == self.cross_table_lookups@[i as int]);
                            assert(Merkle5STARK::ctl_wf(self.cross_table_lookups@[i as int]));
                            assert(Merkle5STARK::ctl_wf(*c));
                            assert(c.looking@[j as int].columns@.len()
                                == c.looked.columns@.len());
                            assert(false);
                        }
                    }
                    return false;
                }
                j = j + 1;
            }
            assert(Merkle5STARK::ctl_wf(*c));
            i = i + 1;
        }
        true
    }
}

impl Default for Merkle5STARK {
    /// The system in its fixed shape: both tables and the two lookups in
    /// their canonical order.
    fn default() -> (s: Merkle5STARK)
        ensures
            s.wf(),
            s.cross_table_lookups@.len() == 2,
            is_ctl_hash(s.cross_table_lookups@[0]),
            is_ctl_tree(s.cross_table_lookups@[1]),
    {
        let s = Merkle5STARK {
            hash_stark: CompressionStark {},
            tree_stark: MerkleTree5STARK {},
            cross_table_lookups: all_cross_table_lookups(),
        };
        proof {
            assert forall|i: int|
                0 <= i < s.cross_table_lookups@.len() implies Merkle5STARK::ctl_wf(
                #[trigger] s.cross_table_lookups@[i],
            ) by {
                let c = s.cross_table_lookups@[i];
                if i == 0 {
                    assert(is_ctl_hash(c));
                } else {
                    assert(is_ctl_tree(c));
                }
            }
        }
        s
    }
}

} // verus!
