//! Small shared helpers: power-of-two tests and the row-major to
//! column-major conversion the commitment layer expects.

use vstd::prelude::*;

verus! {

/// The element views of a sequence of row vectors.
pub open spec fn rows_view(s: Seq<Vec<u64>>) -> Seq<Seq<u64>> {
    Seq::new(s.len(), |i: int| s[i]@)
}

/// The element views of a sequence of traces.
pub open spec fn traces_view(s: Seq<Vec<Vec<u64>>>) -> Seq<Seq<Seq<u64>>> {
    Seq::new(s.len(), |i: int| rows_view(s[i]@))
}

/// `n` is a power of two (1, 2, 4, ...).
pub open spec fn spec_is_power_of_two(n: int) -> bool
    decreases n,
{
    if n <= 0 {
        false
    } else if n == 1 {
        true
    } else {
        n % 2 == 0 && spec_is_power_of_two(n / 2)
    }
}

pub fn is_power_of_two(n: u64) -> (r: bool)
    ensures
        r == spec_is_power_of_two(n as int),
{
    if n == 0 {
        return false;
    }
    let mut m: u64 = n;
    while m % 2 == 0
        invariant
            m >= 1,
            spec_is_power_of_two(n as int) == spec_is_power_of_two(m as int),
        decreases m,
    {
        m = m / 2;
    }
    m == 1
}

/// Copy the elements of `v` in `[from, upto)` into a fresh vector.
pub fn sub_vec(v: &Vec<u64>, from: usize, upto: usize) -> (out: Vec<u64>)
    requires
        from <= upto <= v@.len(),
    ensures
        out@ == v@.subrange(from as int, upto as int),
{
    let mut out: Vec<u64> = Vec::new();
    let mut i: usize = from;
    while i < upto
        invariant
            from <= i <= upto <= v@.len(),
            out@ == v@.subrange(from as int, i as int),
        decreases upto - i,
    {
        out.push(v[i]);
        assert(out@ =~= v@.subrange(from as int, i as int + 1));
        i = i + 1;
    }
    out
}

/// Copy a vector of words.
pub fn copy_vec(v: &Vec<u64>) -> (out: Vec<u64>)
    ensures
        out@ == v@,
{
    let out = sub_vec(v, 0, v.len());
    assert(v@.subrange(0, v@.len() as int) =~= v@);
    out
}

/// Convert a row-major trace into the column-major (one value vector per
/// column) representation that the commitment layer consumes.
pub fn trace_rows_to_poly_values(rows: &Vec<Vec<u64>>, num_cols: usize) -> (cols: Vec<Vec<u64>>)
    requires
        forall|r: int| 0 <= r < rows@.len() ==> (#[trigger] rows@[r])@.len() == num_cols,
    ensures
        cols@.len() == num_cols,
        forall|c: int|
            0 <= c < num_cols ==> (#[trigger] cols@[c])@.len() == rows@.len(),
        forall|c: int, r: int|
            0 <= c < num_cols && 0 <= r < rows@.len() ==> (#[trigger] cols@[c]@[r]) == rows@[r]@[c],
{
    let mut cols: Vec<Vec<u64>> = Vec::new();
    let mut c: usize = 0;
    while c < num_cols
        invariant
            c <= num_cols,
            forall|r: int| 0 <= r < rows@.len() ==> (#[trigger] rows@[r])@.len() == num_cols,
            cols@.len() == c,
            forall|k: int| 0 <= k < c ==> (#[trigger] cols@[k])@.len() == rows@.len(),
            forall|k: int, r: int|
                0 <= k < c && 0 <= r < rows@.len() ==> (#[trigger] cols@[k]@[r]) == rows@[r]@[k],
        decreases num_cols - c,
    {
        let mut col: Vec<u64> = Vec::new();
        let mut r: usize = 0;
        while r < rows.len()
            invariant
                r <= rows@.len(),
                c < num_cols,
                forall|k: int| 0 <= k < rows@.len() ==> (#[trigger] rows@[k])@.len() == num_cols,
                col@.len() == r,
                forall|k: int| 0 <= k < r ==> (#[trigger] col@[k]) == rows@[k]@[c as int],
            decreases rows@.len() - r,
        {
            col.push(rows[r][c]);
            r = r + 1;
        }
        cols.push(col);
        c = c + 1;
    }
    cols
}

} // verus!
