//! Copy constraints between tables: the rows of some columns of one table,
//! as a multiset of tuples, equal those of columns of another, the shorter
//! table padded with a default tuple. The check is a randomized grand product.
use vstd::prelude::*;

use crate::all_stark::Table;
use crate::field::{canonical, fadd, field_add, field_mul, fmul, fpow, exp_u64};

verus! {

#[derive(Clone, Copy, Debug, PartialEq, Eq, Structural)]
pub enum CtlError {
    /// The columns and the default tuple differ in length, or a column is
    /// not in its table.
    ConfigMismatch,
}

pub struct CrossTableLookup {
    pub looking_table: Table,
    pub looking_columns: Vec<usize>,
    pub looked_table: Table,
    pub looked_columns: Vec<usize>,
    pub default: Vec<u64>,
}

impl CrossTableLookup {
    pub open spec fn wf(&self) -> bool {
        &&& self.looking_columns@.len() == self.looked_columns@.len()
        &&& self.looked_columns@.len() == self.default@.len()
        &&& forall|i: int| 0 <= i < self.default@.len() ==> canonical(#[trigger] self.default@[i])
    }

    /// A lookup whose column lists and default tuple have one length.
    pub fn new(
        looking_table: Table,
        looking_columns: Vec<usize>,
        looked_table: Table,
        looked_columns: Vec<usize>,
        default: Vec<u64>,
    ) -> (r: Result<CrossTableLookup, CtlError>)
        requires
            forall|i: int| 0 <= i < default@.len() ==> canonical(#[trigger] default@[i]),
        ensures
            r is Ok <==> (looking_columns@.len() == looked_columns@.len() && looked_columns@.len() == default@.len()),
            r matches Ok(c) ==> c.wf() && c.looking_table == looking_table && c.looked_table == looked_table
                && c.looking_columns@ == looking_columns@ && c.looked_columns@ == looked_columns@
                && c.default@ == default@,
            r matches Err(e) ==> e == CtlError::ConfigMismatch,
    {
        if looking_columns.len() != looked_columns.len() || looked_columns.len() != default.len() {
            return Err(CtlError::ConfigMismatch);
        }
        Ok(CrossTableLookup { looking_table, looking_columns, looked_table, looked_columns, default })
    }
}

/// A table's trace: columns of equal length holding field elements.
pub open spec fn trace_wf(trace: Seq<Vec<u64>>, num_rows: nat) -> bool {
    forall|c: int|
        0 <= c < trace.len() ==> (#[trigger] trace[c])@.len() == num_rows && forall|r: int|
            0 <= r < num_rows ==> canonical(#[trigger] trace[c]@[r])
}

/// `gamma + sum_k beta^k t[k]`: a tuple folded into one field element.
pub open spec fn fold_tuple(t: Seq<u64>, beta: u64, gamma: u64) -> int {
    fadd(reduce_tuple(t, beta), gamma as int)
}

pub open spec fn reduce_tuple(t: Seq<u64>, beta: u64) -> int
    decreases t.len(),
{
    if t.len() == 0 {
        0
    } else {
        fadd(fmul(reduce_tuple(t.drop_first(), beta), beta as int), t[0] as int)
    }
}

/// The tuple of `columns` in row `r`.
pub open spec fn row_tuple(trace: Seq<Vec<u64>>, columns: Seq<usize>, r: int) -> Seq<u64> {
    Seq::new(columns.len(), |k: int| trace[columns[k] as int]@[r])
}

/// The product of the folded tuples of the first `n` rows.
pub open spec fn rows_product(trace: Seq<Vec<u64>>, columns: Seq<usize>, beta: u64, gamma: u64, n: int) -> int
    decreases n,
{
    if n <= 0 {
        1
    } else {
        fmul(rows_product(trace, columns, beta, gamma, n - 1), fold_tuple(row_tuple(trace, columns, n - 1), beta, gamma))
    }
}

/// Both sides of the grand product, each with the default tuple once for
/// every row that its table is shorter than the other.
pub open spec fn lookup_holds(
    ctl: &CrossTableLookup,
    looking: Seq<Vec<u64>>,
    looking_rows: nat,
    looked: Seq<Vec<u64>>,
    looked_rows: nat,
    beta: u64,
    gamma: u64,
) -> bool {
    let rows = if looking_rows >= looked_rows { looking_rows } else { looked_rows };
    let d = fold_tuple(ctl.default@, beta, gamma);
    fmul(
        rows_product(looking, ctl.looking_columns@, beta, gamma, looking_rows as int),
        fpow(d, (rows - looking_rows) as nat),
    ) == fmul(
        rows_product(looked, ctl.looked_columns@, beta, gamma, looked_rows as int),
        fpow(d, (rows - looked_rows) as nat),
    )
}

fn fold_row(trace: &Vec<Vec<u64>>, columns: &Vec<usize>, r: usize, num_rows: usize, beta: u64, gamma: u64) -> (res: u64)
    requires
        trace_wf(trace@, num_rows as nat),
        r < num_rows,
        forall|k: int| 0 <= k < columns@.len() ==> (#[trigger] columns@[k] as int) < trace@.len(),
        canonical(beta),
        canonical(gamma),
    ensures
        res == fold_tuple(row_tuple(trace@, columns@, r as int), beta, gamma),
        canonical(res),
{
    let ghost t = row_tuple(trace@, columns@, r as int);
    let mut acc: u64 = 0;
    let mut k: usize = columns.len();
    assert(t.skip(k as int) =~= Seq::<u64>::empty());
    while k > 0
        invariant
            k <= columns@.len(),
            t == row_tuple(trace@, columns@, r as int),
            trace_wf(trace@, num_rows as nat),
            r < num_rows,
            forall|j: int| 0 <= j < columns@.len() ==> (#[trigger] columns@[j] as int) < trace@.len(),
            canonical(beta),
            canonical(acc),
            acc == reduce_tuple(t.skip(k as int), beta),
        decreases k,
    {
        assert(t.skip(k - 1).drop_first() =~= t.skip(k as int));
        let c = columns[k - 1];
        let v = trace[c][r];
        acc = field_add(field_mul(acc, beta), v);
        k = k - 1;
    }
    assert(t.skip(0) =~= t);
    field_add(acc, gamma)
}

fn product_of_rows(trace: &Vec<Vec<u64>>, columns: &Vec<usize>, num_rows: usize, beta: u64, gamma: u64) -> (res: u64)
    requires
        trace_wf(trace@, num_rows as nat),
        forall|k: int| 0 <= k < columns@.len() ==> (#[trigger] columns@[k] as int) < trace@.len(),
        canonical(beta),
        canonical(gamma),
    ensures
        res == rows_product(trace@, columns@, beta, gamma, num_rows as int),
        canonical(res),
{
    let mut acc: u64 = 1;
    let mut r: usize = 0;
    while r < num_rows
        invariant
            r <= num_rows,
            trace_wf(trace@, num_rows as nat),
            forall|k: int| 0 <= k < columns@.len() ==> (#[trigger] columns@[k] as int) < trace@.len(),
            canonical(beta),
            canonical(gamma),
            canonical(acc),
            acc == rows_product(trace@, columns@, beta, gamma, r as int),
        decreases num_rows - r,
    {
        let f = fold_row(trace, columns, r, num_rows, beta, gamma);
        acc = field_mul(acc, f);
        r = r + 1;
    }
    acc
}

fn columns_in_range(columns: &Vec<usize>, width: usize) -> (r: bool)
    ensures
        r == forall|k: int| 0 <= k < columns@.len() ==> (#[trigger] columns@[k] as int) < width,
{
    let mut i: usize = 0;
    while i < columns.len()
        invariant
            i <= columns@.len(),
            forall|k: int| 0 <= k < i ==> (#[trigger] columns@[k] as int) < width,
        decreases columns@.len() - i,
    {
        if columns[i] >= width {
            return false;
        }
        i = i + 1;
    }
    true
}

impl CrossTableLookup {
    /// Checks the lookup on the traces of its two tables with the
    /// challenges `beta` and `gamma`: the grand products of the folded tuples
    /// agree once the shorter table is padded with the default tuple.
    pub fn check(
        &self,
        looking: &Vec<Vec<u64>>,
        looking_rows: usize,
        looked: &Vec<Vec<u64>>,
        looked_rows: usize,
        beta: u64,
        gamma: u64,
    ) -> (r: Result<bool, CtlError>)
        requires
            self.wf(),
            trace_wf(looking@, looking_rows as nat),
            trace_wf(looked@, looked_rows as nat),
            canonical(beta),
            canonical(gamma),
        ensures
            r is Err <==> !((forall|k: int| 0 <= k < self.looking_columns@.len() ==> (#[trigger] self.looking_columns@[k] as int) < looking@.len())
                && (forall|k: int| 0 <= k < self.looked_columns@.len() ==> (#[trigger] self.looked_columns@[k] as int) < looked@.len())),
            r matches Ok(b) ==> b == lookup_holds(self, looking@, looking_rows as nat, looked@, looked_rows as nat, beta, gamma),
    {
        if !columns_in_range(&self.looking_columns, looking.len()) || !columns_in_range(&self.looked_columns, looked.len()) {
            return Err(CtlError::ConfigMismatch);
        }
        let a = product_of_rows(looking, &self.looking_columns, looking_rows, beta, gamma);
        let b = product_of_rows(looked, &self.looked_columns, looked_rows, beta, gamma);
        let d = fold_default(&self.default, beta, gamma);
        let rows = if looking_rows >= looked_rows { looking_rows } else { looked_rows };
        let lhs = field_mul(a, exp_u64(d, (rows - looking_rows) as u64));
        let rhs = field_mul(b, exp_u64(d, (rows - looked_rows) as u64));
        Ok(lhs == rhs)
    }
}

fn fold_default(t: &Vec<u64>, beta: u64, gamma: u64) -> (res: u64)
    requires
        forall|i: int| 0 <= i < t@.len() ==> canonical(#[trigger] t@[i]),
        canonical(beta),
        canonical(gamma),
    ensures
        res == fold_tuple(t@, beta, gamma),
        canonical(res),
{
    let mut acc: u64 = 0;
    let mut k: usize = t.len();
    assert(t@.skip(k as int) =~= Seq::<u64>::empty());
    while k > 0
        invariant
            k <= t@.len(),
            forall|i: int| 0 <= i < t@.len() ==> canonical(#[trigger] t@[i]),
            canonical(beta),
            canonical(acc),
            acc == reduce_tuple(t@.skip(k as int), beta),
        decreases k,
    {
        assert(t@.skip(k - 1).drop_first() =~= t@.skip(k as int));
        acc = field_add(field_mul(acc, beta), t[k - 1]);
        k = k - 1;
    }
    assert(t@.skip(0) =~= t@);
    field_add(acc, gamma)
}

} // verus!
