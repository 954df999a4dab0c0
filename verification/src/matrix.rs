use vstd::prelude::*;

verus! {

use crate::basis::{BlochFuncSet, rep_table_wf, ind_table_wf};
use crate::fnvtable::{FnvTable, fnv_contents};
use crate::ops::{Term, spec_same_count, spec_pm_terms, ss_z_elements, ss_pm_elements};
use crate::config::single_bit;

/// The complex type of the numeric consumer, declared so that values of it
/// can be repacked field by field.
#[verifier::reject_recursive_types(T)]
#[verifier::external_type_specification]
pub struct ExComplex<T>(num_complex::Complex<T>);

/// A complex number laid out as two plain parts, the form in which matrix
/// entries cross the foreign boundary.
#[derive(Clone, Copy, PartialEq, Eq, Structural, Debug)]
pub struct CComplex<T> {
    pub re: T,
    pub im: T,
}

impl<T: Copy> CComplex<T> {
    /// Repack a complex value part by part.
    pub fn from_num_complex(c: num_complex::Complex<T>) -> (r: CComplex<T>)
        ensures
            r.re == c.re,
            r.im == c.im,
    {
        let re = c.re;
        let im = c.im;
        CComplex { re, im }
    }
}

/// A sparse matrix in coordinate form: parallel triplets of value, column
/// and row, with the declared extents. Duplicate coordinates stand for
/// entries to be summed by the consumer.
pub struct CoordMatrix<T> {
    pub data: Vec<T>,
    pub col: Vec<u32>,
    pub row: Vec<u32>,
    pub ncols: u32,
    pub nrows: u32,
}

impl<T> CoordMatrix<T> {
    /// Package parallel triplet arrays with their extents.
    pub fn new(data: Vec<T>, col: Vec<u32>, row: Vec<u32>, ncols: u32, nrows: u32) -> (m:
        CoordMatrix<T>)
        ensures
            m.data == data,
            m.col == col,
            m.row == row,
            m.ncols == ncols,
            m.nrows == nrows,
    {
        CoordMatrix { data, col, row, ncols, nrows }
    }
}

/// Assemble the Ising matrix of a sector: one triplet per representative
/// state, always on the diagonal, holding the aligned-minus-anti-aligned
/// bond count of that state. The numeric entry is a quarter of the stored
/// count.
pub fn ss_z_matrix(sites: &(Vec<u64>, Vec<u64>), s: &BlochFuncSet) -> (m: CoordMatrix<i64>)
    requires
        s.wf(),
        s.funcs@.len() <= u32::MAX,
        sites.0@.len() == sites.1@.len(),
        sites.0@.len() <= 1000000,
    ensures
        m.nrows == s.funcs@.len(),
        m.ncols == s.funcs@.len(),
        m.data@.len() == s.funcs@.len(),
        m.row@.len() == s.funcs@.len(),
        m.col@.len() == s.funcs@.len(),
        forall|i: int| 0 <= i < m.row@.len() ==> #[trigger] m.row@[i] == i,
        forall|i: int| 0 <= i < m.col@.len() ==> #[trigger] m.col@[i] == i,
        forall|i: int|
            0 <= i < m.data@.len() ==> #[trigger] m.data@[i] == 2 * spec_same_count(
                sites.0@,
                sites.1@,
                s.funcs@[i].lead,
                sites.0@.len() as int,
            ) - sites.0@.len(),
{
    let n = s.funcs.len();
    let mut data: Vec<i64> = Vec::new();
    let mut col: Vec<u32> = Vec::new();
    let mut row: Vec<u32> = Vec::new();
    let mut i: usize = 0;
    while i < n
        invariant
            s.wf(),
            s.funcs@.len() <= u32::MAX,
            sites.0@.len() == sites.1@.len(),
            sites.0@.len() <= 1000000,
            n == s.funcs@.len(),
            i <= n,
            data@.len() == i,
            col@.len() == i,
            row@.len() == i,
            forall|q: int| 0 <= q < i ==> #[trigger] row@[q] == q,
            forall|q: int| 0 <= q < i ==> #[trigger] col@[q] == q,
            forall|q: int|
                0 <= q < i ==> #[trigger] data@[q] == 2 * spec_same_count(
                    sites.0@,
                    sites.1@,
                    s.funcs@[q].lead,
                    sites.0@.len() as int,
                ) - sites.0@.len(),
        decreases n - i,
    {
        let e = ss_z_elements(sites, &s.funcs[i]);
        data.push(e);
        col.push(i as u32);
        row.push(i as u32);
        i = i + 1;
    }
    CoordMatrix::new(data, col, row, n as u32, n as u32)
}

/// The exchange terms of the first `i` rows of a sector, concatenated in
/// row order.
pub open spec fn spec_pm_rows(
    s: BlochFuncSet,
    rep: Map<u64, u32>,
    ind: Map<u64, u32>,
    s1s: Seq<u64>,
    s2s: Seq<u64>,
    i: int,
) -> Seq<Term>
    decreases i,
{
    if i <= 0 {
        Seq::empty()
    } else {
        spec_pm_rows(s, rep, ind, s1s, s2s, i - 1) + spec_pm_terms(
            s,
            rep,
            ind,
            s.funcs@[i - 1].lead,
            s.funcs@[i - 1].norm_sq,
            s1s,
            s2s,
            s1s.len() as int,
        )
    }
}

/// The row index of every term of the first `i` rows.
pub open spec fn spec_pm_row_ids(
    s: BlochFuncSet,
    rep: Map<u64, u32>,
    ind: Map<u64, u32>,
    s1s: Seq<u64>,
    s2s: Seq<u64>,
    i: int,
) -> Seq<u32>
    decreases i,
{
    if i <= 0 {
        Seq::empty()
    } else {
        spec_pm_row_ids(s, rep, ind, s1s, s2s, i - 1) + Seq::new(
            spec_pm_terms(
                s,
                rep,
                ind,
                s.funcs@[i - 1].lead,
                s.funcs@[i - 1].norm_sq,
                s1s,
                s2s,
                s1s.len() as int,
            ).len(),
            |q: int| (i - 1) as u32,
        )
    }
}

/// Assemble the XY-exchange matrix of a sector: every representative's
/// exchange terms in row order, as symbolic triplets.
pub fn ss_pm_matrix(
    sites: &(Vec<u64>, Vec<u64>),
    dec_to_ind: &FnvTable,
    hashtable: &FnvTable,
    s: &BlochFuncSet,
) -> (m: CoordMatrix<Term>)
    requires
        s.wf(),
        s.funcs@.len() <= u32::MAX,
        rep_table_wf(fnv_contents(*hashtable), *s),
        ind_table_wf(fnv_contents(*dec_to_ind), *s),
        sites.0@.len() == sites.1@.len(),
        forall|k: int| 0 <= k < sites.0@.len() ==> single_bit(#[trigger] sites.0@[k]),
        forall|k: int| 0 <= k < sites.1@.len() ==> single_bit(#[trigger] sites.1@[k]),
    ensures
        m.nrows == s.funcs@.len(),
        m.ncols == s.funcs@.len(),
        m.data@ == spec_pm_rows(
            *s,
            fnv_contents(*hashtable),
            fnv_contents(*dec_to_ind),
            sites.0@,
            sites.1@,
            s.funcs@.len() as int,
        ),
        m.row@ == spec_pm_row_ids(
            *s,
            fnv_contents(*hashtable),
            fnv_contents(*dec_to_ind),
            sites.0@,
            sites.1@,
            s.funcs@.len() as int,
        ),
        m.col@.len() == m.data@.len(),
        m.row@.len() == m.data@.len(),
        forall|q: int| 0 <= q < m.data@.len() ==> #[trigger] m.col@[q] == m.data@[q].col,
{
    let ghost rep = fnv_contents(*hashtable);
    let ghost ind = fnv_contents(*dec_to_ind);
    let n = s.funcs.len();
    let mut data: Vec<Term> = Vec::new();
    let mut col: Vec<u32> = Vec::new();
    let mut row: Vec<u32> = Vec::new();
    let mut i: usize = 0;
    proof {
        assert(data@ =~= spec_pm_rows(*s, rep, ind, sites.0@, sites.1@, 0));
        assert(row@ =~= spec_pm_row_ids(*s, rep, ind, sites.0@, sites.1@, 0));
    }
    while i < n
        invariant
            s.wf(),
            s.funcs@.len() <= u32::MAX,
            rep == fnv_contents(*hashtable),
            ind == fnv_contents(*dec_to_ind),
            rep_table_wf(rep, *s),
            ind_table_wf(ind, *s),
            sites.0@.len() == sites.1@.len(),
            forall|k: int| 0 <= k < sites.0@.len() ==> single_bit(#[trigger] sites.0@[k]),
            forall|k: int| 0 <= k < sites.1@.len() ==> single_bit(#[trigger] sites.1@[k]),
            n == s.funcs@.len(),
            i <= n,
            data@ == spec_pm_rows(*s, rep, ind, sites.0@, sites.1@, i as int),
            row@ == spec_pm_row_ids(*s, rep, ind, sites.0@, sites.1@, i as int),
            col@.len() == data@.len(),
            row@.len() == data@.len(),
            forall|q: int| 0 <= q < data@.len() ==> #[trigger] col@[q] == data@[q].col,
        decreases n - i,
    {
        let terms = ss_pm_elements(sites, &s.funcs[i], dec_to_ind, hashtable, s);
        let mut t: usize = 0;
        let ghost terms_seq = terms@;
        while t < terms.len()
            invariant
                t <= terms@.len(),
                terms@ == terms_seq,
                data@ == spec_pm_rows(*s, rep, ind, sites.0@, sites.1@, i as int) + terms_seq.subrange(
                    0,
                    t as int,
                ),
                row@.len() == data@.len(),
                col@.len() == data@.len(),
                i < u32::MAX,
                forall|q: int|
                    spec_pm_rows(*s, rep, ind, sites.0@, sites.1@, i as int).len() <= q
                        < row@.len() ==> #[trigger] row@[q] == i,
                row@.subrange(
                    0,
                    spec_pm_rows(*s, rep, ind, sites.0@, sites.1@, i as int).len() as int,
                ) == spec_pm_row_ids(*s, rep, ind, sites.0@, sites.1@, i as int),
                forall|q: int| 0 <= q < data@.len() ==> #[trigger] col@[q] == data@[q].col,
            decreases terms@.len() - t,
        {
            let term = terms[t];
            data.push(term);
            col.push(term.col);
            row.push(i as u32);
            proof {
                assert(data@ =~= spec_pm_rows(*s, rep, ind, sites.0@, sites.1@, i as int)
                    + terms_seq.subrange(0, t + 1));
                assert(row@.subrange(
                    0,
                    spec_pm_rows(*s, rep, ind, sites.0@, sites.1@, i as int).len() as int,
                ) =~= spec_pm_row_ids(*s, rep, ind, sites.0@, sites.1@, i as int));
            }
            t = t + 1;
        }
        proof {
            assert(terms_seq.subrange(0, terms_seq.len() as int) =~= terms_seq);
            assert(data@ =~= spec_pm_rows(*s, rep, ind, sites.0@, sites.1@, i + 1));
            assert(row@ =~= spec_pm_row_ids(*s, rep, ind, sites.0@, sites.1@, i + 1));
        }
        i = i + 1;
    }
    CoordMatrix::new(data, col, row, n as u32, n as u32)
}

} // verus!
