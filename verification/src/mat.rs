//! Dense rank-2 tensors of IEEE-754 bit patterns, and their arithmetic.
//!
//! A matrix is a rectangular `Vec` of rows; its mathematical view is a
//! `Seq<Seq<u64>>` of scalar bit patterns.  Every operation carries an exact
//! contract over the spec functions below, which compose the named scalar
//! operations of [`crate::fp`].  Sums and dot products fold left to right,
//! starting from +0.0, in row-major order.

use vstd::prelude::*;

use crate::error::Error;
use crate::fp::{add_of, div_of, mul_of, fp_add, fp_div, fp_mul, ZERO_BITS, MAGNITUDE_MASK};

verus! {

/// The common row length of a matrix view, taken from its first row.
pub open spec fn cols(m: Seq<Seq<u64>>) -> nat {
    if m.len() == 0 {
        0
    } else {
        m[0].len()
    }
}

/// Whether every row of the view has the common row length.
pub open spec fn is_rect(m: Seq<Seq<u64>>) -> bool {
    forall|i: int| 0 <= i < m.len() ==> (#[trigger] m[i]).len() == cols(m)
}

/// The left fold of IEEE-754 addition over a row, started from `acc`.
pub open spec fn fold_from(acc: u64, s: Seq<u64>) -> u64
    decreases s.len(),
{
    if s.len() == 0 {
        acc
    } else {
        add_of(fold_from(acc, s.drop_last()), s.last())
    }
}

/// The left-to-right sum of a row, started from +0.0.
pub open spec fn sum_seq(s: Seq<u64>) -> u64 {
    fold_from(ZERO_BITS, s)
}

/// The left-to-right sum of a whole matrix in row-major order, started from
/// +0.0: each row continues the accumulator the previous row left.
pub open spec fn msum(m: Seq<Seq<u64>>) -> u64
    decreases m.len(),
{
    if m.len() == 0 {
        ZERO_BITS
    } else {
        fold_from(msum(m.drop_last()), m.last())
    }
}

/// The dot product of two equally long rows: products are added left to
/// right, starting from +0.0.
pub open spec fn dot(a: Seq<u64>, b: Seq<u64>) -> u64
    decreases a.len(),
{
    if a.len() == 0 || b.len() == 0 {
        ZERO_BITS
    } else {
        add_of(dot(a.drop_last(), b.drop_last()), mul_of(a.last(), b.last()))
    }
}

/// Column `j` of a matrix view, as a row.
pub open spec fn col_of(m: Seq<Seq<u64>>, j: int) -> Seq<u64> {
    Seq::new(m.len(), |i: int| m[i][j])
}

/// The matrix product: cell `(i, j)` is the dot product of row `i` of `a`
/// with column `j` of `b`.
pub open spec fn matmul_spec(a: Seq<Seq<u64>>, b: Seq<Seq<u64>>) -> Seq<Seq<u64>> {
    Seq::new(a.len(), |i: int| Seq::new(cols(b) as nat, |j: int| dot(a[i], col_of(b, j))))
}

/// The transpose of a matrix view.
pub open spec fn transpose_spec(m: Seq<Seq<u64>>) -> Seq<Seq<u64>> {
    Seq::new(cols(m) as nat, |i: int| Seq::new(m.len(), |j: int| m[j][i]))
}

/// Elementwise IEEE-754 product of two equally shaped matrices.
pub open spec fn hadamard_spec(a: Seq<Seq<u64>>, b: Seq<Seq<u64>>) -> Seq<Seq<u64>> {
    Seq::new(a.len(), |i: int| Seq::new(a[i].len(), |j: int| mul_of(a[i][j], b[i][j])))
}

/// Elementwise IEEE-754 difference of two equally shaped matrices.
pub open spec fn minus_spec(a: Seq<Seq<u64>>, b: Seq<Seq<u64>>) -> Seq<Seq<u64>> {
    Seq::new(a.len(), |i: int| Seq::new(a[i].len(), |j: int| crate::fp::sub_of(a[i][j], b[i][j])))
}

/// Each cell multiplied by the scalar `s` on the left.
pub open spec fn scale_spec(s: u64, m: Seq<Seq<u64>>) -> Seq<Seq<u64>> {
    Seq::new(m.len(), |i: int| Seq::new(m[i].len(), |j: int| mul_of(s, m[i][j])))
}

/// Each cell divided by the scalar `d`.
pub open spec fn div_all_spec(m: Seq<Seq<u64>>, d: u64) -> Seq<Seq<u64>> {
    Seq::new(m.len(), |i: int| Seq::new(m[i].len(), |j: int| div_of(m[i][j], d)))
}

/// The bias row added to every row: cell `(i, j)` becomes `m[i][j] + b[j]`.
pub open spec fn add_bias_spec(m: Seq<Seq<u64>>, b: Seq<u64>) -> Seq<Seq<u64>> {
    Seq::new(m.len(), |i: int| Seq::new(m[i].len(), |j: int| add_of(m[i][j], b[j])))
}

/// Each cell with its sign bit cleared: the elementwise absolute value.
pub open spec fn abs_spec(m: Seq<Seq<u64>>) -> Seq<Seq<u64>> {
    Seq::new(m.len(), |i: int| Seq::new(m[i].len(), |j: int| m[i][j] & MAGNITUDE_MASK))
}

/// Whether two matrix views have the same shape, row by row.
pub open spec fn same_shape(a: Seq<Seq<u64>>, b: Seq<Seq<u64>>) -> bool {
    b.len() == a.len() && forall|i: int| 0 <= i < a.len() ==> (#[trigger] b[i]).len() == a[i].len()
}

/// A matrix of `r` rows and `c` columns all holding the scalar `v`.
pub open spec fn const_mat(r: nat, c: nat, v: u64) -> Seq<Seq<u64>> {
    Seq::new(r, |i: int| Seq::new(c, |j: int| v))
}

/// The view of a vector of rows.
pub open spec fn view_of_rows(rows: Seq<Vec<u64>>) -> Seq<Seq<u64>> {
    Seq::new(rows.len(), |i: int| rows[i]@)
}

/// Extending the folded prefix of a row by one element adds that element.
pub proof fn lemma_fold_take(acc: u64, s: Seq<u64>, l: int)
    requires
        0 <= l < s.len(),
    ensures
        fold_from(acc, s.take(l + 1)) == add_of(fold_from(acc, s.take(l)), s[l]),
{
    assert(s.take(l + 1).drop_last() =~= s.take(l));
    assert(s.take(l + 1).last() == s[l]);
}

/// Extending the dotted prefixes of two rows by one element adds the product
/// of the new pair.
pub proof fn lemma_dot_take(a: Seq<u64>, b: Seq<u64>, l: int)
    requires
        0 <= l < a.len(),
        l < b.len(),
    ensures
        dot(a.take(l + 1), b.take(l + 1)) == add_of(dot(a.take(l), b.take(l)), mul_of(a[l], b[l])),
{
    assert(a.take(l + 1).drop_last() =~= a.take(l));
    assert(b.take(l + 1).drop_last() =~= b.take(l));
    assert(a.take(l + 1).last() == a[l]);
    assert(b.take(l + 1).last() == b[l]);
}

/// Extending the row-major sum by one more row folds that row into the
/// accumulator.
pub proof fn lemma_msum_take(m: Seq<Seq<u64>>, i: int)
    requires
        0 <= i < m.len(),
    ensures
        msum(m.take(i + 1)) == fold_from(msum(m.take(i)), m[i]),
{
    assert(m.take(i + 1).drop_last() =~= m.take(i));
    assert(m.take(i + 1).last() == m[i]);
}

/// An exact copy of a scalar vector.
pub(crate) fn duplicate_vec(a: &Vec<u64>) -> (r: Vec<u64>)
    ensures
        r@ == a@,
{
    let n = a.len();
    let mut out: Vec<u64> = Vec::new();
    let mut j: usize = 0;
    while j < n
        invariant
            0 <= j <= n,
            out@.len() == j,
            forall|q: int| 0 <= q < j ==> out@[q] == a@[q],
        decreases n - j,
    {
        out.push(a[j]);
        j += 1;
    }
    assert(out@ =~= a@);
    out
}

/// A dense matrix of IEEE-754 bit patterns.
pub struct Mat {
    /// The rows, each a `Vec` of scalar bit patterns.
    pub rows: Vec<Vec<u64>>,
}

impl View for Mat {
    type V = Seq<Seq<u64>>;

    open spec fn view(&self) -> Seq<Seq<u64>> {
        view_of_rows(self.rows@)
    }
}

impl Mat {
    /// A well-formed matrix is rectangular.
    pub open spec fn wf(&self) -> bool {
        is_rect(self@)
    }

    /// The number of rows, in spec.
    pub open spec fn spec_nrows(&self) -> nat {
        self@.len()
    }

    /// The common row length, in spec.
    pub open spec fn spec_ncols(&self) -> nat {
        cols(self@)
    }

    /// Wraps rows into a matrix if they are rectangular, and reports a shape
    /// mismatch otherwise.
    pub fn new(rows: Vec<Vec<u64>>) -> (r: Result<Mat, Error>)
        ensures
            r is Ok <==> is_rect(view_of_rows(rows@)),
            r is Ok ==> r->Ok_0@ == view_of_rows(rows@) && r->Ok_0.wf(),
            r is Err ==> r->Err_0 == Error::ShapeMismatch,
    {
        let n = rows.len();
        let c = if n == 0 { 0 } else { rows[0].len() };
        let mut i: usize = 0;
        while i < n
            invariant
                0 <= i <= n,
                n == rows@.len(),
                c == cols(view_of_rows(rows@)),
                forall|k: int| 0 <= k < i ==> (#[trigger] rows@[k])@.len() == c,
            decreases n - i,
        {
            if rows[i].len() != c {
                assert(view_of_rows(rows@)[i as int].len() != cols(view_of_rows(rows@)));
                assert(!is_rect(view_of_rows(rows@)));
                return Err(Error::ShapeMismatch);
            }
            i += 1;
        }
        let m = Mat { rows };
        assert(is_rect(m@));
        Ok(m)
    }

    /// The number of rows.
    pub fn nrows(&self) -> (r: usize)
        ensures
            r == self.spec_nrows(),
    {
        self.rows.len()
    }

    /// The common row length.
    pub fn ncols(&self) -> (r: usize)
        ensures
            r == self.spec_ncols(),
    {
        if self.rows.len() == 0 {
            0
        } else {
            self.rows[0].len()
        }
    }

    /// A matrix of `r` rows and `c` columns, all zero.
    pub fn zeros(r: usize, c: usize) -> (m: Mat)
        ensures
            m@ == const_mat(r as nat, c as nat, ZERO_BITS),
            m.wf(),
            m.spec_nrows() == r,
            r > 0 ==> m.spec_ncols() == c,
    {
        let mut rows: Vec<Vec<u64>> = Vec::new();
        let mut i: usize = 0;
        while i < r
            invariant
                0 <= i <= r,
                rows@.len() == i,
                forall|k: int| 0 <= k < i ==> (#[trigger] rows@[k])@ == const_mat(r as nat, c as nat, ZERO_BITS)[k],
            decreases r - i,
        {
            let mut row: Vec<u64> = Vec::new();
            let mut j: usize = 0;
            while j < c
                invariant
                    0 <= j <= c,
                    row@.len() == j,
                    forall|l: int| 0 <= l < j ==> row@[l] == ZERO_BITS,
                decreases c - j,
            {
                row.push(ZERO_BITS);
                j += 1;
            }
            assert(row@ =~= const_mat(r as nat, c as nat, ZERO_BITS)[i as int]);
            rows.push(row);
            i += 1;
        }
        let m = Mat { rows };
        assert(m@ =~= const_mat(r as nat, c as nat, ZERO_BITS));
        m
    }

    /// An exact copy.
    pub fn duplicate(&self) -> (r: Mat)
        ensures
            r@ == self@,
            r.wf() == self.wf(),
    {
        let n = self.rows.len();
        let mut rows: Vec<Vec<u64>> = Vec::new();
        let mut i: usize = 0;
        while i < n
            invariant
                0 <= i <= n,
                n == self.rows@.len(),
                rows@.len() == i,
                forall|k: int| 0 <= k < i ==> (#[trigger] rows@[k])@ == self@[k],
            decreases n - i,
        {
            let len = self.rows[i].len();
            let mut row: Vec<u64> = Vec::new();
            let mut j: usize = 0;
            while j < len
                invariant
                    0 <= j <= len,
                    i < self.rows@.len(),
                    len == self.rows@[i as int]@.len(),
                    row@.len() == j,
                    forall|l: int| 0 <= l < j ==> row@[l] == self.rows@[i as int]@[l],
                decreases len - j,
            {
                row.push(self.rows[i][j]);
                j += 1;
            }
            assert(row@ =~= self@[i as int]);
            rows.push(row);
            i += 1;
        }
        let m = Mat { rows };
        assert(m@ =~= self@);
        m
    }

    /// The matrix product `self · other`, or a shape mismatch unless
    /// `self` has as many columns as `other` has rows.
    pub fn matmul(&self, other: &Mat) -> (r: Result<Mat, Error>)
        requires
            self.wf(),
            other.wf(),
        ensures
            r is Ok <==> self.spec_ncols() == other.spec_nrows(),
            r is Ok ==> r->Ok_0@ == matmul_spec(self@, other@),
            r is Ok ==> r->Ok_0.wf() && r->Ok_0.spec_nrows() == self.spec_nrows(),
            r is Ok && self.spec_nrows() > 0 ==> r->Ok_0.spec_ncols() == other.spec_ncols(),
            r is Err ==> r->Err_0 == Error::ShapeMismatch,
    {
        let k = self.ncols();
        if k != other.nrows() {
            return Err(Error::ShapeMismatch);
        }
        let m = self.nrows();
        let n = other.ncols();
        let ghost target = matmul_spec(self@, other@);
        let mut rows: Vec<Vec<u64>> = Vec::new();
        let mut i: usize = 0;
        while i < m
            invariant
                0 <= i <= m,
                rows@.len() == i,
                forall|p: int| 0 <= p < i ==> (#[trigger] rows@[p])@ == target[p],
            decreases m - i,
        {
            let mut row: Vec<u64> = Vec::new();
            let mut j: usize = 0;
            while j < n
                invariant
                    0 <= j <= n,
                    i < m,
                    row@.len() == j,
                    forall|q: int| 0 <= q < j ==> row@[q] == target[i as int][q],
                decreases n - j,
            {
                let mut acc: u64 = ZERO_BITS;
                let mut l: usize = 0;
                let ghost a = self@[i as int];
                let ghost b = col_of(other@, j as int);
                while l < k
                    invariant
                        0 <= l <= k,
                        i < m,
                        j < n,
                        a == self@[i as int],
                        b == col_of(other@, j as int),
                        a.len() == k,
                        b.len() == k,
                        acc == dot(a.take(l as int), b.take(l as int)),
                    decreases k - l,
                {
                    assert(self@[i as int] == self.rows@[i as int]@);
                    assert(other@[l as int].len() == cols(other@));
                    let prod = fp_mul(self.rows[i][l], other.rows[l][j]);
                    proof {
                        lemma_dot_take(a, b, l as int);
                    }
                    acc = fp_add(acc, prod);
                    l += 1;
                }
                assert(a.take(k as int) =~= a);
                assert(b.take(k as int) =~= b);
                assert(acc == target[i as int][j as int]);
                row.push(acc);
                j += 1;
            }
            assert(row@ =~= target[i as int]);
            rows.push(row);
            i += 1;
        }
        let out = Mat { rows };
        assert(out@ =~= target);
        assert(is_rect(out@));
        Ok(out)
    }

    /// The transpose.
    pub fn transpose(&self) -> (r: Mat)
        requires
            self.wf(),
        ensures
            r@ == transpose_spec(self@),
            r.wf(),
            r.spec_nrows() == self.spec_ncols(),
            self.spec_ncols() > 0 ==> r.spec_ncols() == self.spec_nrows(),
    {
        let m = self.nrows();
        let n = self.ncols();
        let ghost target = transpose_spec(self@);
        let mut rows: Vec<Vec<u64>> = Vec::new();
        let mut i: usize = 0;
        while i < n
            invariant
                0 <= i <= n,
                rows@.len() == i,
                forall|p: int| 0 <= p < i ==> (#[trigger] rows@[p])@ == target[p],
            decreases n - i,
        {
            let mut row: Vec<u64> = Vec::new();
            let mut j: usize = 0;
            while j < m
                invariant
                    0 <= j <= m,
                    i < n,
                    row@.len() == j,
                    forall|q: int| 0 <= q < j ==> row@[q] == target[i as int][q],
                decreases m - j,
            {
                assert(self@[j as int].len() == cols(self@));
                row.push(self.rows[j][i]);
                j += 1;
            }
            assert(row@ =~= target[i as int]);
            rows.push(row);
            i += 1;
        }
        let out = Mat { rows };
        assert(out@ =~= target);
        assert(is_rect(out@)) by {
            assert(forall|p: int| 0 <= p < out@.len() ==> (#[trigger] out@[p]).len() == m);
        }
        out
    }

    /// The elementwise product, or a shape mismatch unless the two matrices
    /// have the same shape.
    pub fn hadamard(&self, other: &Mat) -> (r: Result<Mat, Error>)
        requires
            self.wf(),
            other.wf(),
        ensures
            r is Ok <==> self.spec_nrows() == other.spec_nrows()
                && self.spec_ncols() == other.spec_ncols(),
            r is Ok ==> r->Ok_0@ == hadamard_spec(self@, other@),
            r is Ok ==> r->Ok_0.wf() && r->Ok_0.spec_nrows() == self.spec_nrows()
                && r->Ok_0.spec_ncols() == self.spec_ncols(),
            r is Err ==> r->Err_0 == Error::ShapeMismatch,
    {
        if self.nrows() != other.nrows() || self.ncols() != other.ncols() {
            return Err(Error::ShapeMismatch);
        }
        let m = self.nrows();
        let n = self.ncols();
        let ghost target = hadamard_spec(self@, other@);
        let mut rows: Vec<Vec<u64>> = Vec::new();
        let mut i: usize = 0;
        while i < m
            invariant
                0 <= i <= m,
                rows@.len() == i,
                forall|p: int| 0 <= p < i ==> (#[trigger] rows@[p])@ == target[p],
            decreases m - i,
        {
            let mut row: Vec<u64> = Vec::new();
            let mut j: usize = 0;
            while j < n
                invariant
                    0 <= j <= n,
                    i < m,
                    row@.len() == j,
                    forall|q: int| 0 <= q < j ==> row@[q] == target[i as int][q],
                decreases n - j,
            {
                assert(self@[i as int].len() == cols(self@));
                assert(other@[i as int].len() == cols(other@));
                row.push(fp_mul(self.rows[i][j], other.rows[i][j]));
                j += 1;
            }
            assert(row@ =~= target[i as int]);
            rows.push(row);
            i += 1;
        }
        let out = Mat { rows };
        assert(out@ =~= target);
        assert(is_rect(out@));
        Ok(out)
    }

    /// The elementwise difference, or a shape mismatch unless the two
    /// matrices have the same shape.
    pub fn minus(&self, other: &Mat) -> (r: Result<Mat, Error>)
        requires
            self.wf(),
            other.wf(),
        ensures
            r is Ok <==> self.spec_nrows() == other.spec_nrows()
                && self.spec_ncols() == other.spec_ncols(),
            r is Ok ==> r->Ok_0@ == minus_spec(self@, other@),
            r is Ok ==> r->Ok_0.wf() && r->Ok_0.spec_nrows() == self.spec_nrows()
                && r->Ok_0.spec_ncols() == self.spec_ncols(),
            r is Err ==> r->Err_0 == Error::ShapeMismatch,
    {
        if self.nrows() != other.nrows() || self.ncols() != other.ncols() {
            return Err(Error::ShapeMismatch);
        }
        let m = self.nrows();
        let n = self.ncols();
        let ghost target = minus_spec(self@, other@);
        let mut rows: Vec<Vec<u64>> = Vec::new();
        let mut i: usize = 0;
        while i < m
            invariant
                0 <= i <= m,
                rows@.len() == i,
                forall|p: int| 0 <= p < i ==> (#[trigger] rows@[p])@ == target[p],
            decreases m - i,
        {
            let mut row: Vec<u64> = Vec::new();
            let mut j: usize = 0;
            while j < n
                invariant
                    0 <= j <= n,
                    i < m,
                    row@.len() == j,
                    forall|q: int| 0 <= q < j ==> row@[q] == target[i as int][q],
                decreases n - j,
            {
                assert(self@[i as int].len() == cols(self@));
                assert(other@[i as int].len() == cols(other@));
                row.push(crate::fp::fp_sub(self.rows[i][j], other.rows[i][j]));
                j += 1;
            }
            assert(row@ =~= target[i as int]);
            rows.push(row);
            i += 1;
        }
        let out = Mat { rows };
        assert(out@ =~= target);
        assert(is_rect(out@));
        Ok(out)
    }

    /// Every cell multiplied by the scalar `s` on the left.
    pub fn scale(&self, s: u64) -> (r: Mat)
        requires
            self.wf(),
        ensures
            r@ == scale_spec(s, self@),
            r.wf(),
            r.spec_nrows() == self.spec_nrows(),
            r.spec_ncols() == self.spec_ncols(),
    {
        let m = self.nrows();
        let n = self.ncols();
        let ghost target = scale_spec(s, self@);
        let mut rows: Vec<Vec<u64>> = Vec::new();
        let mut i: usize = 0;
        while i < m
            invariant
                0 <= i <= m,
                rows@.len() == i,
                forall|p: int| 0 <= p < i ==> (#[trigger] rows@[p])@ == target[p],
            decreases m - i,
        {
            let mut row: Vec<u64> = Vec::new();
            let mut j: usize = 0;
            while j < n
                invariant
                    0 <= j <= n,
                    i < m,
                    row@.len() == j,
                    forall|q: int| 0 <= q < j ==> row@[q] == target[i as int][q],
                decreases n - j,
            {
                assert(self@[i as int].len() == cols(self@));
                row.push(fp_mul(s, self.rows[i][j]));
                j += 1;
            }
            assert(row@ =~= target[i as int]);
            rows.push(row);
            i += 1;
        }
        let out = Mat { rows };
        assert(out@ =~= target);
        assert(is_rect(out@));
        out
    }

    /// Every cell divided by the scalar `d`.
    pub fn div_by(&self, d: u64) -> (r: Mat)
        requires
            self.wf(),
        ensures
            r@ == div_all_spec(self@, d),
            r.wf(),
            r.spec_nrows() == self.spec_nrows(),
            r.spec_ncols() == self.spec_ncols(),
    {
        let m = self.nrows();
        let n = self.ncols();
        let ghost target = div_all_spec(self@, d);
        let mut rows: Vec<Vec<u64>> = Vec::new();
        let mut i: usize = 0;
        while i < m
            invariant
                0 <= i <= m,
                rows@.len() == i,
                forall|p: int| 0 <= p < i ==> (#[trigger] rows@[p])@ == target[p],
            decreases m - i,
        {
            let mut row: Vec<u64> = Vec::new();
            let mut j: usize = 0;
            while j < n
                invariant
                    0 <= j <= n,
                    i < m,
                    row@.len() == j,
                    forall|q: int| 0 <= q < j ==> row@[q] == target[i as int][q],
                decreases n - j,
            {
                assert(self@[i as int].len() == cols(self@));
                row.push(fp_div(self.rows[i][j], d));
                j += 1;
            }
            assert(row@ =~= target[i as int]);
            rows.push(row);
            i += 1;
        }
        let out = Mat { rows };
        assert(out@ =~= target);
        assert(is_rect(out@));
        out
    }

    /// Every cell with its sign bit cleared.
    pub fn abs_entries(&self) -> (r: Mat)
        requires
            self.wf(),
        ensures
            r@ == abs_spec(self@),
            r.wf(),
            r.spec_nrows() == self.spec_nrows(),
            r.spec_ncols() == self.spec_ncols(),
    {
        let m = self.nrows();
        let n = self.ncols();
        let ghost target = abs_spec(self@);
        let mut rows: Vec<Vec<u64>> = Vec::new();
        let mut i: usize = 0;
        while i < m
            invariant
                0 <= i <= m,
                rows@.len() == i,
                forall|p: int| 0 <= p < i ==> (#[trigger] rows@[p])@ == target[p],
            decreases m - i,
        {
            let mut row: Vec<u64> = Vec::new();
            let mut j: usize = 0;
            while j < n
                invariant
                    0 <= j <= n,
                    i < m,
                    row@.len() == j,
                    forall|q: int| 0 <= q < j ==> row@[q] == target[i as int][q],
                decreases n - j,
            {
                assert(self@[i as int].len() == cols(self@));
                row.push(self.rows[i][j] & MAGNITUDE_MASK);
                j += 1;
            }
            assert(row@ =~= target[i as int]);
            rows.push(row);
            i += 1;
        }
        let out = Mat { rows };
        assert(out@ =~= target);
        assert(is_rect(out@));
        out
    }

    /// The bias row added to every row, or a shape mismatch unless the bias
    /// is as long as a row.
    pub fn add_bias(&self, bias: &Vec<u64>) -> (r: Result<Mat, Error>)
        requires
            self.wf(),
        ensures
            r is Ok <==> self.spec_ncols() == bias@.len(),
            r is Ok ==> r->Ok_0@ == add_bias_spec(self@, bias@),
            r is Ok ==> r->Ok_0.wf() && r->Ok_0.spec_nrows() == self.spec_nrows()
                && r->Ok_0.spec_ncols() == self.spec_ncols(),
            r is Err ==> r->Err_0 == Error::ShapeMismatch,
    {
        if self.ncols() != bias.len() {
            return Err(Error::ShapeMismatch);
        }
        let m = self.nrows();
        let n = self.ncols();
        let ghost target = add_bias_spec(self@, bias@);
        let mut rows: Vec<Vec<u64>> = Vec::new();
        let mut i: usize = 0;
        while i < m
            invariant
                0 <= i <= m,
                rows@.len() == i,
                forall|p: int| 0 <= p < i ==> (#[trigger] rows@[p])@ == target[p],
            decreases m - i,
        {
            let mut row: Vec<u64> = Vec::new();
            let mut j: usize = 0;
            while j < n
                invariant
                    0 <= j <= n,
                    i < m,
                    row@.len() == j,
                    forall|q: int| 0 <= q < j ==> row@[q] == target[i as int][q],
                decreases n - j,
            {
                assert(self@[i as int].len() == cols(self@));
                row.push(fp_add(self.rows[i][j], bias[j]));
                j += 1;
            }
            assert(row@ =~= target[i as int]);
            rows.push(row);
            i += 1;
        }
        let out = Mat { rows };
        assert(out@ =~= target);
        assert(is_rect(out@));
        Ok(out)
    }

    /// The row-major left-to-right sum of every cell, started from +0.0.
    pub fn sum_all(&self) -> (r: u64)
        requires
            self.wf(),
        ensures
            r == msum(self@),
    {
        let m = self.nrows();
        let mut acc: u64 = ZERO_BITS;
        let mut i: usize = 0;
        while i < m
            invariant
                0 <= i <= m,
                m == self@.len(),
                acc == msum(self@.take(i as int)),
            decreases m - i,
        {
            let n = self.rows[i].len();
            let ghost row = self@[i as int];
            let ghost entry = acc;
            let mut j: usize = 0;
            while j < n
                invariant
                    0 <= j <= n,
                    i < m,
                    m == self@.len(),
                    row == self@[i as int],
                    n == row.len(),
                    acc == fold_from(entry, row.take(j as int)),
                decreases n - j,
            {
                proof {
                    lemma_fold_take(entry, row, j as int);
                }
                acc = fp_add(acc, self.rows[i][j]);
                j += 1;
            }
            assert(row.take(n as int) =~= row);
            proof {
                lemma_msum_take(self@, i as int);
            }
            i += 1;
        }
        assert(self@.take(m as int) =~= self@);
        acc
    }
}

} // verus!
