//! The softmax layer, its Jacobian, and the free softmax function.
//!
//! The forward pass is the numerically stable softmax: each row is shifted
//! by its maximum before exponentiating, then normalized by its sum.  The
//! shift and the normalization are exact verified arithmetic; only the
//! exponentials come from the caller-supplied closure, so the contracts
//! state that the result is the exact normalization of some exponential
//! matrix the closure returned.  The backward pass builds the full
//! per-sample Jacobian `J[i][j] = s_i(1−s_i)` on the diagonal and
//! `−s_i·s_j` off it, and returns one Jacobian-vector product per sample.

use vstd::prelude::*;

use crate::activation::Cache;
use crate::error::Error;
use crate::fp::{
    div_of, lt_of, mul_of, sub_of, fp_add, fp_div, fp_lt, fp_mul, fp_neg, fp_sub, MathFn,
    ZERO_BITS, ONE_BITS, SIGN_MASK,
};
use crate::mat::{
    dot, is_rect, lemma_dot_take, lemma_fold_take, same_shape, sum_seq, Mat,
};
use crate::tensor::Ten3;

verus! {

/// The running maximum of the first `n` entries of a row, scanned left to
/// right from the first entry.
pub open spec fn scan_max(row: Seq<u64>, n: nat) -> u64
    decreases n,
{
    if n <= 1 {
        row[0]
    } else if lt_of(scan_max(row, (n - 1) as nat), row[n - 1]) {
        row[n - 1]
    } else {
        scan_max(row, (n - 1) as nat)
    }
}

/// The maximum of a whole row, as the left-to-right scan finds it.
pub open spec fn row_max(row: Seq<u64>) -> u64 {
    scan_max(row, row.len())
}

/// Every cell shifted down by its row's maximum.
pub open spec fn shift_spec(x: Seq<Seq<u64>>) -> Seq<Seq<u64>> {
    Seq::new(x.len(), |i: int| Seq::new(x[i].len(), |j: int| sub_of(x[i][j], row_max(x[i]))))
}

/// Every cell divided by its row's left-to-right sum.
pub open spec fn normalize_spec(e: Seq<Seq<u64>>) -> Seq<Seq<u64>> {
    Seq::new(e.len(), |i: int| Seq::new(e[i].len(), |j: int| div_of(e[i][j], sum_seq(e[i]))))
}

/// What a softmax output may be: the exact normalization of some
/// exponential matrix the closure returned for the shifted input.
pub open spec fn softmax_rel(x: Seq<Seq<u64>>, y: Seq<Seq<u64>>) -> bool {
    exists|e: Seq<Seq<u64>>| same_shape(x, e) && y == normalize_spec(e)
}

/// One cell of the softmax Jacobian of the row `srow`.
pub open spec fn jac_cell(srow: Seq<u64>, i: int, j: int) -> u64 {
    if i == j {
        mul_of(srow[i], sub_of(ONE_BITS, srow[i]))
    } else {
        mul_of(srow[i] ^ SIGN_MASK, srow[j])
    }
}

/// The per-sample softmax Jacobians of a batch of softmax outputs.
pub open spec fn jac_spec(s: Seq<Seq<u64>>) -> Seq<Seq<Seq<u64>>> {
    Seq::new(
        s.len(),
        |p: int| Seq::new(s[p].len(), |i: int| Seq::new(s[p].len(), |j: int| jac_cell(s[p], i, j))),
    )
}

/// One Jacobian-vector product per sample: row `p` of the result is the
/// Jacobian of sample `p` applied to row `p` of the upstream gradient.
pub open spec fn jvp_spec(s: Seq<Seq<u64>>, g: Seq<Seq<u64>>) -> Seq<Seq<u64>> {
    Seq::new(s.len(), |p: int| Seq::new(s[p].len(), |i: int| dot(jac_spec(s)[p][i], g[p])))
}

/// Every cell shifted down by its row's maximum, exactly.
pub fn shift_rows(x: &Mat) -> (r: Mat)
    requires
        x.wf(),
    ensures
        r@ == shift_spec(x@),
        r.wf(),
{
    let m = x.nrows();
    let n = x.ncols();
    let ghost target = shift_spec(x@);
    let mut rows: Vec<Vec<u64>> = Vec::new();
    let mut i: usize = 0;
    while i < m
        invariant
            0 <= i <= m,
            rows@.len() == i,
            forall|p: int| 0 <= p < i ==> (#[trigger] rows@[p])@ == target[p],
        decreases m - i,
    {
        assert(x@[i as int].len() == n);
        let mut row: Vec<u64> = Vec::new();
        if n > 0 {
            let mut mx = x.rows[i][0];
            let mut k: usize = 1;
            while k < n
                invariant
                    1 <= k <= n,
                    i < m,
                    mx == scan_max(x@[i as int], k as nat),
                decreases n - k,
            {
                if fp_lt(mx, x.rows[i][k]) {
                    mx = x.rows[i][k];
                }
                k += 1;
            }
            assert(mx == row_max(x@[i as int]));
            let mut j: usize = 0;
            while j < n
                invariant
                    0 <= j <= n,
                    i < m,
                    mx == row_max(x@[i as int]),
                    row@.len() == j,
                    forall|q: int| 0 <= q < j ==> row@[q] == target[i as int][q],
                decreases n - j,
            {
                row.push(fp_sub(x.rows[i][j], mx));
                j += 1;
            }
        }
        assert(row@ =~= target[i as int]);
        rows.push(row);
        i += 1;
    }
    let out = Mat { rows };
    assert(out@ =~= target);
    assert(is_rect(out@));
    out
}

/// Every cell divided by its row's sum, exactly.
pub fn normalize_rows(e: &Mat) -> (r: Mat)
    requires
        e.wf(),
    ensures
        r@ == normalize_spec(e@),
        r.wf(),
{
    let m = e.nrows();
    let n = e.ncols();
    let ghost target = normalize_spec(e@);
    let mut rows: Vec<Vec<u64>> = Vec::new();
    let mut i: usize = 0;
    while i < m
        invariant
            0 <= i <= m,
            rows@.len() == i,
            forall|p: int| 0 <= p < i ==> (#[trigger] rows@[p])@ == target[p],
        decreases m - i,
    {
        assert(e@[i as int].len() == n);
        let ghost erow = e@[i as int];
        let mut denom: u64 = ZERO_BITS;
        let mut k: usize = 0;
        while k < n
            invariant
                0 <= k <= n,
                i < m,
                denom == crate::mat::fold_from(ZERO_BITS, erow.take(k as int)),
            decreases n - k,
        {
            proof {
                lemma_fold_take(ZERO_BITS, erow, k as int);
            }
            denom = fp_add(denom, e.rows[i][k]);
            k += 1;
        }
        assert(erow.take(n as int) =~= erow);
        assert(denom == sum_seq(erow));
        let mut row: Vec<u64> = Vec::new();
        let mut j: usize = 0;
        while j < n
            invariant
                0 <= j <= n,
                i < m,
                denom == sum_seq(e@[i as int]),
                row@.len() == j,
                forall|q: int| 0 <= q < j ==> row@[q] == target[i as int][q],
            decreases n - j,
        {
            row.push(fp_div(e.rows[i][j], denom));
            j += 1;
        }
        assert(row@ =~= target[i as int]);
        rows.push(row);
        i += 1;
    }
    let out = Mat { rows };
    assert(out@ =~= target);
    assert(is_rect(out@));
    out
}

/// Asks the closure for the exponential of every cell; nothing but the
/// shape is known of what comes back.
fn exp_cells<F: Fn(MathFn, u64) -> u64>(z: &Mat, f: &F) -> (r: Mat)
    requires
        z.wf(),
        forall|a: (MathFn, u64)| #[trigger] call_requires(*f, a),
    ensures
        same_shape(z@, r@),
        r.wf(),
{
    let m = z.nrows();
    let n = z.ncols();
    let mut rows: Vec<Vec<u64>> = Vec::new();
    let mut i: usize = 0;
    while i < m
        invariant
            0 <= i <= m,
            rows@.len() == i,
            forall|p: int| 0 <= p < i ==> (#[trigger] rows@[p])@.len() == n,
        decreases m - i,
    {
        let mut row: Vec<u64> = Vec::new();
        let mut j: usize = 0;
        while j < n
            invariant
                0 <= j <= n,
                i < m,
                row@.len() == j,
            decreases n - j,
        {
            assert(z@[i as int].len() == n);
            row.push(f(MathFn::Exp, z.rows[i][j]));
            j += 1;
        }
        rows.push(row);
        i += 1;
    }
    let out = Mat { rows };
    assert(forall|p: int| 0 <= p < m ==> (#[trigger] out@[p]).len() == z@[p].len());
    assert(is_rect(out@));
    out
}

/// The numerically stable softmax of every row: shift by the row maximum,
/// exponentiate through the closure, normalize by the row sum.
pub fn softmax<F: Fn(MathFn, u64) -> u64>(x: &Mat, f: &F) -> (r: Mat)
    requires
        x.wf(),
        forall|a: (MathFn, u64)| #[trigger] call_requires(*f, a),
    ensures
        softmax_rel(x@, r@),
        same_shape(x@, r@),
        r.wf(),
{
    let z = shift_rows(x);
    let e = exp_cells(&z, f);
    let r = normalize_rows(&e);
    assert(same_shape(x@, e@));
    assert(same_shape(x@, r@));
    r
}

/// The softmax layer, with the input cache it keeps between a forward and
/// its matching backward pass.
pub struct Softmax {
    /// The input cached by the most recent forward call.
    pub state: Cache,
}

impl Softmax {
    /// The cached input's view, if a forward call has stored one.
    pub open spec fn cached(&self) -> Option<Seq<Seq<u64>>> {
        match self.state {
            Cache::AwaitingInput => None,
            Cache::HasInput(m) => Some(m@),
        }
    }

    /// Whatever is cached is a well-formed matrix.
    pub open spec fn wf(&self) -> bool {
        match self.state {
            Cache::AwaitingInput => true,
            Cache::HasInput(m) => m.wf(),
        }
    }

    /// A fresh softmax layer, awaiting its first input.
    pub fn init() -> (r: Softmax)
        ensures
            r.cached() is None,
            r.wf(),
    {
        Softmax { state: Cache::AwaitingInput }
    }

    /// Caches the input and returns its row-wise softmax.
    pub fn forward<F: Fn(MathFn, u64) -> u64>(&mut self, x: &Mat, f: &F) -> (r: Mat)
        requires
            x.wf(),
            forall|a: (MathFn, u64)| #[trigger] call_requires(*f, a),
        ensures
            final(self).cached() == Some(x@),
            final(self).wf(),
            softmax_rel(x@, r@),
            same_shape(x@, r@),
            r.wf(),
    {
        let r = softmax(x, f);
        self.state = Cache::HasInput(x.duplicate());
        r
    }

    /// The batch of per-sample Jacobians of the softmax recomputed on the
    /// cached input, or `NoCachedInput` before a forward call.
    pub fn derivative<F: Fn(MathFn, u64) -> u64>(&self, f: &F) -> (r: Result<Ten3, Error>)
        requires
            self.wf(),
            forall|a: (MathFn, u64)| #[trigger] call_requires(*f, a),
        ensures
            r is Ok <==> self.cached() is Some,
            r is Err ==> r->Err_0 == Error::NoCachedInput,
            r is Ok ==> (exists|s: Seq<Seq<u64>>|
                softmax_rel(self.cached()->0, s) && same_shape(self.cached()->0, s) && r->Ok_0@
                    == jac_spec(s)),
            r is Ok ==> r->Ok_0.wf(),
    {
        let z = match &self.state {
            Cache::AwaitingInput => {
                return Err(Error::NoCachedInput);
            },
            Cache::HasInput(z) => z,
        };
        let s = softmax(z, f);
        let m = s.nrows();
        let ghost target = jac_spec(s@);
        let mut mats: Vec<Mat> = Vec::new();
        let mut p: usize = 0;
        while p < m
            invariant
                0 <= p <= m,
                mats@.len() == p,
                forall|t: int| 0 <= t < p ==> (#[trigger] mats@[t])@ == target[t],
                forall|t: int| 0 <= t < p ==> (#[trigger] mats@[t]).wf(),
            decreases m - p,
        {
            assert(s@[p as int].len() == s.spec_ncols());
            let k = s.rows[p].len();
            let mut rows: Vec<Vec<u64>> = Vec::new();
            let mut i: usize = 0;
            while i < k
                invariant
                    0 <= i <= k,
                    p < m,
                    k == s@[p as int].len(),
                    rows@.len() == i,
                    forall|t: int| 0 <= t < i ==> (#[trigger] rows@[t])@ == target[p as int][t],
                decreases k - i,
            {
                let mut row: Vec<u64> = Vec::new();
                let mut j: usize = 0;
                while j < k
                    invariant
                        0 <= j <= k,
                        p < m,
                        i < k,
                        k == s@[p as int].len(),
                        row@.len() == j,
                        forall|q: int| 0 <= q < j ==> row@[q] == target[p as int][i as int][q],
                    decreases k - j,
                {
                    let si = s.rows[p][i];
                    let v = if i == j {
                        fp_mul(si, fp_sub(ONE_BITS, si))
                    } else {
                        fp_mul(fp_neg(si), s.rows[p][j])
                    };
                    assert(v == jac_cell(s@[p as int], i as int, j as int));
                    row.push(v);
                    j += 1;
                }
                assert(row@ =~= target[p as int][i as int]);
                rows.push(row);
                i += 1;
            }
            let jm = Mat { rows };
            assert(jm@ =~= target[p as int]);
            assert(is_rect(jm@));
            mats.push(jm);
            p += 1;
        }
        let out = Ten3 { mats };
        assert(out@ =~= target);
        Ok(out)
    }

    /// One Jacobian-vector product per sample, clearing the cache.
    ///
    /// Fails with `NoCachedInput` before a forward call, and with
    /// `ShapeMismatch` if the gradient's shape differs from the cached
    /// input's.
    pub fn backward<F: Fn(MathFn, u64) -> u64>(&mut self, grad: &Mat, f: &F) -> (r: Result<
        Mat,
        Error,
    >)
        requires
            old(self).wf(),
            grad.wf(),
            forall|a: (MathFn, u64)| #[trigger] call_requires(*f, a),
        ensures
            final(self).wf(),
            r is Ok <==> (old(self).cached() matches Some(z) && same_shape(z, grad@)),
            old(self).cached() is None ==> r is Err && r->Err_0 == Error::NoCachedInput,
            (old(self).cached() matches Some(z) && !same_shape(z, grad@)) ==> r is Err
                && r->Err_0 == Error::ShapeMismatch,
            r is Ok ==> final(self).cached() is None,
            r is Err ==> final(self).cached() == old(self).cached(),
            r is Ok ==> (exists|s: Seq<Seq<u64>>|
                softmax_rel(old(self).cached()->0, s) && same_shape(old(self).cached()->0, s)
                    && r->Ok_0@ == jvp_spec(s, grad@)),
            r is Ok ==> r->Ok_0.wf(),
    {
        let z = match &self.state {
            Cache::AwaitingInput => {
                return Err(Error::NoCachedInput);
            },
            Cache::HasInput(z) => z,
        };
        if z.nrows() != grad.nrows() || z.ncols() != grad.ncols() {
            assert(!same_shape(self.cached()->0, grad@));
            return Err(Error::ShapeMismatch);
        }
        assert(same_shape(self.cached()->0, grad@));
        let s = softmax(z, f);
        let m = s.nrows();
        let ghost target = jvp_spec(s@, grad@);
        let mut rows: Vec<Vec<u64>> = Vec::new();
        let mut p: usize = 0;
        while p < m
            invariant
                0 <= p <= m,
                rows@.len() == p,
                forall|t: int| 0 <= t < p ==> (#[trigger] rows@[t])@ == target[t],
            decreases m - p,
        {
            assert(s@[p as int].len() == s.spec_ncols());
            assert(grad@[p as int].len() == s.spec_ncols());
            let k = s.rows[p].len();
            let mut row: Vec<u64> = Vec::new();
            let mut i: usize = 0;
            while i < k
                invariant
                    0 <= i <= k,
                    p < m,
                    k == s@[p as int].len(),
                    k == grad@[p as int].len(),
                    row@.len() == i,
                    forall|q: int| 0 <= q < i ==> row@[q] == target[p as int][q],
                decreases k - i,
            {
                let ghost jrow = jac_spec(s@)[p as int][i as int];
                let ghost grow = grad@[p as int];
                let mut acc: u64 = ZERO_BITS;
                let mut j: usize = 0;
                while j < k
                    invariant
                        0 <= j <= k,
                        p < m,
                        i < k,
                        k == s@[p as int].len(),
                        k == grad@[p as int].len(),
                        jrow == jac_spec(s@)[p as int][i as int],
                        grow == grad@[p as int],
                        acc == dot(jrow.take(j as int), grow.take(j as int)),
                    decreases k - j,
                {
                    let si = s.rows[p][i];
                    let v = if i == j {
                        fp_mul(si, fp_sub(ONE_BITS, si))
                    } else {
                        fp_mul(fp_neg(si), s.rows[p][j])
                    };
                    assert(v == jrow[j as int]);
                    proof {
                        lemma_dot_take(jrow, grow, j as int);
                    }
                    acc = fp_add(acc, fp_mul(v, grad.rows[p][j]));
                    j += 1;
                }
                assert(jrow.take(k as int) =~= jrow);
                assert(grow.take(k as int) =~= grow);
                row.push(acc);
                i += 1;
            }
            assert(row@ =~= target[p as int]);
            rows.push(row);
            p += 1;
        }
        let out = Mat { rows };
        assert(out@ =~= target);
        assert(is_rect(out@)) by {
            assert(forall|t: int| 0 <= t < out@.len() ==> (#[trigger] out@[t]).len() == s@[t].len());
            assert(forall|t: int|
                0 <= t < out@.len() ==> (#[trigger] s@[t]).len() == crate::mat::cols(s@));
        }
        self.state = Cache::AwaitingInput;
        Ok(out)
    }
}

} // verus!
