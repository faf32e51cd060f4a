//! Loss functions: mean squared error and cross entropy.
//!
//! A loss maps a batch of predictions and the matching targets to a scalar,
//! and to the gradient of that scalar with respect to the predictions.  The
//! mean squared error is exact IEEE-754 arithmetic throughout.  The cross
//! entropy needs base-two logarithms, which this crate cannot compute
//! itself: its `loss` asks a caller-supplied closure for them, a verified
//! helper with an exact contract does everything after, and the contract of
//! `loss` states what holds for every value the closure may return.  Its
//! gradient needs no logarithm and is exact.

use vstd::prelude::*;

use vstd::arithmetic::div_mod::lemma_fundamental_div_mod;
use vstd::arithmetic::mul::lemma_mul_inequality;

use crate::error::Error;
use crate::fp::{
    div_of, eq_of, mul_of, nat_bits, fp_add, fp_div, fp_mul, fp_neg, fp_of_nat, fp_eq, MathFn,
    ZERO_BITS, TWO_BITS, NEG_ONE_BITS, LOG_GUARD_BITS, SIGN_MASK,
};
use crate::mat::{
    cols, div_all_spec, hadamard_spec, is_rect, minus_spec, msum, same_shape, scale_spec, Mat,
};

verus! {

/// The loss variants a network can be trained with.
#[derive(Clone, Copy, PartialEq, Eq, Structural, Debug)]
pub enum Loss {
    /// The mean of the squared differences over every cell.
    Mse,
    /// `−(1/batch)·Σ actual·log2(pred + ε)`, with ε guarding log 0.
    CrossEntropy,
}

/// The mean squared error of a batch: the squared differences are summed in
/// row-major order and divided by the number of cells.
pub open spec fn mse_loss_spec(p: Seq<Seq<u64>>, a: Seq<Seq<u64>>) -> u64 {
    div_of(
        msum(hadamard_spec(minus_spec(p, a), minus_spec(p, a))),
        nat_bits((p.len() * cols(p)) as u64),
    )
}

/// The mean-squared-error gradient: `2·(p − a) / batch`.
pub open spec fn mse_grad_spec(p: Seq<Seq<u64>>, a: Seq<Seq<u64>>) -> Seq<Seq<u64>> {
    div_all_spec(scale_spec(TWO_BITS, minus_spec(p, a)), nat_bits(p.len() as u64))
}

/// The cross entropy of a batch, given the matrix `lg` of guarded
/// logarithms the closure returned: `−(Σ a·lg) / batch`.
pub open spec fn ce_loss_spec(a: Seq<Seq<u64>>, lg: Seq<Seq<u64>>, batch: u64) -> u64 {
    div_of(mul_of(NEG_ONE_BITS, msum(hadamard_spec(a, lg))), nat_bits(batch))
}

/// One cell of the cross-entropy gradient: `−a/p` where the prediction is
/// not zero, else 0.
pub open spec fn ce_grad_cell(p: u64, a: u64) -> u64 {
    if eq_of(p, ZERO_BITS) {
        ZERO_BITS
    } else {
        div_of(a ^ SIGN_MASK, p)
    }
}

/// The cross-entropy gradient over a whole batch.
pub open spec fn ce_grad_spec(p: Seq<Seq<u64>>, a: Seq<Seq<u64>>) -> Seq<Seq<u64>> {
    Seq::new(p.len(), |i: int| Seq::new(p[i].len(), |j: int| ce_grad_cell(p[i][j], a[i][j])))
}

/// The cross entropy computed from already-taken logarithms: an exact
/// function of its arguments, verified for every value of `logs`.
///
/// `logs` must hold, cell for cell, the base-two logarithms of the guarded
/// predictions; [`Loss::loss`] obtains them from its closure and passes
/// them here.
pub fn cross_entropy_from_logs(actual: &Mat, logs: &Mat, batch: u64) -> (r: Result<u64, Error>)
    requires
        actual.wf(),
        logs.wf(),
    ensures
        r is Ok <==> (actual.spec_nrows() == logs.spec_nrows() && actual.spec_ncols()
            == logs.spec_ncols()),
        r is Ok ==> r->Ok_0 == ce_loss_spec(actual@, logs@, batch),
        r is Err ==> r->Err_0 == Error::ShapeMismatch,
{
    let prod = match actual.hadamard(logs) {
        Ok(p) => p,
        Err(e) => {
            return Err(e);
        },
    };
    let s = prod.sum_all();
    Ok(fp_div(fp_mul(NEG_ONE_BITS, s), fp_of_nat(batch)))
}

impl Loss {
    /// The loss scalar of a batch of predictions against its targets.
    ///
    /// Succeeds exactly when the two matrices have the same shape.  For the
    /// mean squared error the result is pinned exactly; for the cross
    /// entropy it is [`ce_loss_spec`] of some logarithm matrix the closure
    /// returned.
    pub fn loss<F: Fn(MathFn, u64) -> u64>(
        &self,
        predicted: &Mat,
        actual: &Mat,
        f: &F,
    ) -> (r: Result<u64, Error>)
        requires
            predicted.wf(),
            actual.wf(),
            forall|a: (MathFn, u64)| #[trigger] call_requires(*f, a),
        ensures
            r is Ok <==> (predicted.spec_nrows() == actual.spec_nrows() && predicted.spec_ncols()
                == actual.spec_ncols() && (*self is Mse
                ==> predicted.spec_nrows() * predicted.spec_ncols() <= u64::MAX)),
            r is Err ==> r->Err_0 == Error::ShapeMismatch,
            *self is Mse && r is Ok ==> r->Ok_0 == mse_loss_spec(predicted@, actual@),
            *self is CrossEntropy && r is Ok ==> (exists|lg: Seq<Seq<u64>>|
                same_shape(predicted@, lg) && r->Ok_0 == ce_loss_spec(
                    actual@,
                    lg,
                    predicted.spec_nrows() as u64,
                )),
    {
        match *self {
            Loss::Mse => {
                let d = match predicted.minus(actual) {
                    Ok(d) => d,
                    Err(e) => {
                        return Err(e);
                    },
                };
                let sq = match d.hadamard(&d) {
                    Ok(s) => s,
                    Err(_) => {
                        assert(false);
                        return Err(Error::ShapeMismatch);
                    },
                };
                let rows = predicted.nrows() as u64;
                let cls = predicted.ncols() as u64;
                proof {
                    lemma_prod_bound_check(rows as int, cls as int, u64::MAX as int);
                }
                if rows != 0 && cls > u64::MAX / rows {
                    return Err(Error::ShapeMismatch);
                }
                let count = rows * cls;
                let total = sq.sum_all();
                Ok(fp_div(total, fp_of_nat(count)))
            },
            Loss::CrossEntropy => {
                if predicted.nrows() != actual.nrows() || predicted.ncols() != actual.ncols() {
                    return Err(Error::ShapeMismatch);
                }
                let logs = guarded_logs(predicted, f);
                match cross_entropy_from_logs(actual, &logs, predicted.nrows() as u64) {
                    Ok(v) => {
                        assert(same_shape(predicted@, logs@));
                        Ok(v)
                    },
                    Err(_) => {
                        assert(false);
                        Err(Error::ShapeMismatch)
                    },
                }
            },
        }
    }

    /// The gradient of the loss with respect to the predictions: exact
    /// IEEE-754 arithmetic for both variants.
    ///
    /// Succeeds exactly when the two matrices have the same shape.
    pub fn grad(&self, predicted: &Mat, actual: &Mat) -> (r: Result<Mat, Error>)
        requires
            predicted.wf(),
            actual.wf(),
        ensures
            r is Ok <==> (predicted.spec_nrows() == actual.spec_nrows() && predicted.spec_ncols()
                == actual.spec_ncols()),
            r is Err ==> r->Err_0 == Error::ShapeMismatch,
            r is Ok ==> r->Ok_0.wf() && r->Ok_0.spec_nrows() == predicted.spec_nrows()
                && r->Ok_0.spec_ncols() == predicted.spec_ncols(),
            *self is Mse && r is Ok ==> r->Ok_0@ == mse_grad_spec(predicted@, actual@),
            *self is CrossEntropy && r is Ok ==> r->Ok_0@ == ce_grad_spec(predicted@, actual@),
    {
        match *self {
            Loss::Mse => {
                let d = match predicted.minus(actual) {
                    Ok(d) => d,
                    Err(e) => {
                        return Err(e);
                    },
                };
                let scaled = d.scale(TWO_BITS);
                let g = scaled.div_by(fp_of_nat(predicted.nrows() as u64));
                assert(g@ =~= mse_grad_spec(predicted@, actual@));
                Ok(g)
            },
            Loss::CrossEntropy => {
                if predicted.nrows() != actual.nrows() || predicted.ncols() != actual.ncols() {
                    return Err(Error::ShapeMismatch);
                }
                let m = predicted.nrows();
                let n = predicted.ncols();
                let ghost target = ce_grad_spec(predicted@, actual@);
                let mut rows: Vec<Vec<u64>> = Vec::new();
                let mut i: usize = 0;
                while i < m
                    invariant
                        0 <= i <= m,
                        rows@.len() == i,
                        forall|p: int| 0 <= p < i ==> (#[trigger] rows@[p])@ == target[p],
                    decreases m - i,
                {
                    let mut row: Vec<u64> = Vec::new();
                    let mut j: usize = 0;
                    while j < n
                        invariant
                            0 <= j <= n,
                            i < m,
                            row@.len() == j,
                            forall|q: int| 0 <= q < j ==> row@[q] == target[i as int][q],
                        decreases n - j,
                    {
                        assert(predicted@[i as int].len() == n);
                        assert(actual@[i as int].len() == n);
                        let p = predicted.rows[i][j];
                        let a = actual.rows[i][j];
                        let g = if fp_eq(p, ZERO_BITS) {
                            ZERO_BITS
                        } else {
                            fp_div(fp_neg(a), p)
                        };
                        row.push(g);
                        j += 1;
                    }
                    assert(row@ =~= target[i as int]);
                    rows.push(row);
                    i += 1;
                }
                let out = Mat { rows };
                assert(out@ =~= target);
                assert(is_rect(out@));
                Ok(out)
            },
        }
    }
}

/// Asks the closure for the base-two logarithm of every prediction plus the
/// guard ε; nothing but the shape is known of what comes back.
fn guarded_logs<F: Fn(MathFn, u64) -> u64>(predicted: &Mat, f: &F) -> (r: Mat)
    requires
        predicted.wf(),
        forall|a: (MathFn, u64)| #[trigger] call_requires(*f, a),
    ensures
        same_shape(predicted@, r@),
        r.wf(),
{
    let m = predicted.nrows();
    let n = predicted.ncols();
    let mut rows: Vec<Vec<u64>> = Vec::new();
    let mut i: usize = 0;
    while i < m
        invariant
            0 <= i <= m,
            rows@.len() == i,
            forall|p: int| 0 <= p < i ==> (#[trigger] rows@[p])@.len() == n,
        decreases m - i,
    {
        let mut row: Vec<u64> = Vec::new();
        let mut j: usize = 0;
        while j < n
            invariant
                0 <= j <= n,
                i < m,
                row@.len() == j,
            decreases n - j,
        {
            assert(predicted@[i as int].len() == n);
            row.push(f(MathFn::Log2, fp_add(predicted.rows[i][j], LOG_GUARD_BITS)));
            j += 1;
        }
        rows.push(row);
        i += 1;
    }
    let out = Mat { rows };
    assert(forall|p: int| 0 <= p < m ==> (#[trigger] out@[p]).len() == predicted@[p].len());
    assert(is_rect(out@));
    out
}

/// For a positive row count, the column count exceeds `m / rows` exactly
/// when the product of the two exceeds `m`.
proof fn lemma_prod_bound_check(rows: int, cls: int, m: int)
    requires
        rows >= 0,
        cls >= 0,
        m >= 0,
    ensures
        rows >= 1 ==> ((cls > m / rows) == (rows * cls > m)),
        rows == 0 ==> rows * cls == 0,
{
    if rows >= 1 {
        lemma_fundamental_div_mod(m, rows);
        let q = m / rows;
        if cls > q {
            lemma_mul_inequality(q + 1, cls, rows);
            assert((q + 1) * rows == q * rows + rows) by (nonlinear_arith);
            assert(rows * q == q * rows) by (nonlinear_arith);
            assert(cls * rows == rows * cls) by (nonlinear_arith);
        } else {
            lemma_mul_inequality(cls, q, rows);
            assert(rows * q == q * rows) by (nonlinear_arith);
            assert(cls * rows == rows * cls) by (nonlinear_arith);
        }
    } else {
        assert(rows * cls == 0) by (nonlinear_arith)
            requires
                rows == 0,
        ;
    }
}

} // verus!
