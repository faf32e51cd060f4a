//! Weight penalties: L1 and L2 regularization.
//!
//! A regularizer contributes a penalty scalar and a gradient term for weight
//! matrices and bias vectors.  The L1 penalty sums absolute values and its
//! gradient is `α·sign(w)`, a constant-magnitude pull toward zero; the L2
//! penalty is `α·Σ(0.5·w²)` and its gradient `α·w` is plain weight decay.
//! Everything here is exact IEEE-754 arithmetic: no contract needs a caller
//! supplied closure.

use vstd::prelude::*;

use crate::fp::{
    lt_of, mul_of, fp_lt, fp_mul, ZERO_BITS, ONE_BITS, NEG_ONE_BITS, HALF_BITS, MAGNITUDE_MASK,
};
use crate::mat::{abs_spec, is_rect, msum, scale_spec, sum_seq, Mat};

verus! {

/// The sign of a double, as a double: -1 below zero, +1 above zero, and 0
/// for the zeros and for NaN.
pub open spec fn sign_bits(x: u64) -> u64 {
    if lt_of(x, ZERO_BITS) {
        NEG_ONE_BITS
    } else if lt_of(ZERO_BITS, x) {
        ONE_BITS
    } else {
        ZERO_BITS
    }
}

/// Half of the square of a double: `0.5 · x · x`, multiplied left to right.
pub open spec fn half_sq_of(x: u64) -> u64 {
    mul_of(mul_of(HALF_BITS, x), x)
}

/// The regularization variants.
#[derive(Clone, Copy, PartialEq, Eq, Structural, Debug)]
pub enum Regularization {
    /// Lasso: penalty `α·Σ|w|`, gradient `α·sign(w)`.
    L1 {
        /// The regularization constant.
        alpha: u64,
    },
    /// Ridge: penalty `α·Σ(0.5·w²)`, gradient `α·w`.
    L2 {
        /// The regularization constant.
        alpha: u64,
    },
}

impl Regularization {
    /// The regularization constant, in spec.
    pub open spec fn spec_alpha(&self) -> u64 {
        match *self {
            Regularization::L1 { alpha } => alpha,
            Regularization::L2 { alpha } => alpha,
        }
    }

    /// The per-cell term the penalty sums: `|x|` for L1, `0.5·x²` for L2.
    pub open spec fn call_cell(&self, x: u64) -> u64 {
        match *self {
            Regularization::L1 { .. } => x & MAGNITUDE_MASK,
            Regularization::L2 { .. } => half_sq_of(x),
        }
    }

    /// The per-cell derivative of the penalty term, before scaling by α:
    /// `sign(x)` for L1 and `x` for L2.
    pub open spec fn deriv_cell(&self, x: u64) -> u64 {
        match *self {
            Regularization::L1 { .. } => sign_bits(x),
            Regularization::L2 { .. } => x,
        }
    }

    /// [`Self::call_cell`] applied to every cell of a matrix view.
    pub open spec fn call_spec(&self, m: Seq<Seq<u64>>) -> Seq<Seq<u64>> {
        Seq::new(m.len(), |i: int| Seq::new(m[i].len(), |j: int| self.call_cell(m[i][j])))
    }

    /// [`Self::deriv_cell`] applied to every cell of a matrix view.
    pub open spec fn deriv_spec(&self, m: Seq<Seq<u64>>) -> Seq<Seq<u64>> {
        Seq::new(m.len(), |i: int| Seq::new(m[i].len(), |j: int| self.deriv_cell(m[i][j])))
    }

    /// The penalty of a matrix: `α` times the row-major sum of the per-cell
    /// terms.
    pub open spec fn loss_spec(&self, m: Seq<Seq<u64>>) -> u64 {
        mul_of(self.spec_alpha(), msum(self.call_spec(m)))
    }

    /// The gradient contribution of a matrix: `α` times the per-cell
    /// derivative.
    pub open spec fn regularize_spec(&self, m: Seq<Seq<u64>>) -> Seq<Seq<u64>> {
        scale_spec(self.spec_alpha(), self.deriv_spec(m))
    }

    /// The penalty of a bias vector: `α` times the sum of the per-cell
    /// terms.
    pub open spec fn loss_bias_spec(&self, v: Seq<u64>) -> u64 {
        mul_of(self.spec_alpha(), sum_seq(Seq::new(v.len(), |i: int| self.call_cell(v[i]))))
    }

    /// The gradient contribution of a bias vector.
    pub open spec fn regularize_bias_spec(&self, v: Seq<u64>) -> Seq<u64> {
        Seq::new(v.len(), |i: int| mul_of(self.spec_alpha(), self.deriv_cell(v[i])))
    }

    /// The regularization constant.
    pub fn alpha(&self) -> (r: u64)
        ensures
            r == self.spec_alpha(),
    {
        match *self {
            Regularization::L1 { alpha } => alpha,
            Regularization::L2 { alpha } => alpha,
        }
    }

    /// The per-cell penalty term of a matrix.
    pub fn call(&self, x: &Mat) -> (r: Mat)
        requires
            x.wf(),
        ensures
            r@ == self.call_spec(x@),
            r.wf(),
    {
        let m = x.nrows();
        let n = x.ncols();
        let ghost target = self.call_spec(x@);
        let mut rows: Vec<Vec<u64>> = Vec::new();
        let mut i: usize = 0;
        while i < m
            invariant
                0 <= i <= m,
                rows@.len() == i,
                forall|p: int| 0 <= p < i ==> (#[trigger] rows@[p])@ == target[p],
            decreases m - i,
        {
            let mut row: Vec<u64> = Vec::new();
            let mut j: usize = 0;
            while j < n
                invariant
                    0 <= j <= n,
                    i < m,
                    row@.len() == j,
                    forall|q: int| 0 <= q < j ==> row@[q] == target[i as int][q],
                decreases n - j,
            {
                assert(x@[i as int].len() == n);
                let xv = x.rows[i][j];
                let yv = match *self {
                    Regularization::L1 { .. } => xv & MAGNITUDE_MASK,
                    Regularization::L2 { .. } => fp_mul(fp_mul(HALF_BITS, xv), xv),
                };
                row.push(yv);
                j += 1;
            }
            assert(row@ =~= target[i as int]);
            rows.push(row);
            i += 1;
        }
        let out = Mat { rows };
        assert(out@ =~= target);
        assert(is_rect(out@));
        out
    }

    /// The per-cell derivative of the penalty term of a matrix.
    pub fn derivative(&self, x: &Mat) -> (r: Mat)
        requires
            x.wf(),
        ensures
            r@ == self.deriv_spec(x@),
            r.wf(),
    {
        let m = x.nrows();
        let n = x.ncols();
        let ghost target = self.deriv_spec(x@);
        let mut rows: Vec<Vec<u64>> = Vec::new();
        let mut i: usize = 0;
        while i < m
            invariant
                0 <= i <= m,
                rows@.len() == i,
                forall|p: int| 0 <= p < i ==> (#[trigger] rows@[p])@ == target[p],
            decreases m - i,
        {
            let mut row: Vec<u64> = Vec::new();
            let mut j: usize = 0;
            while j < n
                invariant
                    0 <= j <= n,
                    i < m,
                    row@.len() == j,
                    forall|q: int| 0 <= q < j ==> row@[q] == target[i as int][q],
                decreases n - j,
            {
                assert(x@[i as int].len() == n);
                let xv = x.rows[i][j];
                let yv = match *self {
                    Regularization::L1 { .. } => {
                        if fp_lt(xv, ZERO_BITS) {
                            NEG_ONE_BITS
                        } else if fp_lt(ZERO_BITS, xv) {
                            ONE_BITS
                        } else {
                            ZERO_BITS
                        }
                    },
                    Regularization::L2 { .. } => xv,
                };
                row.push(yv);
                j += 1;
            }
            assert(row@ =~= target[i as int]);
            rows.push(row);
            i += 1;
        }
        let out = Mat { rows };
        assert(out@ =~= target);
        assert(is_rect(out@));
        out
    }

    /// The penalty of a weight matrix.
    pub fn loss(&self, x: &Mat) -> (r: u64)
        requires
            x.wf(),
        ensures
            r == self.loss_spec(x@),
    {
        let c = self.call(x);
        let s = c.sum_all();
        fp_mul(self.alpha(), s)
    }

    /// The penalty of a bias vector.
    pub fn loss_bias(&self, x: &Vec<u64>) -> (r: u64)
        ensures
            r == self.loss_bias_spec(x@),
    {
        let n = x.len();
        let ghost terms = Seq::new(x@.len(), |i: int| self.call_cell(x@[i]));
        let mut acc: u64 = ZERO_BITS;
        let mut j: usize = 0;
        while j < n
            invariant
                0 <= j <= n,
                acc == crate::mat::fold_from(ZERO_BITS, terms.take(j as int)),
            decreases n - j,
        {
            let xv = x[j];
            let t = match *self {
                Regularization::L1 { .. } => xv & MAGNITUDE_MASK,
                Regularization::L2 { .. } => fp_mul(fp_mul(HALF_BITS, xv), xv),
            };
            proof {
                crate::mat::lemma_fold_take(ZERO_BITS, terms, j as int);
            }
            acc = crate::fp::fp_add(acc, t);
            j += 1;
        }
        assert(terms.take(n as int) =~= terms);
        fp_mul(self.alpha(), acc)
    }

    /// The gradient contribution of a weight matrix.
    pub fn regularize(&self, x: &Mat) -> (r: Mat)
        requires
            x.wf(),
        ensures
            r@ == self.regularize_spec(x@),
            r.wf(),
    {
        let d = self.derivative(x);
        let r = d.scale(self.alpha());
        assert(r@ =~= self.regularize_spec(x@));
        r
    }

    /// The gradient contribution of a bias vector.
    pub fn regularize_bias(&self, x: &Vec<u64>) -> (r: Vec<u64>)
        ensures
            r@ == self.regularize_bias_spec(x@),
    {
        let n = x.len();
        let ghost target = self.regularize_bias_spec(x@);
        let a = self.alpha();
        let mut out: Vec<u64> = Vec::new();
        let mut j: usize = 0;
        while j < n
            invariant
                0 <= j <= n,
                out@.len() == j,
                forall|q: int| 0 <= q < j ==> out@[q] == target[q],
            decreases n - j,
        {
            let xv = x[j];
            let d = match *self {
                Regularization::L1 { .. } => {
                    if fp_lt(xv, ZERO_BITS) {
                        NEG_ONE_BITS
                    } else if fp_lt(ZERO_BITS, xv) {
                        ONE_BITS
                    } else {
                        ZERO_BITS
                    }
                },
                Regularization::L2 { .. } => xv,
            };
            out.push(fp_mul(a, d));
            j += 1;
        }
        assert(out@ =~= target);
        out
    }
}

} // verus!
