//! The fully connected layer.
//!
//! Forward: `y = activation(x·W + b)`, caching `x` here and the
//! pre-activation `z = x·W + b` inside the activation.  Backward: with
//! `g` the activation's backward pass on the upstream gradient,
//! `weight_grad = xᵀ·g / batch` and `bias_grad = Σg / batch` (a scalar, as
//! the whole of `g` is summed); the regularization step is applied first,
//! then the gradient-descent step; the returned downstream gradient
//! `g·Wᵀ` uses the weights as they stood on entry, and the regularization
//! penalty is returned beside it as a separate scalar rather than folded
//! into the gradient.

use vstd::prelude::*;

use crate::activation::{act_backward_rel, call_rel, ActKind, Activation, Cache};
use crate::error::Error;
use crate::fp::{
    add_of, div_of, mul_of, sub_of, nat_bits, fp_div, fp_mul, fp_of_nat, fp_add, MathFn,
    ZERO_BITS,
};
use crate::mat::{
    add_bias_spec, cols, div_all_spec, matmul_spec, minus_spec, msum, same_shape, scale_spec,
    transpose_spec, Mat,
};
use crate::regularizer::Regularization;

verus! {

/// What one weight or bias entry should be drawn from: a uniform range
/// given by its endpoint bits, or the Glorot/Xavier-uniform range
/// `±√(6/out)` for the given fan-out.
#[derive(Clone, Copy, PartialEq, Eq, Structural, Debug)]
pub enum WeightInit {
    /// A uniform draw between the two bounds.
    Uniform(u64, u64),
    /// A uniform draw from the Glorot range for this fan-out.
    Glorot(usize),
}

/// The pre-activation of a dense layer: `x·W + b`.
pub open spec fn dense_z(x: Seq<Seq<u64>>, w: Seq<Seq<u64>>, b: Seq<u64>) -> Seq<Seq<u64>> {
    add_bias_spec(matmul_spec(x, w), b)
}

/// The weights after the regularization step: unchanged without a
/// regularizer, else decremented by `lr` times its gradient contribution.
pub open spec fn reg_w_spec(
    reg: Option<Regularization>,
    w: Seq<Seq<u64>>,
    lr: u64,
) -> Seq<Seq<u64>> {
    match reg {
        Option::None => w,
        Option::Some(r) => minus_spec(w, scale_spec(lr, r.regularize_spec(w))),
    }
}

/// The bias after the regularization step.
pub open spec fn reg_b_spec(reg: Option<Regularization>, b: Seq<u64>, lr: u64) -> Seq<u64> {
    match reg {
        Option::None => b,
        Option::Some(r) => Seq::new(
            b.len(),
            |j: int| sub_of(b[j], mul_of(lr, r.regularize_bias_spec(b)[j])),
        ),
    }
}

/// The penalty scalar reported beside the downstream gradient: the
/// regularizer's loss on the post-regularization weights and bias, or +0.0
/// without one.
pub open spec fn reg_penalty_spec(
    reg: Option<Regularization>,
    w1: Seq<Seq<u64>>,
    b1: Seq<u64>,
) -> u64 {
    match reg {
        Option::None => ZERO_BITS,
        Option::Some(r) => add_of(r.loss_spec(w1), r.loss_bias_spec(b1)),
    }
}

/// The weight gradient `xᵀ·g / batch`.
pub open spec fn weight_grad_spec(x: Seq<Seq<u64>>, g: Seq<Seq<u64>>, batch: u64) -> Seq<
    Seq<u64>,
> {
    div_all_spec(matmul_spec(transpose_spec(x), g), nat_bits(batch))
}

/// The bias gradient `Σg / batch`: the row-major sum of the whole of `g`
/// over the batch size, a single scalar.
pub open spec fn bias_grad_spec(g: Seq<Seq<u64>>, batch: u64) -> u64 {
    div_of(msum(g), nat_bits(batch))
}

/// A fully connected layer.
pub struct Dense {
    /// The weight matrix, one row per input feature, one column per output.
    pub w: Mat,
    /// The bias vector, one entry per output.
    pub b: Vec<u64>,
    /// The activation applied to the pre-activation, with its own cache.
    pub activation: Activation,
    /// The optional weight penalty.
    pub regularizer: Option<Regularization>,
    /// The step size of this layer's updates.
    pub learning_rate: u64,
    /// The input cached by the most recent forward call.
    pub state: Cache,
}

impl Dense {
    /// The cached forward input's view, if a forward call has stored one.
    pub open spec fn cached(&self) -> Option<Seq<Seq<u64>>> {
        match self.state {
            Cache::AwaitingInput => None,
            Cache::HasInput(m) => Some(m@),
        }
    }

    /// The activation's cached pre-activation, if any.
    pub open spec fn act_cached(&self) -> Option<Seq<Seq<u64>>> {
        self.activation.cached()
    }

    /// The weights and every cache hold well-formed matrices.
    pub open spec fn wf(&self) -> bool {
        &&& self.w.wf()
        &&& self.activation.wf()
        &&& match self.state {
            Cache::AwaitingInput => true,
            Cache::HasInput(m) => m.wf(),
        }
    }

    /// Whether a backward pass with this upstream gradient can run: both
    /// caches are filled, the gradient has the pre-activation's shape, the
    /// cached input pairs with the weights, and the batch is not empty.
    pub open spec fn backward_ok(&self, grad: Seq<Seq<u64>>) -> bool {
        &&& self.cached() is Some
        &&& self.act_cached() is Some
        &&& same_shape(self.act_cached()->0, grad)
        &&& self.cached()->0.len() == grad.len()
        &&& cols(self.cached()->0) == self.w.spec_nrows()
        &&& cols(grad) == self.w.spec_ncols()
        &&& grad.len() > 0
        &&& self.w.spec_nrows() > 0
    }

    /// A layer with the given shape and wiring, its weights and bias drawn
    /// one entry at a time by the caller-supplied sampler: weights from the
    /// requested range, or from the Glorot range when none was requested,
    /// and the bias uniformly between 0 and 1.
    pub fn init<G: Fn(WeightInit) -> u64>(
        input: usize,
        out: usize,
        weight_range: Option<(u64, u64)>,
        activation: ActKind,
        learning_rate: u64,
        regularizer: Option<Regularization>,
        g: &G,
    ) -> (r: Dense)
        requires
            forall|a: (WeightInit,)| #[trigger] call_requires(*g, a),
        ensures
            r.w.wf(),
            r.w.spec_nrows() == input,
            input > 0 ==> r.w.spec_ncols() == out,
            r.b@.len() == out,
            r.activation.kind == activation,
            r.regularizer == regularizer,
            r.learning_rate == learning_rate,
            r.cached() is None,
            r.act_cached() is None,
            r.wf(),
    {
        let mut rows: Vec<Vec<u64>> = Vec::new();
        let mut i: usize = 0;
        while i < input
            invariant
                0 <= i <= input,
                rows@.len() == i,
                forall|k: int| 0 <= k < i ==> (#[trigger] rows@[k])@.len() == out,
            decreases input - i,
        {
            let mut row: Vec<u64> = Vec::new();
            let mut j: usize = 0;
            while j < out
                invariant
                    0 <= j <= out,
                    row@.len() == j,
                decreases out - j,
            {
                let v = match weight_range {
                    Some((lo, hi)) => g(WeightInit::Uniform(lo, hi)),
                    None => g(WeightInit::Glorot(out)),
                };
                row.push(v);
                j += 1;
            }
            rows.push(row);
            i += 1;
        }
        let w = Mat { rows };
        assert(crate::mat::is_rect(w@));
        let mut b: Vec<u64> = Vec::new();
        let mut j: usize = 0;
        while j < out
            invariant
                0 <= j <= out,
                b@.len() == j,
            decreases out - j,
        {
            b.push(g(WeightInit::Uniform(ZERO_BITS, crate::fp::ONE_BITS)));
            j += 1;
        }
        Dense {
            w,
            b,
            activation: Activation::new(activation),
            regularizer,
            learning_rate,
            state: Cache::AwaitingInput,
        }
    }

    /// Caches the input and returns the activation of `x·W + b`.
    ///
    /// Succeeds exactly when `x` pairs with the weights and the product
    /// pairs with the bias; on failure nothing is cached or changed.
    pub fn forward<F: Fn(MathFn, u64) -> u64>(&mut self, x: &Mat, f: &F) -> (r: Result<Mat, Error>)
        requires
            old(self).wf(),
            x.wf(),
            forall|a: (MathFn, u64)| #[trigger] call_requires(*f, a),
        ensures
            final(self).wf(),
            final(self).w == old(self).w,
            final(self).b == old(self).b,
            final(self).regularizer == old(self).regularizer,
            final(self).learning_rate == old(self).learning_rate,
            final(self).activation.kind == old(self).activation.kind,
            r is Ok <==> (x.spec_ncols() == old(self).w.spec_nrows()
                && cols(matmul_spec(x@, old(self).w@)) == old(self).b@.len()),
            r is Err ==> r->Err_0 == Error::ShapeMismatch,
            r is Err ==> final(self).cached() == old(self).cached() && final(self).act_cached()
                == old(self).act_cached(),
            r is Ok ==> final(self).cached() == Some(x@),
            r is Ok ==> final(self).act_cached() == Some(dense_z(x@, old(self).w@, old(self).b@)),
            r is Ok ==> call_rel(
                old(self).activation.kind,
                dense_z(x@, old(self).w@, old(self).b@),
                r->Ok_0@,
            ),
            r is Ok ==> r->Ok_0.wf(),
    {
        let z0 = match x.matmul(&self.w) {
            Ok(z0) => z0,
            Err(e) => {
                return Err(e);
            },
        };
        let z = match z0.add_bias(&self.b) {
            Ok(z) => z,
            Err(e) => {
                return Err(e);
            },
        };
        assert(z@ == dense_z(x@, self.w@, self.b@));
        let r = self.activation.forward(&z, f);
        self.state = Cache::HasInput(x.duplicate());
        Ok(r)
    }

    /// Runs the backward pass: updates the weights and bias in place and
    /// returns the downstream gradient beside the regularization penalty.
    ///
    /// Fails with `NoCachedInput` when either cache is empty, and with
    /// `ShapeMismatch` when the shapes do not line up as
    /// [`Self::backward_ok`] asks; on failure nothing is changed.
    pub fn backward<F: Fn(MathFn, u64) -> u64>(&mut self, grad: &Mat, f: &F) -> (r: Result<
        (Mat, u64),
        Error,
    >)
        requires
            old(self).wf(),
            grad.wf(),
            forall|a: (MathFn, u64)| #[trigger] call_requires(*f, a),
        ensures
            final(self).wf(),
            final(self).regularizer == old(self).regularizer,
            final(self).learning_rate == old(self).learning_rate,
            final(self).activation.kind == old(self).activation.kind,
            r is Ok <==> old(self).backward_ok(grad@),
            (old(self).cached() is None || old(self).act_cached() is None) ==> r is Err
                && r->Err_0 == Error::NoCachedInput,
            (old(self).cached() is Some && old(self).act_cached() is Some
                && !old(self).backward_ok(grad@)) ==> r is Err
                && r->Err_0 == Error::ShapeMismatch,
            r is Err ==> final(self).w == old(self).w && final(self).b == old(self).b
                && final(self).cached() == old(self).cached()
                && final(self).act_cached() == old(self).act_cached(),
            r is Ok ==> final(self).cached() is None && final(self).act_cached() is None,
            r is Ok ==> (exists|g: Seq<Seq<u64>>|
                #![trigger act_backward_rel(old(self).activation.kind, old(self).act_cached()->0, grad@, g)]
                {
                    let x = old(self).cached()->0;
                    let z = old(self).act_cached()->0;
                    let lr = old(self).learning_rate;
                    let reg = old(self).regularizer;
                    let batch = grad@.len() as u64;
                    let w1 = reg_w_spec(reg, old(self).w@, lr);
                    let b1 = reg_b_spec(reg, old(self).b@, lr);
                    &&& act_backward_rel(old(self).activation.kind, z, grad@, g)
                    &&& final(self).w@ == minus_spec(
                        w1,
                        scale_spec(lr, weight_grad_spec(x, g, batch)),
                    )
                    &&& final(self).b@ == Seq::new(
                        b1.len(),
                        |j: int| sub_of(b1[j], mul_of(lr, bias_grad_spec(g, batch))),
                    )
                    &&& r->Ok_0.0@ == matmul_spec(g, transpose_spec(old(self).w@))
                    &&& r->Ok_0.1 == reg_penalty_spec(reg, w1, b1)
                }),
            r is Ok ==> r->Ok_0.0.wf(),
    {
        let x = match &self.state {
            Cache::AwaitingInput => {
                return Err(Error::NoCachedInput);
            },
            Cache::HasInput(x) => x,
        };
        let z = match &self.activation.state {
            Cache::AwaitingInput => {
                return Err(Error::NoCachedInput);
            },
            Cache::HasInput(z) => z,
        };
        // All the shape checks, before anything is mutated.
        if z.nrows() != grad.nrows() || z.ncols() != grad.ncols() || x.nrows() != grad.nrows()
            || x.ncols() != self.w.nrows() || grad.ncols() != self.w.ncols() || grad.nrows() == 0
            || self.w.nrows() == 0 {
            assert(!self.backward_ok(grad@));
            return Err(Error::ShapeMismatch);
        }
        assert(self.backward_ok(grad@));
        let batch_n = grad.nrows();
        let xt = x.transpose();
        let g = match self.activation.backward(grad, f) {
            Ok(g) => g,
            Err(_) => {
                assert(false);
                return Err(Error::ShapeMismatch);
            },
        };
        assert(same_shape(grad@, g@));
        let batch = fp_of_nat(batch_n as u64);
        let wg0 = match xt.matmul(&g) {
            Ok(m) => m,
            Err(_) => {
                assert(false);
                return Err(Error::ShapeMismatch);
            },
        };
        let wg = wg0.div_by(batch);
        let bg = fp_div(g.sum_all(), batch);
        // The regularization step, and its penalty on the stepped values.
        let (w1, b1, penalty) = match &self.regularizer {
            Some(reg) => {
                let rw = reg.regularize(&self.w);
                let rw_scaled = rw.scale(self.learning_rate);
                let w1 = match self.w.minus(&rw_scaled) {
                    Ok(m) => m,
                    Err(_) => {
                        assert(false);
                        return Err(Error::ShapeMismatch);
                    },
                };
                let rb = reg.regularize_bias(&self.b);
                let b1 = vec_sub_scaled(&self.b, self.learning_rate, &rb);
                let penalty = fp_add(reg.loss(&w1), reg.loss_bias(&b1));
                (w1, b1, penalty)
            },
            None => (self.w.duplicate(), crate::mat::duplicate_vec(&self.b), ZERO_BITS),
        };
        assert(w1@ == reg_w_spec(self.regularizer, self.w@, self.learning_rate));
        assert(b1@ =~= reg_b_spec(self.regularizer, self.b@, self.learning_rate));
        // The downstream gradient, from the weights as they stood on entry.
        let wt = self.w.transpose();
        let downstream = match g.matmul(&wt) {
            Ok(m) => m,
            Err(_) => {
                assert(false);
                return Err(Error::ShapeMismatch);
            },
        };
        // The gradient-descent step.
        let wg_scaled = wg.scale(self.learning_rate);
        let w2 = match w1.minus(&wg_scaled) {
            Ok(m) => m,
            Err(_) => {
                assert(false);
                return Err(Error::ShapeMismatch);
            },
        };
        let b2 = vec_sub_scalar(&b1, fp_mul(self.learning_rate, bg));
        let ghost gv = g@;
        self.w = w2;
        self.b = b2;
        self.state = Cache::AwaitingInput;
        proof {
            let batch64 = grad@.len() as u64;
            let kind = old(self).activation.kind;
            let z0 = old(self).act_cached()->0;
            let w1s = reg_w_spec(old(self).regularizer, old(self).w@, old(self).learning_rate);
            let b1s = reg_b_spec(old(self).regularizer, old(self).b@, old(self).learning_rate);
            assert(wg@ == weight_grad_spec(old(self).cached()->0, gv, batch64));
            assert(bg == bias_grad_spec(gv, batch64));
            assert(act_backward_rel(kind, z0, grad@, gv));
            assert(self.w@ == minus_spec(
                w1s,
                scale_spec(old(self).learning_rate, weight_grad_spec(old(self).cached()->0, gv, batch64)),
            ));
            assert(self.b@ =~= Seq::new(
                b1s.len(),
                |j: int| sub_of(b1s[j], mul_of(old(self).learning_rate, bias_grad_spec(gv, batch64))),
            ));
        }
        Ok((downstream, penalty))
    }
}

/// `a[j] − s·c[j]`, entry by entry.
fn vec_sub_scaled(a: &Vec<u64>, s: u64, c: &Vec<u64>) -> (r: Vec<u64>)
    requires
        a@.len() == c@.len(),
    ensures
        r@ == Seq::new(a@.len(), |j: int| sub_of(a@[j], mul_of(s, c@[j]))),
{
    let n = a.len();
    let ghost target = Seq::new(a@.len(), |j: int| sub_of(a@[j], mul_of(s, c@[j])));
    let mut out: Vec<u64> = Vec::new();
    let mut j: usize = 0;
    while j < n
        invariant
            0 <= j <= n,
            out@.len() == j,
            forall|q: int| 0 <= q < j ==> out@[q] == target[q],
        decreases n - j,
    {
        out.push(crate::fp::fp_sub(a[j], fp_mul(s, c[j])));
        j += 1;
    }
    assert(out@ =~= target);
    out
}

/// `a[j] − s`, entry by entry.
fn vec_sub_scalar(a: &Vec<u64>, s: u64) -> (r: Vec<u64>)
    ensures
        r@ == Seq::new(a@.len(), |j: int| sub_of(a@[j], s)),
{
    let n = a.len();
    let ghost target = Seq::new(a@.len(), |j: int| sub_of(a@[j], s));
    let mut out: Vec<u64> = Vec::new();
    let mut j: usize = 0;
    while j < n
        invariant
            0 <= j <= n,
            out@.len() == j,
            forall|q: int| 0 <= q < j ==> out@[q] == target[q],
        decreases n - j,
    {
        out.push(crate::fp::fp_sub(a[j], s));
        j += 1;
    }
    assert(out@ =~= target);
    out
}

} // verus!
