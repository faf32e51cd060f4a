//! Activation functions, with the per-call input cache they keep between a
//! forward and its matching backward pass.
//!
//! Sigmoid and tanh need the exponential and hyperbolic tangent of a scalar,
//! which this crate cannot compute itself: the methods that need them take a
//! caller-supplied [`MathFn`] closure, and their contracts hold for every
//! value it may return.  The sigmoid is computed in the numerically stable
//! form that branches on the sign of the argument, and its derivative is
//! `s·(1−s)` of the sigmoid recomputed on the cached input.

use vstd::prelude::*;

use crate::error::Error;
use crate::fp::{
    add_of, div_of, mul_of, sub_of, lt_of, max_of, fp_add, fp_div, fp_mul, fp_sub, fp_lt,
    fp_max, fp_neg_abs, MathFn, ZERO_BITS, ONE_BITS,
};
use crate::mat::{same_shape, hadamard_spec, Mat};

verus! {

/// The activation variants a dense layer can be wired to.
#[derive(Clone, Copy, PartialEq, Eq, Structural, Debug)]
pub enum ActKind {
    /// The logistic function 1 / (1 + e^-x).
    Sigmoid,
    /// The rectifier max(0, x).
    Relu,
    /// The hyperbolic tangent.
    Tanh,
    /// The identity.
    Linear,
}

/// The per-call cache of a layer or activation: between a forward call and
/// its matching backward call it holds the forward input.
pub enum Cache {
    /// No forward call has been made since the last backward call.
    AwaitingInput,
    /// The input the most recent forward call received.
    HasInput(Mat),
}

/// The stable sigmoid of the scalar `x`, given `e`, the exponential of the
/// negated magnitude of `x`: for non-negative `x` it is `1 / (1 + e)`, and
/// for negative `x` it is `e / (1 + e)`.
pub open spec fn sigmoid_of(x: u64, e: u64) -> u64 {
    if lt_of(x, ZERO_BITS) {
        div_of(e, add_of(ONE_BITS, e))
    } else {
        div_of(ONE_BITS, add_of(ONE_BITS, e))
    }
}

/// The sigmoid derivative `s · (1 − s)`, with `s` the sigmoid of `x` given
/// the exponential `e`.
pub open spec fn sigmoid_deriv_of(x: u64, e: u64) -> u64 {
    mul_of(sigmoid_of(x, e), sub_of(ONE_BITS, sigmoid_of(x, e)))
}

/// The rectifier max(0, x).
pub open spec fn relu_of(x: u64) -> u64 {
    max_of(x, ZERO_BITS)
}

/// The rectifier's sub-gradient: 1 where x is strictly positive, else 0.
pub open spec fn relu_deriv_of(x: u64) -> u64 {
    if lt_of(ZERO_BITS, x) {
        ONE_BITS
    } else {
        ZERO_BITS
    }
}

/// The tanh derivative `1 − t²`, with `t` the hyperbolic tangent of the
/// input.
pub open spec fn tanh_deriv_of(t: u64) -> u64 {
    sub_of(ONE_BITS, mul_of(t, t))
}

/// What an activation's value at one cell may be: exact for the rectifier
/// and the identity; for the sigmoid, the stable formula for some
/// exponential the closure returned; for tanh, whatever the closure
/// returned.
pub open spec fn call_cell_ok(kind: ActKind, x: u64, y: u64) -> bool {
    match kind {
        ActKind::Linear => y == x,
        ActKind::Relu => y == relu_of(x),
        ActKind::Sigmoid => exists|e: u64| y == sigmoid_of(x, e),
        ActKind::Tanh => true,
    }
}

/// What an activation's derivative at one cell may be.
pub open spec fn deriv_cell_ok(kind: ActKind, x: u64, y: u64) -> bool {
    match kind {
        ActKind::Linear => y == ONE_BITS,
        ActKind::Relu => y == relu_deriv_of(x),
        ActKind::Sigmoid => exists|e: u64| y == sigmoid_deriv_of(x, e),
        ActKind::Tanh => exists|t: u64| y == tanh_deriv_of(t),
    }
}

/// The activation applied to a whole batch: same shape, and every cell
/// related by [`call_cell_ok`].
pub open spec fn call_rel(kind: ActKind, x: Seq<Seq<u64>>, y: Seq<Seq<u64>>) -> bool {
    same_shape(x, y) && forall|i: int, j: int|
        0 <= i < x.len() && 0 <= j < x[i].len() ==> call_cell_ok(kind, x[i][j], #[trigger] y[i][j])
}

/// The activation's derivative on a whole batch: same shape, and every cell
/// related by [`deriv_cell_ok`].
pub open spec fn deriv_rel(kind: ActKind, x: Seq<Seq<u64>>, y: Seq<Seq<u64>>) -> bool {
    same_shape(x, y) && forall|i: int, j: int|
        0 <= i < x.len() && 0 <= j < x[i].len() ==> deriv_cell_ok(kind, x[i][j], #[trigger] y[i][j])
}

/// What an activation's backward pass may hand on: the elementwise product
/// of some derivative matrix related to the cached input `z` with the
/// upstream gradient.
pub open spec fn act_backward_rel(
    kind: ActKind,
    z: Seq<Seq<u64>>,
    grad: Seq<Seq<u64>>,
    g: Seq<Seq<u64>>,
) -> bool {
    exists|d: Seq<Seq<u64>>| deriv_rel(kind, z, d) && g == hadamard_spec(d, grad)
}

/// The stable sigmoid of one scalar, asking the closure for the exponential
/// of the negated magnitude of `x`.
fn sigmoid_cell<F: Fn(MathFn, u64) -> u64>(x: u64, f: &F) -> (r: u64)
    requires
        forall|a: (MathFn, u64)| #[trigger] call_requires(*f, a),
    ensures
        exists|e: u64| r == sigmoid_of(x, e),
{
    let e = f(MathFn::Exp, fp_neg_abs(x));
    let denom = fp_add(ONE_BITS, e);
    let r = if fp_lt(x, ZERO_BITS) {
        fp_div(e, denom)
    } else {
        fp_div(ONE_BITS, denom)
    };
    assert(r == sigmoid_of(x, e));
    r
}

/// An activation function together with its cached forward input.
pub struct Activation {
    /// Which activation this is.
    pub kind: ActKind,
    /// The input cached by the most recent forward call, awaiting its
    /// backward call.
    pub state: Cache,
}

impl Activation {
    /// The cached input's view, if a forward call has stored one.
    pub open spec fn cached(&self) -> Option<Seq<Seq<u64>>> {
        match self.state {
            Cache::AwaitingInput => None,
            Cache::HasInput(m) => Some(m@),
        }
    }

    /// Whatever is cached is a well-formed matrix.
    pub open spec fn wf(&self) -> bool {
        match self.state {
            Cache::AwaitingInput => true,
            Cache::HasInput(m) => m.wf(),
        }
    }

    /// A fresh activation of the given kind, awaiting its first input.
    pub fn new(kind: ActKind) -> (r: Activation)
        ensures
            r.kind == kind,
            r.cached() is None,
            r.wf(),
    {
        Activation { kind, state: Cache::AwaitingInput }
    }

    /// The activation's value on a batch, without touching the cache.
    pub fn call<F: Fn(MathFn, u64) -> u64>(&self, x: &Mat, f: &F) -> (r: Mat)
        requires
            x.wf(),
            forall|a: (MathFn, u64)| #[trigger] call_requires(*f, a),
        ensures
            call_rel(self.kind, x@, r@),
            r.wf(),
    {
        let m = x.nrows();
        let n = x.ncols();
        let mut rows: Vec<Vec<u64>> = Vec::new();
        let mut i: usize = 0;
        while i < m
            invariant
                0 <= i <= m,
                rows@.len() == i,
                forall|p: int| 0 <= p < i ==> (#[trigger] rows@[p])@.len() == n,
                forall|p: int, q: int| 0 <= p < i && 0 <= q < n
                    ==> call_cell_ok(self.kind, x@[p][q], #[trigger] rows@[p]@[q]),
            decreases m - i,
        {
            let mut row: Vec<u64> = Vec::new();
            let mut j: usize = 0;
            while j < n
                invariant
                    0 <= j <= n,
                    i < m,
                    row@.len() == j,
                    forall|q: int| 0 <= q < j
                        ==> call_cell_ok(self.kind, x@[i as int][q], #[trigger] row@[q]),
                decreases n - j,
            {
                assert(x@[i as int].len() == n);
                let xv = x.rows[i][j];
                let yv = match self.kind {
                    ActKind::Linear => xv,
                    ActKind::Relu => fp_max(xv, ZERO_BITS),
                    ActKind::Sigmoid => sigmoid_cell(xv, f),
                    ActKind::Tanh => f(MathFn::Tanh, xv),
                };
                row.push(yv);
                j += 1;
            }
            rows.push(row);
            i += 1;
        }
        let out = Mat { rows };
        assert(forall|p: int| 0 <= p < m ==> (#[trigger] out@[p]).len() == x@[p].len());
        assert(crate::mat::is_rect(out@));
        out
    }

    /// The activation's derivative on a batch, without touching the cache.
    pub fn derivative<F: Fn(MathFn, u64) -> u64>(&self, x: &Mat, f: &F) -> (r: Mat)
        requires
            x.wf(),
            forall|a: (MathFn, u64)| #[trigger] call_requires(*f, a),
        ensures
            deriv_rel(self.kind, x@, r@),
            r.wf(),
    {
        let m = x.nrows();
        let n = x.ncols();
        let mut rows: Vec<Vec<u64>> = Vec::new();
        let mut i: usize = 0;
        while i < m
            invariant
                0 <= i <= m,
                rows@.len() == i,
                forall|p: int| 0 <= p < i ==> (#[trigger] rows@[p])@.len() == n,
                forall|p: int, q: int| 0 <= p < i && 0 <= q < n
                    ==> deriv_cell_ok(self.kind, x@[p][q], #[trigger] rows@[p]@[q]),
            decreases m - i,
        {
            let mut row: Vec<u64> = Vec::new();
            let mut j: usize = 0;
            while j < n
                invariant
                    0 <= j <= n,
                    i < m,
                    row@.len() == j,
                    forall|q: int| 0 <= q < j
                        ==> deriv_cell_ok(self.kind, x@[i as int][q], #[trigger] row@[q]),
                decreases n - j,
            {
                assert(x@[i as int].len() == n);
                let xv = x.rows[i][j];
                let yv = match self.kind {
                    ActKind::Linear => ONE_BITS,
                    ActKind::Relu => {
                        if fp_lt(ZERO_BITS, xv) {
                            ONE_BITS
                        } else {
                            ZERO_BITS
                        }
                    },
                    ActKind::Sigmoid => {
                        let s = sigmoid_cell(xv, f);
                        let d = fp_mul(s, fp_sub(ONE_BITS, s));
                        proof {
                            let e = choose|e: u64| s == sigmoid_of(xv, e);
                            assert(d == sigmoid_deriv_of(xv, e));
                        }
                        d
                    },
                    ActKind::Tanh => {
                        let t = f(MathFn::Tanh, xv);
                        let d = fp_sub(ONE_BITS, fp_mul(t, t));
                        assert(d == tanh_deriv_of(t));
                        d
                    },
                };
                row.push(yv);
                j += 1;
            }
            rows.push(row);
            i += 1;
        }
        let out = Mat { rows };
        assert(forall|p: int| 0 <= p < m ==> (#[trigger] out@[p]).len() == x@[p].len());
        assert(crate::mat::is_rect(out@));
        out
    }

    /// Caches the input and returns the activation's value on it.
    pub fn forward<F: Fn(MathFn, u64) -> u64>(&mut self, x: &Mat, f: &F) -> (r: Mat)
        requires
            x.wf(),
            forall|a: (MathFn, u64)| #[trigger] call_requires(*f, a),
        ensures
            final(self).kind == old(self).kind,
            final(self).cached() == Some(x@),
            final(self).wf(),
            call_rel(old(self).kind, x@, r@),
            r.wf(),
    {
        let r = self.call(x, f);
        self.state = Cache::HasInput(x.duplicate());
        r
    }

    /// The elementwise product of the derivative on the cached input with
    /// the upstream gradient, clearing the cache.
    ///
    /// Fails with `NoCachedInput` before a forward call, and with
    /// `ShapeMismatch` if the gradient's shape differs from the cached
    /// input's.
    pub fn backward<F: Fn(MathFn, u64) -> u64>(&mut self, grad: &Mat, f: &F) -> (r: Result<
        Mat,
        Error,
    >)
        requires
            old(self).wf(),
            grad.wf(),
            forall|a: (MathFn, u64)| #[trigger] call_requires(*f, a),
        ensures
            final(self).kind == old(self).kind,
            final(self).wf(),
            r is Ok <==> (old(self).cached() matches Some(z) && same_shape(z, grad@)),
            old(self).cached() is None ==> r is Err && r->Err_0 == Error::NoCachedInput,
            old(self).cached() matches Some(z) && !same_shape(z, grad@) ==> r is Err
                && r->Err_0 == Error::ShapeMismatch,
            r is Ok ==> final(self).cached() is None,
            r is Err ==> final(self).cached() == old(self).cached(),
            r is Ok ==> (exists|d: Seq<Seq<u64>>|
                deriv_rel(old(self).kind, old(self).cached()->0, d) && r->Ok_0@
                    == hadamard_spec(d, grad@)),
            r is Ok ==> r->Ok_0.wf(),
    {
        let mut state = Cache::AwaitingInput;
        core::mem::swap(&mut state, &mut self.state);
        match state {
            Cache::AwaitingInput => Err(Error::NoCachedInput),
            Cache::HasInput(z) => {
                if z.nrows() != grad.nrows() || z.ncols() != grad.ncols() {
                    self.state = Cache::HasInput(z);
                    return Err(Error::ShapeMismatch);
                }
                assert(same_shape(z@, grad@));
                let d = self.derivative(&z, f);
                let r = d.hadamard(grad);
                match r {
                    Ok(out) => Ok(out),
                    Err(e) => {
                        // The derivative has the cached input's shape, which
                        // was just checked against the gradient's.
                        assert(false);
                        Err(e)
                    },
                }
            },
        }
    }
}

} // verus!
