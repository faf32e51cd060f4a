//! The closed set of layer variants, behind one dispatching interface.
//!
//! A layer takes a tensor forward and a gradient backward; each variant
//! checks the rank and shape it needs and reports a shape mismatch
//! otherwise.  The relations [`layer_forward_res`] and
//! [`layer_backward_res`] state, variant by variant, exactly which result
//! and which new layer state every call produces — including which error
//! comes back on which input — so the network's contracts can chain them.

use vstd::prelude::*;

use crate::activation::{act_backward_rel, call_rel};
use crate::conv::{
    conv_out_spec, pad_batch, new_filters_spec, dx_spec, ten3_rows, ten3_cols, Conv,
};
use crate::dense::{
    bias_grad_spec, dense_z, reg_b_spec, reg_penalty_spec, reg_w_spec, weight_grad_spec, Dense,
};
use crate::error::Error;
use crate::fp::{mul_of, sub_of, MathFn, ZERO_BITS};
use crate::mat::{matmul_spec, minus_spec, same_shape, scale_spec, transpose_spec, cols};
use crate::reshape::{reshape_spec, ten4_uniform, ReshapeLayer};
use crate::softmax::{jvp_spec, softmax_rel, Softmax};
use crate::tensor::Tensor;

verus! {

/// One layer of the stack.
pub enum Layer {
    /// A fully connected layer.
    Dense(Dense),
    /// A convolution layer.
    Conv(Conv),
    /// The flattening bridge from convolutional to dense stages.
    Reshape(ReshapeLayer),
    /// A terminal softmax.
    Softmax(Softmax),
}

/// The wiring of a dense layer that no call changes.
pub open spec fn dense_still(d0: &Dense, d1: &Dense) -> bool {
    &&& d1.activation.kind == d0.activation.kind
    &&& d1.learning_rate == d0.learning_rate
    &&& d1.regularizer == d0.regularizer
}

/// A dense layer wholly unchanged.
pub open spec fn dense_unchanged(d0: &Dense, d1: &Dense) -> bool {
    &&& dense_still(d0, d1)
    &&& d1.w@ == d0.w@
    &&& d1.b@ == d0.b@
    &&& d1.cached() == d0.cached()
    &&& d1.act_cached() == d0.act_cached()
}

/// The geometry of a convolution layer that no call changes.
pub open spec fn conv_still(c0: &Conv, c1: &Conv) -> bool {
    &&& c1.filter_size == c0.filter_size
    &&& c1.num_filters == c0.num_filters
    &&& c1.stride == c0.stride
    &&& c1.mode == c0.mode
    &&& c1.learning_rate == c0.learning_rate
}

/// A convolution layer wholly unchanged.
pub open spec fn conv_unchanged(c0: &Conv, c1: &Conv) -> bool {
    &&& conv_still(c0, c1)
    &&& c1.filters@ == c0.filters@
    &&& c1.cached() == c0.cached()
}

/// What a forward call on one layer produces: the exact result or error,
/// and the exact new layer state, for every input.
pub open spec fn layer_forward_res(l0: Layer, x: Tensor, l1: Layer, r: Result<
    Tensor,
    Error,
>) -> bool {
    match (l0, l1) {
        (Layer::Dense(d0), Layer::Dense(d1)) => {
            &&& dense_still(&d0, &d1)
            &&& d1.w@ == d0.w@
            &&& d1.b@ == d0.b@
            &&& match x {
                Tensor::D2(xm) => {
                    if cols(xm@) == d0.w.spec_nrows() && cols(matmul_spec(xm@, d0.w@))
                        == d0.b@.len() {
                        &&& r matches Ok(Tensor::D2(ym))
                        &&& d1.cached() == Some(xm@)
                        &&& d1.act_cached() == Some(dense_z(xm@, d0.w@, d0.b@))
                        &&& call_rel(d0.activation.kind, dense_z(xm@, d0.w@, d0.b@), ym@)
                    } else {
                        &&& r is Err
                        &&& r->Err_0 == Error::ShapeMismatch
                        &&& d1.cached() == d0.cached()
                        &&& d1.act_cached() == d0.act_cached()
                    }
                },
                _ => {
                    &&& r is Err
                    &&& r->Err_0 == Error::ShapeMismatch
                    &&& d1.cached() == d0.cached()
                    &&& d1.act_cached() == d0.act_cached()
                },
            }
        },
        (Layer::Conv(c0), Layer::Conv(c1)) => {
            &&& conv_still(&c0, &c1)
            &&& match x {
                Tensor::D3(xt) => {
                    if c0.forward_ok(xt@) {
                        &&& r matches Ok(Tensor::D4(yt))
                        &&& c1.filters@ == c0.filters@
                        &&& c1.cached() == Some(
                            pad_batch(xt@, c0.mode, c0.filter_size as int),
                        )
                        &&& yt@ == conv_out_spec(
                            pad_batch(xt@, c0.mode, c0.filter_size as int),
                            c0.filters@,
                            c0.stride as int,
                            c0.forward_out_h(xt@),
                            c0.forward_out_w(xt@),
                        )
                    } else {
                        &&& r is Err
                        &&& r->Err_0 == Error::ShapeMismatch
                        &&& conv_unchanged(&c0, &c1)
                    }
                },
                _ => {
                    &&& r is Err
                    &&& r->Err_0 == Error::ShapeMismatch
                    &&& conv_unchanged(&c0, &c1)
                },
            }
        },
        (Layer::Reshape(_), Layer::Reshape(_)) => {
            match x {
                Tensor::D4(xt) => {
                    if ten4_uniform(xt@) {
                        &&& r matches Ok(Tensor::D2(ym))
                        &&& ym@ == reshape_spec(xt@)
                    } else {
                        &&& r is Err
                        &&& r->Err_0 == Error::ShapeMismatch
                    }
                },
                _ => r is Err && r->Err_0 == Error::ShapeMismatch,
            }
        },
        (Layer::Softmax(_), Layer::Softmax(s1)) => {
            match x {
                Tensor::D2(xm) => {
                    &&& r matches Ok(Tensor::D2(ym))
                    &&& s1.cached() == Some(xm@)
                    &&& softmax_rel(xm@, ym@)
                    &&& same_shape(xm@, ym@)
                },
                _ => {
                    &&& r is Err
                    &&& r->Err_0 == Error::ShapeMismatch
                },
            }
        },
        _ => false,
    }
}

/// What a backward call on one layer produces: the exact downstream
/// gradient, penalty scalar, error, and new layer state, for every input.
pub open spec fn layer_backward_res(l0: Layer, g: Tensor, l1: Layer, r: Result<
    (Tensor, u64),
    Error,
>) -> bool {
    match (l0, l1) {
        (Layer::Dense(d0), Layer::Dense(d1)) => {
            &&& dense_still(&d0, &d1)
            &&& match g {
                Tensor::D2(gm) => {
                    if d0.backward_ok(gm@) {
                        &&& r matches Ok((Tensor::D2(dm), pen))
                        &&& d1.cached() is None
                        &&& d1.act_cached() is None
                        &&& (exists|gg: Seq<Seq<u64>>|
                            #![trigger act_backward_rel(d0.activation.kind, d0.act_cached()->0, gm@, gg)]
                            {
                                let x = d0.cached()->0;
                                let z = d0.act_cached()->0;
                                let lr = d0.learning_rate;
                                let batch = gm@.len() as u64;
                                let w1 = reg_w_spec(d0.regularizer, d0.w@, lr);
                                let b1 = reg_b_spec(d0.regularizer, d0.b@, lr);
                                &&& act_backward_rel(d0.activation.kind, z, gm@, gg)
                                &&& d1.w@ == minus_spec(
                                    w1,
                                    scale_spec(lr, weight_grad_spec(x, gg, batch)),
                                )
                                &&& d1.b@ == Seq::new(
                                    b1.len(),
                                    |j: int| sub_of(b1[j], mul_of(lr, bias_grad_spec(gg, batch))),
                                )
                                &&& dm@ == matmul_spec(gg, transpose_spec(d0.w@))
                                &&& pen == reg_penalty_spec(d0.regularizer, w1, b1)
                            })
                    } else {
                        &&& r is Err
                        &&& (if d0.cached() is None || d0.act_cached() is None {
                            r->Err_0 == Error::NoCachedInput
                        } else {
                            r->Err_0 == Error::ShapeMismatch
                        })
                        &&& dense_unchanged(&d0, &d1)
                    }
                },
                _ => r is Err && r->Err_0 == Error::ShapeMismatch && dense_unchanged(&d0, &d1),
            }
        },
        (Layer::Conv(c0), Layer::Conv(c1)) => {
            &&& conv_still(&c0, &c1)
            &&& match g {
                Tensor::D4(gt) => {
                    if c0.backward_ok(gt@) {
                        &&& r matches Ok((Tensor::D3(dt), pen))
                        &&& pen == ZERO_BITS
                        &&& c1.cached() is None
                        &&& c1.filters@ == new_filters_spec(
                            c0.filters@,
                            c0.cached()->0,
                            gt@,
                            c0.stride as int,
                            c0.filter_size as nat,
                            c0.learning_rate,
                        )
                        &&& dt@ == Seq::new(
                            gt@.len(),
                            |n: int|
                                dx_spec(
                                    gt@[n],
                                    c0.filters@,
                                    c0.filter_size as int,
                                    c0.stride as int,
                                    ten3_rows(c0.cached()->0),
                                    ten3_cols(c0.cached()->0),
                                ),
                        )
                    } else {
                        &&& r is Err
                        &&& (if c0.cached() is None {
                            r->Err_0 == Error::NoCachedInput
                        } else {
                            r->Err_0 == Error::ShapeMismatch
                        })
                        &&& conv_unchanged(&c0, &c1)
                    }
                },
                _ => {
                    &&& r is Err
                    &&& (if c0.cached() is None {
                        r->Err_0 == Error::NoCachedInput
                    } else {
                        r->Err_0 == Error::ShapeMismatch
                    })
                    &&& conv_unchanged(&c0, &c1)
                },
            }
        },
        (Layer::Reshape(_), Layer::Reshape(_)) => {
            &&& r matches Ok((y, pen))
            &&& y == g
            &&& pen == ZERO_BITS
        },
        (Layer::Softmax(s0), Layer::Softmax(s1)) => {
            match g {
                Tensor::D2(gm) => {
                    if s0.cached() matches Some(z) && same_shape(z, gm@) {
                        &&& r matches Ok((Tensor::D2(dm), pen))
                        &&& pen == ZERO_BITS
                        &&& s1.cached() is None
                        &&& (exists|s: Seq<Seq<u64>>|
                            softmax_rel(s0.cached()->0, s) && same_shape(s0.cached()->0, s)
                                && dm@ == #[trigger] jvp_spec(s, gm@))
                    } else {
                        &&& r is Err
                        &&& (if s0.cached() is None {
                            r->Err_0 == Error::NoCachedInput
                        } else {
                            r->Err_0 == Error::ShapeMismatch
                        })
                        &&& s1.cached() == s0.cached()
                    }
                },
                _ => {
                    &&& r is Err
                    &&& (if s0.cached() is None {
                        r->Err_0 == Error::NoCachedInput
                    } else {
                        r->Err_0 == Error::ShapeMismatch
                    })
                    &&& s1.cached() == s0.cached()
                },
            }
        },
        _ => false,
    }
}

impl Layer {
    /// Every matrix the layer holds is well formed.
    pub open spec fn wf(&self) -> bool {
        match *self {
            Layer::Dense(ref d) => d.wf(),
            Layer::Conv(ref c) => c.wf(),
            Layer::Reshape(_) => true,
            Layer::Softmax(ref s) => s.wf(),
        }
    }

    /// The machine limit a convolution layer's geometry must meet before a
    /// forward pass.
    pub open spec fn limits_ok(&self) -> bool {
        match *self {
            Layer::Conv(ref c) => c.filter_size <= 0x10_0000,
            _ => true,
        }
    }

    /// The machine limit a convolution layer's cache must meet before a
    /// backward pass.
    pub open spec fn back_limits_ok(&self) -> bool {
        match *self {
            Layer::Conv(ref c) => c.filter_size <= 0x10_0000 && (c.cached() matches Some(pt)
                ==> ten3_rows(pt) <= 0x40_0000 && ten3_cols(pt) <= 0x40_0000),
            _ => true,
        }
    }

    /// Takes a tensor forward through this layer, exactly as
    /// [`layer_forward_res`] states.
    pub fn forward<F: Fn(MathFn, u64) -> u64>(&mut self, x: Tensor, f: &F) -> (r: Result<
        Tensor,
        Error,
    >)
        requires
            old(self).wf(),
            old(self).limits_ok(),
            x.wf(),
            crate::layer::tensor_limits_ok(&x),
            forall|a: (MathFn, u64)| #[trigger] call_requires(*f, a),
        ensures
            final(self).wf(),
            layer_forward_res(*old(self), x, *final(self), r),
            r matches Ok(t) ==> t.wf(),
            final(self).limits_ok(),
            r is Ok ==> final(self).back_limits_ok(),
            old(self).back_limits_ok() ==> final(self).back_limits_ok(),
    {
        match self {
            Layer::Dense(d) => {
                match x {
                    Tensor::D2(xm) => {
                        match d.forward(&xm, f) {
                            Ok(ym) => Ok(Tensor::D2(ym)),
                            Err(e) => Err(e),
                        }
                    },
                    _ => Err(Error::ShapeMismatch),
                }
            },
            Layer::Conv(c) => {
                match x {
                    Tensor::D3(xt) => {
                        match c.forward(&xt) {
                            Ok(yt) => {
                                proof {
                                    let ptv = pad_batch(xt@, c.mode, c.filter_size as int);
                                    assert forall|n: int|
                                        0 <= n < ptv.len() implies (#[trigger] ptv[n]).len()
                                        <= 0x40_0000 && crate::mat::cols(ptv[n]) <= 0x40_0000 by {
                                        assert(ptv[n] == crate::conv::pad_spec(
                                            xt@[n],
                                            c.mode,
                                            c.filter_size as int,
                                        ));
                                        assert(xt@[n].len() == ten3_rows(xt@) && crate::mat::cols(
                                            xt@[n],
                                        ) == ten3_cols(xt@));
                                    }
                                    if xt@.len() > 0 {
                                        assert(ptv[0].len() <= 0x40_0000 && crate::mat::cols(
                                            ptv[0],
                                        ) <= 0x40_0000);
                                    }
                                    assert(ten3_rows(ptv) <= 0x40_0000 && ten3_cols(ptv)
                                        <= 0x40_0000);
                                }
                                Ok(Tensor::D4(yt))
                            },
                            Err(e) => Err(e),
                        }
                    },
                    _ => Err(Error::ShapeMismatch),
                }
            },
            Layer::Reshape(rl) => {
                match x {
                    Tensor::D4(xt) => {
                        match rl.forward(&xt) {
                            Ok(ym) => Ok(Tensor::D2(ym)),
                            Err(e) => Err(e),
                        }
                    },
                    _ => Err(Error::ShapeMismatch),
                }
            },
            Layer::Softmax(s) => {
                match x {
                    Tensor::D2(xm) => Ok(Tensor::D2(s.forward(&xm, f))),
                    _ => Err(Error::ShapeMismatch),
                }
            },
        }
    }

    /// Takes a gradient backward through this layer, exactly as
    /// [`layer_backward_res`] states; dense and convolution layers update
    /// their parameters in place.
    pub fn backward<F: Fn(MathFn, u64) -> u64>(&mut self, g: Tensor, f: &F) -> (r: Result<
        (Tensor, u64),
        Error,
    >)
        requires
            old(self).wf(),
            old(self).back_limits_ok(),
            g.wf(),
            forall|a: (MathFn, u64)| #[trigger] call_requires(*f, a),
        ensures
            final(self).wf(),
            layer_backward_res(*old(self), g, *final(self), r),
            r matches Ok(t) ==> t.0.wf(),
            final(self).limits_ok() == old(self).limits_ok(),
            final(self).back_limits_ok(),
    {
        match self {
            Layer::Dense(d) => {
                match g {
                    Tensor::D2(gm) => {
                        match d.backward(&gm, f) {
                            Ok((dm, pen)) => Ok((Tensor::D2(dm), pen)),
                            Err(e) => Err(e),
                        }
                    },
                    _ => Err(Error::ShapeMismatch),
                }
            },
            Layer::Conv(c) => {
                match g {
                    Tensor::D4(gt) => {
                        match c.backward(&gt) {
                            Ok(dt) => Ok((Tensor::D3(dt), ZERO_BITS)),
                            Err(e) => Err(e),
                        }
                    },
                    _ => {
                        match &c.state {
                            crate::conv::Cache3::AwaitingInput => Err(Error::NoCachedInput),
                            crate::conv::Cache3::HasInput(_) => Err(Error::ShapeMismatch),
                        }
                    },
                }
            },
            Layer::Reshape(_) => Ok((g, ZERO_BITS)),
            Layer::Softmax(s) => {
                match g {
                    Tensor::D2(gm) => {
                        match s.backward(&gm, f) {
                            Ok(dm) => Ok((Tensor::D2(dm), ZERO_BITS)),
                            Err(e) => Err(e),
                        }
                    },
                    _ => {
                        match &s.state {
                            crate::activation::Cache::AwaitingInput => Err(Error::NoCachedInput),
                            crate::activation::Cache::HasInput(_) => Err(Error::ShapeMismatch),
                        }
                    },
                }
            },
        }
    }
}

/// The machine limit an input tensor must meet before a forward pass: a
/// rank-3 batch small enough to pad.
pub open spec fn tensor_limits_ok(t: &Tensor) -> bool {
    match *t {
        Tensor::D3(ref t3) => ten3_rows(t3@) <= 0x10_0000 && ten3_cols(t3@) <= 0x10_0000,
        _ => true,
    }
}

} // verus!
