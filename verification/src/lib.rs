//! A feed-forward / convolutional neural-network trainer, verified with Verus.
//!
//! Verus does not reason about floating-point values, so every scalar is
//! carried as the 64 bits of an IEEE-754 double.  Arithmetic on those bits is
//! performed by `rustc_apfloat`, a deterministic software implementation of
//! IEEE-754 binary64, behind trusted wrappers whose results are named by
//! uninterpreted spec functions.  Transcendental functions (exp, log2, tanh)
//! and random number generation have no such deterministic bit-level
//! implementation available, so the functions that need them take a caller
//! supplied closure and their contracts state what holds for every value the
//! closure may return.

#![verifier::loop_isolation(false)]

use vstd::prelude::*;

pub mod error;
pub mod fp;
pub mod mat;
pub mod activation;
pub mod regularizer;
pub mod loss;
pub mod tensor;
pub mod softmax;
pub mod dense;
pub mod conv;
pub mod reshape;
pub mod layer;
pub mod network;
pub mod datagen;

verus! {

} // verus!
