//! IEEE-754 binary64 scalars, carried as bit patterns.
//!
//! Verus cannot reason about floating-point values, so every scalar in this
//! crate is a `u64` holding the bits of a double.  The arithmetic itself is
//! done by `rustc_apfloat`, a pure, deterministic software implementation of
//! IEEE-754 binary64, through trusted wrappers.  Each wrapper's result is
//! named by an uninterpreted spec function of the operand bits: the
//! operations are functions of their arguments alone, the same in every
//! process and on every machine.  Negation and absolute value only touch the
//! sign bit, so they are ordinary verified code with exact contracts.

use vstd::prelude::*;

use rustc_apfloat::Float;

verus! {

/// The bits of +0.0.
pub const ZERO_BITS: u64 = 0x0000_0000_0000_0000;

/// The bits of 1.0.
pub const ONE_BITS: u64 = 0x3FF0_0000_0000_0000;

/// The bits of 2.0.
pub const TWO_BITS: u64 = 0x4000_0000_0000_0000;

/// The bits of 0.5.
pub const HALF_BITS: u64 = 0x3FE0_0000_0000_0000;

/// The bits of -1.0.
pub const NEG_ONE_BITS: u64 = 0xBFF0_0000_0000_0000;

/// The bits of 100.0.
pub const HUNDRED_BITS: u64 = 0x4059_0000_0000_0000;

/// The bits of 0.1, the upper end of the range convolution filters are
/// drawn from.
pub const ONE_TENTH_BITS: u64 = 0x3FB9_9999_9999_999A;

/// The bits of 1.0e-20, the guard added to a prediction before taking its
/// logarithm in the cross-entropy loss.
pub const LOG_GUARD_BITS: u64 = 0x3BC7_9CA1_0C92_4223;

/// The sign bit of a double.
pub const SIGN_MASK: u64 = 0x8000_0000_0000_0000;

/// Everything but the sign bit of a double.
pub const MAGNITUDE_MASK: u64 = 0x7FFF_FFFF_FFFF_FFFF;

/// The sum bits of two doubles, rounded to nearest even.
pub uninterp spec fn add_of(a: u64, b: u64) -> u64;

/// The difference bits of two doubles, rounded to nearest even.
pub uninterp spec fn sub_of(a: u64, b: u64) -> u64;

/// The product bits of two doubles, rounded to nearest even.
pub uninterp spec fn mul_of(a: u64, b: u64) -> u64;

/// The quotient bits of two doubles, rounded to nearest even.
pub uninterp spec fn div_of(a: u64, b: u64) -> u64;

/// The bits of the double nearest to the natural number `n`.
pub uninterp spec fn nat_bits(n: u64) -> u64;

/// Whether the double `a` compares strictly below the double `b` in the
/// IEEE-754 order; false whenever either operand is a NaN.
pub uninterp spec fn lt_of(a: u64, b: u64) -> bool;

/// Whether the doubles `a` and `b` compare equal in the IEEE-754 sense:
/// the two zeros are equal, a NaN is equal to nothing.
pub uninterp spec fn eq_of(a: u64, b: u64) -> bool;

/// The larger of two doubles under IEEE-754 maxNum semantics: if one operand
/// is a NaN the other is returned.
pub uninterp spec fn max_of(a: u64, b: u64) -> u64;

/// The elementary scalar functions this crate cannot compute itself.
///
/// No deterministic bit-level implementation of them is available here, so
/// functions that need one take a caller-supplied closure mapping a
/// `(MathFn, u64)` request to the result's bits, and their contracts state
/// what holds for every value the closure may return.
#[derive(Clone, Copy, PartialEq, Eq, Structural, Debug)]
pub enum MathFn {
    /// The natural exponential, e raised to the argument.
    Exp,
    /// The base-two logarithm of the argument.
    Log2,
    /// The hyperbolic tangent of the argument.
    Tanh,
}

/// Relies on `rustc_apfloat::ieee::Double`'s `Add` impl: IEEE-754 addition,
/// rounded to nearest even.
#[verifier::external_body]
pub fn fp_add(a: u64, b: u64) -> (r: u64)
    ensures
        r == add_of(a, b),
{
    let x = rustc_apfloat::ieee::Double::from_bits(a as u128);
    let y = rustc_apfloat::ieee::Double::from_bits(b as u128);
    (x + y).value.to_bits() as u64
}

/// Relies on `rustc_apfloat::ieee::Double`'s `Sub` impl: IEEE-754
/// subtraction, rounded to nearest even.
#[verifier::external_body]
pub fn fp_sub(a: u64, b: u64) -> (r: u64)
    ensures
        r == sub_of(a, b),
{
    let x = rustc_apfloat::ieee::Double::from_bits(a as u128);
    let y = rustc_apfloat::ieee::Double::from_bits(b as u128);
    (x - y).value.to_bits() as u64
}

/// Relies on `rustc_apfloat::ieee::Double`'s `Mul` impl: IEEE-754
/// multiplication, rounded to nearest even.
#[verifier::external_body]
pub fn fp_mul(a: u64, b: u64) -> (r: u64)
    ensures
        r == mul_of(a, b),
{
    let x = rustc_apfloat::ieee::Double::from_bits(a as u128);
    let y = rustc_apfloat::ieee::Double::from_bits(b as u128);
    (x * y).value.to_bits() as u64
}

/// Relies on `rustc_apfloat::ieee::Double`'s `Div` impl: IEEE-754 division,
/// rounded to nearest even.
#[verifier::external_body]
pub fn fp_div(a: u64, b: u64) -> (r: u64)
    ensures
        r == div_of(a, b),
{
    let x = rustc_apfloat::ieee::Double::from_bits(a as u128);
    let y = rustc_apfloat::ieee::Double::from_bits(b as u128);
    (x / y).value.to_bits() as u64
}

/// Relies on `rustc_apfloat::Float::from_u128`: the conversion of a natural
/// number to the nearest double.
#[verifier::external_body]
pub fn fp_of_nat(n: u64) -> (r: u64)
    ensures
        r == nat_bits(n),
{
    rustc_apfloat::ieee::Double::from_u128(n as u128).value.to_bits() as u64
}

/// Relies on `rustc_apfloat::ieee::IeeeFloat`'s `PartialOrd` impl: the
/// IEEE-754 comparison, in which a NaN is below nothing.
#[verifier::external_body]
pub fn fp_lt(a: u64, b: u64) -> (r: bool)
    ensures
        r == lt_of(a, b),
{
    let x = rustc_apfloat::ieee::Double::from_bits(a as u128);
    let y = rustc_apfloat::ieee::Double::from_bits(b as u128);
    x < y
}

/// Relies on `rustc_apfloat::ieee::IeeeFloat`'s `PartialEq` impl: the
/// IEEE-754 equality, in which -0.0 equals +0.0 and a NaN equals nothing.
#[verifier::external_body]
pub fn fp_eq(a: u64, b: u64) -> (r: bool)
    ensures
        r == eq_of(a, b),
{
    let x = rustc_apfloat::ieee::Double::from_bits(a as u128);
    let y = rustc_apfloat::ieee::Double::from_bits(b as u128);
    x == y
}

/// Relies on `rustc_apfloat::Float::max`: IEEE-754 maxNum, which returns the
/// larger operand and ignores a NaN in favour of the other operand.
#[verifier::external_body]
pub fn fp_max(a: u64, b: u64) -> (r: u64)
    ensures
        r == max_of(a, b),
{
    let x = rustc_apfloat::ieee::Double::from_bits(a as u128);
    let y = rustc_apfloat::ieee::Double::from_bits(b as u128);
    x.max(y).to_bits() as u64
}

/// IEEE-754 negation: flipping the sign bit negates a double exactly.
pub fn fp_neg(a: u64) -> (r: u64)
    ensures
        r == (a ^ SIGN_MASK),
{
    a ^ SIGN_MASK
}

/// IEEE-754 absolute value: clearing the sign bit takes the magnitude of a
/// double exactly.
pub fn fp_abs(a: u64) -> (r: u64)
    ensures
        r == (a & MAGNITUDE_MASK),
{
    a & MAGNITUDE_MASK
}

/// The negated absolute value of a double: its magnitude with the sign bit
/// set.
pub fn fp_neg_abs(a: u64) -> (r: u64)
    ensures
        r == ((a & MAGNITUDE_MASK) | SIGN_MASK),
{
    (a & MAGNITUDE_MASK) | SIGN_MASK
}

} // verus!
