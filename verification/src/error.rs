//! The errors the library reports.
//!
//! A misconfigured network is a precondition violation, not a recoverable
//! runtime condition: every operation that depends on shapes lining up, or on
//! a forward call having cached its input, reports one of these instead of
//! panicking.

use vstd::prelude::*;

verus! {

/// What went wrong with a layer, loss or network operation.
#[derive(Clone, Copy, PartialEq, Eq, Structural, Debug)]
pub enum Error {
    /// Two tensors whose shapes must line up do not, or a batch holds
    /// samples of differing sizes.
    ShapeMismatch,
    /// A backward pass was asked for before the matching forward pass had
    /// cached its input.
    NoCachedInput,
}

impl Error {
    /// A short description, for callers that report errors.
    pub fn describe(&self) -> String {
        match self {
            Error::ShapeMismatch => "shape mismatch".to_string(),
            Error::NoCachedInput => "backward called before forward".to_string(),
        }
    }
}

} // verus!
