//! Rank-3 and rank-4 tensors, and the tensor that flows between layers.
//!
//! A rank-3 tensor is a stack of matrices (a batch of images, or one
//! feature-map set per image); a rank-4 tensor is a stack of rank-3 ones.
//! Layers exchange a [`Tensor`], which carries whichever rank a stage
//! produces; each layer checks the rank and shape it needs and reports a
//! shape mismatch otherwise.

use vstd::prelude::*;

use crate::mat::Mat;

verus! {

/// A rank-3 tensor: a stack of matrices.
pub struct Ten3 {
    /// The stacked matrices.
    pub mats: Vec<Mat>,
}

impl View for Ten3 {
    type V = Seq<Seq<Seq<u64>>>;

    open spec fn view(&self) -> Seq<Seq<Seq<u64>>> {
        Seq::new(self.mats@.len(), |i: int| self.mats@[i]@)
    }
}

impl Ten3 {
    /// Every stacked matrix is rectangular.
    pub open spec fn wf(&self) -> bool {
        forall|i: int| 0 <= i < self.mats@.len() ==> (#[trigger] self.mats@[i]).wf()
    }

    /// Whether every stacked matrix has `r` rows and `c` columns.
    pub open spec fn uniform(&self, r: nat, c: nat) -> bool {
        forall|i: int|
            0 <= i < self.mats@.len() ==> (#[trigger] self.mats@[i]).spec_nrows() == r
                && self.mats@[i].spec_ncols() == c
    }

    /// How many matrices are stacked.
    pub fn len(&self) -> (r: usize)
        ensures
            r == self@.len(),
    {
        self.mats.len()
    }

    /// An exact copy.
    pub fn duplicate(&self) -> (r: Ten3)
        ensures
            r@ == self@,
            self.wf() ==> r.wf(),
    {
        let n = self.mats.len();
        let mut mats: Vec<Mat> = Vec::new();
        let mut i: usize = 0;
        while i < n
            invariant
                0 <= i <= n,
                mats@.len() == i,
                forall|k: int| 0 <= k < i ==> (#[trigger] mats@[k])@ == self.mats@[k]@,
            decreases n - i,
        {
            mats.push(self.mats[i].duplicate());
            i += 1;
        }
        let out = Ten3 { mats };
        assert(out@ =~= self@);
        assert forall|k: int| 0 <= k < n && self.wf() implies (#[trigger] out.mats@[k]).wf() by {
            assert(out.mats@[k]@ == self.mats@[k]@);
            assert(self.mats@[k].wf());
        }
        out
    }
}

/// A rank-4 tensor: a stack of rank-3 tensors.
pub struct Ten4 {
    /// The stacked rank-3 tensors.
    pub items: Vec<Ten3>,
}

impl View for Ten4 {
    type V = Seq<Seq<Seq<Seq<u64>>>>;

    open spec fn view(&self) -> Seq<Seq<Seq<Seq<u64>>>> {
        Seq::new(self.items@.len(), |i: int| self.items@[i]@)
    }
}

impl Ten4 {
    /// Every stacked tensor is well formed.
    pub open spec fn wf(&self) -> bool {
        forall|i: int| 0 <= i < self.items@.len() ==> (#[trigger] self.items@[i]).wf()
    }

    /// How many rank-3 tensors are stacked.
    pub fn len(&self) -> (r: usize)
        ensures
            r == self@.len(),
    {
        self.items.len()
    }
}

/// What flows between layers: a tensor of whichever rank the stage before
/// produced.
pub enum Tensor {
    /// A batch × features matrix.
    D2(Mat),
    /// A batch of single-channel images.
    D3(Ten3),
    /// A batch of feature-map stacks.
    D4(Ten4),
}

impl Tensor {
    /// The carried tensor is well formed.
    pub open spec fn wf(&self) -> bool {
        match *self {
            Tensor::D2(ref m) => m.wf(),
            Tensor::D3(ref t) => t.wf(),
            Tensor::D4(ref t) => t.wf(),
        }
    }
}

} // verus!
