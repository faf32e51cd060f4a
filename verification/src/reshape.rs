//! The reshape layer that bridges convolutional output into dense input.
//!
//! Forward flattens a rank-4 batch `(samples, channels, height, width)`
//! into a rank-2 matrix `(samples·channels·height, width)`.  Backward is a
//! plain pass-through: the gradient is handed back unchanged, which is not
//! an inverse of the forward reshape — [`lemma_reshape_round_trip_shape`]
//! pins that down.

use vstd::prelude::*;

use crate::error::Error;
use crate::mat::{cols, is_rect, Mat};
use crate::tensor::{Ten4, Tensor};

verus! {

/// The channel count of a rank-4 view, taken from its first sample.
pub open spec fn ten4_chans(t: Seq<Seq<Seq<Seq<u64>>>>) -> nat {
    if t.len() == 0 {
        0
    } else {
        t[0].len()
    }
}

/// The height of a rank-4 view, taken from its first channel.
pub open spec fn ten4_height(t: Seq<Seq<Seq<Seq<u64>>>>) -> nat {
    if t.len() == 0 || t[0].len() == 0 {
        0
    } else {
        t[0][0].len()
    }
}

/// The width of a rank-4 view, taken from its first row.
pub open spec fn ten4_width(t: Seq<Seq<Seq<Seq<u64>>>>) -> nat {
    if t.len() == 0 || t[0].len() == 0 {
        0
    } else {
        cols(t[0][0])
    }
}

/// Whether a rank-4 view has one uniform shape throughout.
pub open spec fn ten4_uniform(t: Seq<Seq<Seq<Seq<u64>>>>) -> bool {
    &&& forall|n: int| 0 <= n < t.len() ==> (#[trigger] t[n]).len() == ten4_chans(t)
    &&& forall|n: int, c: int|
        0 <= n < t.len() && 0 <= c < ten4_chans(t) ==> (#[trigger] t[n][c]).len() == ten4_height(t)
            && cols(t[n][c]) == ten4_width(t) && is_rect(t[n][c])
}

/// The flattening: row `(n·C + c)·H + h` of the result is row `h` of
/// channel `c` of sample `n`.
pub open spec fn reshape_spec(t: Seq<Seq<Seq<Seq<u64>>>>) -> Seq<Seq<u64>> {
    Seq::new(
        t.len() * ten4_chans(t) * ten4_height(t),
        |r: int|
            t[r / (ten4_chans(t) * ten4_height(t)) as int][(r / ten4_height(t) as int) % ten4_chans(
                t,
            ) as int][r % ten4_height(t) as int],
    )
}

/// The flattening keeps every row but not the rank: the round trip of a
/// rank-4 tensor through the forward reshape and the pass-through backward
/// is the rank-2 flattening, whose row count is the sample count only in
/// the degenerate one-matrix-row-per-sample case.
pub proof fn lemma_reshape_round_trip_shape(t: Seq<Seq<Seq<Seq<u64>>>>)
    requires
        ten4_uniform(t),
    ensures
        reshape_spec(t).len() == t.len() * ten4_chans(t) * ten4_height(t),
        t.len() > 0 && ten4_chans(t) * ten4_height(t) != 1 ==> reshape_spec(t).len() != t.len(),
{
    if t.len() > 0 && ten4_chans(t) * ten4_height(t) != 1 {
        assert(t.len() * ten4_chans(t) * ten4_height(t) != t.len()) by (nonlinear_arith)
            requires
                t.len() > 0,
                ten4_chans(t) * ten4_height(t) != 1,
        ;
    }
}

/// The reshape layer.  It keeps no cache: its backward pass needs nothing
/// from its forward pass.
pub struct ReshapeLayer;

impl ReshapeLayer {
    /// Flattens a uniform rank-4 batch into a matrix, exactly as
    /// [`reshape_spec`] states; fails with `ShapeMismatch` on a ragged
    /// batch.
    pub fn forward(&self, x: &Ten4) -> (r: Result<Mat, Error>)
        requires
            x.wf(),
        ensures
            r is Ok <==> ten4_uniform(x@),
            r is Err ==> r->Err_0 == Error::ShapeMismatch,
            r is Ok ==> r->Ok_0@ == reshape_spec(x@),
            r is Ok ==> r->Ok_0.wf(),
    {
        let nimg = x.items.len();
        let (nc, nh, nw) = if nimg == 0 {
            (0usize, 0usize, 0usize)
        } else if x.items[0].mats.len() == 0 {
            (0usize, 0usize, 0usize)
        } else {
            (
                x.items[0].mats.len(),
                x.items[0].mats[0].nrows(),
                x.items[0].mats[0].ncols(),
            )
        };
        assert(nc == ten4_chans(x@) && nh == ten4_height(x@) && nw == ten4_width(x@));
        // Check uniformity.
        let mut n: usize = 0;
        while n < nimg
            invariant
                0 <= n <= nimg,
                forall|k: int| 0 <= k < n ==> (#[trigger] x@[k]).len() == nc,
                forall|k: int, c: int|
                    0 <= k < n && 0 <= c < nc ==> (#[trigger] x@[k][c]).len() == nh && cols(
                        x@[k][c],
                    ) == nw,
            decreases nimg - n,
        {
            if x.items[n].mats.len() != nc {
                assert(x@[n as int].len() != ten4_chans(x@));
                assert(!ten4_uniform(x@));
                return Err(Error::ShapeMismatch);
            }
            let mut c: usize = 0;
            while c < nc
                invariant
                    0 <= c <= nc,
                    n < nimg,
                    x@[n as int].len() == nc,
                    forall|k: int|
                        0 <= k < c ==> (#[trigger] x@[n as int][k]).len() == nh && cols(
                            x@[n as int][k],
                        ) == nw,
                decreases nc - c,
            {
                if x.items[n].mats[c].nrows() != nh || x.items[n].mats[c].ncols() != nw {
                    assert(x@[n as int][c as int].len() != nh || cols(x@[n as int][c as int])
                        != nw);
                    assert(!ten4_uniform(x@));
                    return Err(Error::ShapeMismatch);
                }
                c += 1;
            }
            n += 1;
        }
        assert(ten4_uniform(x@)) by {
            assert(forall|k: int, c: int|
                0 <= k < x@.len() && 0 <= c < nc ==> is_rect(#[trigger] x@[k][c]));
        }
        let ghost target = reshape_spec(x@);
        let mut rows: Vec<Vec<u64>> = Vec::new();
        let mut n: usize = 0;
        while n < nimg
            invariant
                0 <= n <= nimg,
                rows@.len() == n * nc * nh,
                forall|k: int| 0 <= k < rows@.len() ==> (#[trigger] rows@[k])@ == target[k],
                forall|k: int| 0 <= k < rows@.len() ==> (#[trigger] rows@[k])@.len() == nw,
            decreases nimg - n,
        {
            let mut c: usize = 0;
            while c < nc
                invariant
                    0 <= c <= nc,
                    n < nimg,
                    rows@.len() == (n * nc + c) * nh,
                    forall|k: int| 0 <= k < rows@.len() ==> (#[trigger] rows@[k])@ == target[k],
                    forall|k: int| 0 <= k < rows@.len() ==> (#[trigger] rows@[k])@.len() == nw,
                decreases nc - c,
            {
                let mut h: usize = 0;
                while h < nh
                    invariant
                        0 <= h <= nh,
                        n < nimg,
                        c < nc,
                        rows@.len() == (n * nc + c) * nh + h,
                        forall|k: int| 0 <= k < rows@.len() ==> (#[trigger] rows@[k])@ == target[k],
                        forall|k: int| 0 <= k < rows@.len() ==> (#[trigger] rows@[k])@.len() == nw,
                    decreases nh - h,
                {
                    let ghost idx = ((n * nc + c) * nh + h) as int;
                    proof {
                        assert(0 <= idx < x@.len() * ten4_chans(x@) * ten4_height(x@)) by (nonlinear_arith)
                            requires
                                idx == ((n * nc + c) * nh + h) as int,
                                0 <= n < nimg,
                                0 <= c < nc,
                                0 <= h < nh,
                                nimg == x@.len(),
                                nc == ten4_chans(x@),
                                nh == ten4_height(x@),
                        ;
                        assert(idx / (nc * nh) as int == n && (idx / nh as int) % nc as int == c
                            && idx % nh as int == h) by (nonlinear_arith)
                            requires
                                idx == ((n * nc + c) * nh + h) as int,
                                0 <= c < nc,
                                0 <= h < nh,
                                0 <= n,
                        ;
                        assert(target[idx] == x@[n as int][c as int][h as int]);
                    }
                    let mut row: Vec<u64> = Vec::new();
                    let mut w: usize = 0;
                    while w < nw
                        invariant
                            0 <= w <= nw,
                            n < nimg,
                            c < nc,
                            h < nh,
                            row@.len() == w,
                            forall|q: int|
                                0 <= q < w ==> row@[q] == x@[n as int][c as int][h as int][q],
                        decreases nw - w,
                    {
                        assert(x@[n as int][c as int][h as int].len() == nw);
                        row.push(x.items[n].mats[c].rows[h][w]);
                        w += 1;
                    }
                    assert(row@ =~= x@[n as int][c as int][h as int]);
                    rows.push(row);
                    h += 1;
                }
                proof {
                    assert((n * nc + c) * nh + nh == (n * nc + (c + 1)) * nh) by (nonlinear_arith);
                }
                c += 1;
            }
            proof {
                assert((n * nc + nc) * nh == (n + 1) * nc * nh) by (nonlinear_arith);
                assert(((n + 1) * nc) * nh == (n + 1) * nc * nh) by (nonlinear_arith);
            }
            n += 1;
        }
        proof {
            assert(nimg * nc * nh == x@.len() * ten4_chans(x@) * ten4_height(x@));
            assert((nimg * nc) * nh == nimg * nc * nh) by (nonlinear_arith);
        }
        let out = Mat { rows };
        assert(out@ =~= target);
        assert(is_rect(out@)) by {
            assert(forall|k: int| 0 <= k < out@.len() ==> (#[trigger] out@[k]).len() == nw);
        }
        Ok(out)
    }

    /// The backward pass hands the gradient back unchanged: a documented
    /// pass-through, not an inverse reshape.
    pub fn backward(&self, x: Tensor) -> (r: Tensor)
        ensures
            r == x,
    {
        x
    }
}

} // verus!
