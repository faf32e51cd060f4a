//! The convolution layer.
//!
//! Forward: each single-channel image of the batch is zero-padded according
//! to the padding mode, cached, and cross-correlated with every filter at
//! the given stride, producing one feature map per filter, indexed
//! `(sample, filter, row, column)`.  Backward: each filter's weight
//! gradient accumulates, per cell, the stride-sampled correlation of the
//! cached padded images with the upstream maps; the input gradient is
//! propagated with the filters as they stood on entry; the filters are then
//! decremented by the learning rate times the weight gradient.  Every sum
//! folds left to right from +0.0, rows outer, columns inner, samples and
//! filters outermost.  No contract here needs a caller-supplied closure:
//! the whole layer is exact IEEE-754 arithmetic.

use vstd::prelude::*;

use vstd::arithmetic::div_mod::lemma_fundamental_div_mod;
use vstd::arithmetic::mul::lemma_mul_inequality;

use crate::dense::WeightInit;
use crate::error::Error;
use crate::fp::{add_of, mul_of, sub_of, fp_add, fp_mul, fp_sub, ZERO_BITS, ONE_TENTH_BITS};
use crate::mat::{cols, is_rect, minus_spec, scale_spec, sum_seq, Mat};
use crate::tensor::{Ten3, Ten4};

verus! {

broadcast use vstd::string::to_string_from_display_ensures_for_str;

/// How the input is zero-padded before the correlation.
#[derive(Clone, Copy, PartialEq, Eq, Structural, Debug)]
pub enum PadMode {
    /// No padding.
    Valid,
    /// The filter size added on each side.
    Full,
    /// One less than the filter size in all, split so the padding is
    /// centered, the odd row or column going to the far side.
    Same,
}

/// The per-call cache of the convolution layer: the padded inputs of the
/// most recent forward call.
pub enum Cache3 {
    /// No forward call has been made since the last backward call.
    AwaitingInput,
    /// The padded inputs of the most recent forward call.
    HasInput(Ten3),
}

/// The padding mode a configuration name selects: `"valid"` and `"full"`
/// by name, anything else the centered default.
pub open spec fn pad_mode_of_name(s: Seq<char>) -> PadMode {
    if s == "valid"@ {
        PadMode::Valid
    } else if s == "full"@ {
        PadMode::Full
    } else {
        PadMode::Same
    }
}

/// The row count of a uniform stack of matrices, taken from its first.
pub open spec fn ten3_rows(t: Seq<Seq<Seq<u64>>>) -> nat {
    if t.len() == 0 {
        0
    } else {
        t[0].len()
    }
}

/// The column count of a uniform stack of matrices, taken from its first.
pub open spec fn ten3_cols(t: Seq<Seq<Seq<u64>>>) -> nat {
    if t.len() == 0 {
        0
    } else {
        cols(t[0])
    }
}

/// Whether every matrix of the stack is rectangular with the common shape.
pub open spec fn ten3_uniform(t: Seq<Seq<Seq<u64>>>) -> bool {
    forall|n: int|
        0 <= n < t.len() ==> (#[trigger] t[n]).len() == ten3_rows(t) && cols(t[n]) == ten3_cols(t)
            && is_rect(t[n])
}

/// A padded length: unchanged for `Valid`, grown by the filter size on each
/// side for `Full`, and by one less than the filter size in all for `Same`.
pub open spec fn padded_len(mode: PadMode, len: int, fs: int) -> int {
    match mode {
        PadMode::Valid => len,
        PadMode::Full => len + 2 * fs,
        PadMode::Same => len + fs - 1,
    }
}

/// One image zero-padded: the original sits at the centered offset, all
/// other cells are +0.0.
pub open spec fn pad_spec(m: Seq<Seq<u64>>, mode: PadMode, fs: int) -> Seq<Seq<u64>> {
    let nh = padded_len(mode, m.len() as int, fs);
    let nw = padded_len(mode, cols(m) as int, fs);
    let ph = (nh - m.len()) / 2;
    let pw = (nw - cols(m)) / 2;
    Seq::new(
        nh as nat,
        |i: int|
            Seq::new(
                nw as nat,
                |j: int|
                    if ph <= i < ph + m.len() && pw <= j < pw + cols(m) {
                        m[i - ph][j - pw]
                    } else {
                        ZERO_BITS
                    },
            ),
    )
}

/// Every image of a batch zero-padded.
pub open spec fn pad_batch(x: Seq<Seq<Seq<u64>>>, mode: PadMode, fs: int) -> Seq<Seq<Seq<u64>>> {
    Seq::new(x.len(), |n: int| pad_spec(x[n], mode, fs))
}

/// The first `q` products of filter row `p` against the image patch at
/// offset `(r0, c0)`, folded left to right onto `acc`.
pub open spec fn corr_row(
    acc: u64,
    img: Seq<Seq<u64>>,
    flt: Seq<Seq<u64>>,
    r0: int,
    c0: int,
    p: int,
    q: nat,
) -> u64
    decreases q,
{
    if q == 0 {
        acc
    } else {
        add_of(
            corr_row(acc, img, flt, r0, c0, p, (q - 1) as nat),
            mul_of(img[r0 + p][c0 + q - 1], flt[p][q - 1]),
        )
    }
}

/// The first `p` filter rows correlated against the image patch at offset
/// `(r0, c0)`, folded row-major onto `acc`.
pub open spec fn corr_rows(
    acc: u64,
    img: Seq<Seq<u64>>,
    flt: Seq<Seq<u64>>,
    r0: int,
    c0: int,
    p: nat,
) -> u64
    decreases p,
{
    if p == 0 {
        acc
    } else {
        corr_row(
            corr_rows(acc, img, flt, r0, c0, (p - 1) as nat),
            img,
            flt,
            r0,
            c0,
            p - 1,
            cols(flt),
        )
    }
}

/// The cross-correlation of the whole filter with the image patch at offset
/// `(r0, c0)`: the row-major product-sum, from +0.0.
pub open spec fn corr_at(img: Seq<Seq<u64>>, flt: Seq<Seq<u64>>, r0: int, c0: int) -> u64 {
    corr_rows(ZERO_BITS, img, flt, r0, c0, flt.len())
}

/// The forward feature maps: cell `(n, f, i, j)` is the whole filter `f`
/// correlated with image `n` at offset `(i·stride, j·stride)`.
pub open spec fn conv_out_spec(
    pt: Seq<Seq<Seq<u64>>>,
    filters: Seq<Seq<Seq<u64>>>,
    stride: int,
    hh: nat,
    ww: nat,
) -> Seq<Seq<Seq<Seq<u64>>>> {
    Seq::new(
        pt.len(),
        |n: int|
            Seq::new(
                filters.len(),
                |f: int|
                    Seq::new(
                        hh,
                        |i: int| Seq::new(ww, |j: int| corr_at(pt[n], filters[f], i * stride, j * stride)),
                    ),
            ),
    )
}

/// The first `j` products of upstream-map row `i` against the padded image
/// sampled at stride `s` from offset `(p0, q0)`, folded onto `acc`.
pub open spec fn dw_row(
    acc: u64,
    img: Seq<Seq<u64>>,
    ker: Seq<Seq<u64>>,
    p0: int,
    q0: int,
    s: int,
    i: int,
    j: nat,
) -> u64
    decreases j,
{
    if j == 0 {
        acc
    } else {
        add_of(
            dw_row(acc, img, ker, p0, q0, s, i, (j - 1) as nat),
            mul_of(ker[i][j - 1], img[p0 + i * s][q0 + (j - 1) * s]),
        )
    }
}

/// The first `i` upstream-map rows so folded.
pub open spec fn dw_rows(
    acc: u64,
    img: Seq<Seq<u64>>,
    ker: Seq<Seq<u64>>,
    p0: int,
    q0: int,
    s: int,
    i: nat,
) -> u64
    decreases i,
{
    if i == 0 {
        acc
    } else {
        dw_row(
            dw_rows(acc, img, ker, p0, q0, s, (i - 1) as nat),
            img,
            ker,
            p0,
            q0,
            s,
            i - 1,
            cols(ker),
        )
    }
}

/// One weight-gradient contribution: the whole upstream map of one sample
/// correlated with its padded image, sampled at the stride from offset
/// `(p0, q0)`.
pub open spec fn dw_one(
    img: Seq<Seq<u64>>,
    ker: Seq<Seq<u64>>,
    p0: int,
    q0: int,
    s: int,
) -> u64 {
    dw_rows(ZERO_BITS, img, ker, p0, q0, s, ker.len())
}

/// The weight gradient of filter `f`: cell `(p, q)` sums, sample by sample,
/// the stride-sampled correlations at offset `(p, q)`.
pub open spec fn dw_spec(
    pt: Seq<Seq<Seq<u64>>>,
    up: Seq<Seq<Seq<Seq<u64>>>>,
    f: int,
    s: int,
    fs: nat,
) -> Seq<Seq<u64>> {
    Seq::new(
        fs,
        |p: int|
            Seq::new(
                fs,
                |q: int| sum_seq(Seq::new(pt.len(), |n: int| dw_one(pt[n], up[n][f], p, q, s))),
            ),
    )
}

/// Whether feature-map cell `(i, j)` touches padded-input cell `(y, x)`.
pub open spec fn dx_hits(fs: int, s: int, y: int, x: int, i: int, j: int) -> bool {
    i * s <= y < i * s + fs && j * s <= x < j * s + fs
}

/// The first `j` cells of upstream-map row `i` whose patches cover padded
/// cell `(y, x)`, each contributing its product with the matching filter
/// weight, folded onto `acc`; the others are skipped.
pub open spec fn dx_row(
    acc: u64,
    upmap: Seq<Seq<u64>>,
    flt: Seq<Seq<u64>>,
    fs: int,
    s: int,
    y: int,
    x: int,
    i: int,
    j: nat,
) -> u64
    decreases j,
{
    if j == 0 {
        acc
    } else {
        let prev = dx_row(acc, upmap, flt, fs, s, y, x, i, (j - 1) as nat);
        if dx_hits(fs, s, y, x, i, j - 1) {
            add_of(prev, mul_of(upmap[i][j - 1], flt[y - i * s][x - (j - 1) * s]))
        } else {
            prev
        }
    }
}

/// The first `i` upstream-map rows so folded.
pub open spec fn dx_rows(
    acc: u64,
    upmap: Seq<Seq<u64>>,
    flt: Seq<Seq<u64>>,
    fs: int,
    s: int,
    y: int,
    x: int,
    i: nat,
) -> u64
    decreases i,
{
    if i == 0 {
        acc
    } else {
        dx_row(
            dx_rows(acc, upmap, flt, fs, s, y, x, (i - 1) as nat),
            upmap,
            flt,
            fs,
            s,
            y,
            x,
            i - 1,
            cols(upmap),
        )
    }
}

/// One filter's contribution to the input gradient at padded cell `(y, x)`.
pub open spec fn dx_one(
    upmap: Seq<Seq<u64>>,
    flt: Seq<Seq<u64>>,
    fs: int,
    s: int,
    y: int,
    x: int,
) -> u64 {
    dx_rows(ZERO_BITS, upmap, flt, fs, s, y, x, upmap.len())
}

/// The input gradient of one sample: cell `(y, x)` sums, filter by filter,
/// each filter's contribution at that cell.
pub open spec fn dx_spec(
    upn: Seq<Seq<Seq<u64>>>,
    filters: Seq<Seq<Seq<u64>>>,
    fs: int,
    s: int,
    nh: nat,
    nw: nat,
) -> Seq<Seq<u64>> {
    Seq::new(
        nh,
        |y: int|
            Seq::new(
                nw,
                |x: int|
                    sum_seq(
                        Seq::new(filters.len(), |f: int| dx_one(upn[f], filters[f], fs, s, y, x)),
                    ),
            ),
    )
}

/// The filters after the update step: each decremented by the learning rate
/// times its weight gradient.
pub open spec fn new_filters_spec(
    filters: Seq<Seq<Seq<u64>>>,
    pt: Seq<Seq<Seq<u64>>>,
    up: Seq<Seq<Seq<Seq<u64>>>>,
    s: int,
    fs: nat,
    lr: u64,
) -> Seq<Seq<Seq<u64>>> {
    Seq::new(
        filters.len(),
        |f: int| minus_spec(filters[f], scale_spec(lr, dw_spec(pt, up, f, s, fs))),
    )
}

/// For a non-negative `i` at most `lim / s`, the product `i·s` stays at
/// most `lim`.
proof fn lemma_stride_bound(i: int, s: int, lim: int)
    requires
        s >= 1,
        lim >= 0,
        0 <= i <= lim / s,
    ensures
        i * s <= lim,
{
    lemma_mul_inequality(i, lim / s, s);
    lemma_fundamental_div_mod(lim, s);
}

/// The convolution layer.
pub struct Conv {
    /// One square filter per feature map.
    pub filters: Ten3,
    /// The filters' side length.
    pub filter_size: usize,
    /// How many filters there are.
    pub num_filters: usize,
    /// How far the filter moves between output cells.
    pub stride: usize,
    /// How the input is padded.
    pub mode: PadMode,
    /// The step size of this layer's updates.
    pub learning_rate: u64,
    /// The padded inputs cached by the most recent forward call.
    pub state: Cache3,
}

impl Conv {
    /// The cached padded inputs' view, if a forward call has stored one.
    pub open spec fn cached(&self) -> Option<Seq<Seq<Seq<u64>>>> {
        match self.state {
            Cache3::AwaitingInput => None,
            Cache3::HasInput(ref t) => Some(t@),
        }
    }

    /// The filters are a uniform stack of `num_filters` square matrices of
    /// side `filter_size`, and whatever is cached is well formed.
    pub open spec fn wf(&self) -> bool {
        &&& self.filters.wf()
        &&& self.filters@.len() == self.num_filters
        &&& forall|k: int|
            0 <= k < self.filters@.len() ==> (#[trigger] self.filters@[k]).len()
                == self.filter_size && cols(self.filters@[k]) == self.filter_size
        &&& match self.state {
            Cache3::AwaitingInput => true,
            Cache3::HasInput(ref t) => t.wf() && ten3_uniform(t@),
        }
    }

    /// A layer with the given geometry, its filters drawn one entry at a
    /// time by the caller-supplied sampler, uniformly between 0 and 0.1.
    pub fn init<G: Fn(WeightInit) -> u64>(
        num_filters: usize,
        filter_size: usize,
        stride: usize,
        mode: String,
        learning_rate: u64,
        g: &G,
    ) -> (r: Conv)
        requires
            forall|a: (WeightInit,)| #[trigger] call_requires(*g, a),
        ensures
            r.num_filters == num_filters,
            r.filter_size == filter_size,
            r.stride == stride,
            r.mode == pad_mode_of_name(mode@),
            r.learning_rate == learning_rate,
            r.cached() is None,
            r.wf(),
    {
        let mode = if mode == "valid".to_string() {
            PadMode::Valid
        } else if mode == "full".to_string() {
            PadMode::Full
        } else {
            PadMode::Same
        };
        let mut mats: Vec<Mat> = Vec::new();
        let mut f: usize = 0;
        while f < num_filters
            invariant
                0 <= f <= num_filters,
                mats@.len() == f,
                forall|k: int|
                    0 <= k < f ==> (#[trigger] mats@[k]).wf() && mats@[k].spec_nrows()
                        == filter_size && mats@[k].spec_ncols() == filter_size,
            decreases num_filters - f,
        {
            let mut rows: Vec<Vec<u64>> = Vec::new();
            let mut p: usize = 0;
            while p < filter_size
                invariant
                    0 <= p <= filter_size,
                    rows@.len() == p,
                    forall|k: int| 0 <= k < p ==> (#[trigger] rows@[k])@.len() == filter_size,
                decreases filter_size - p,
            {
                let mut row: Vec<u64> = Vec::new();
                let mut q: usize = 0;
                while q < filter_size
                    invariant
                        0 <= q <= filter_size,
                        row@.len() == q,
                    decreases filter_size - q,
                {
                    row.push(g(WeightInit::Uniform(ZERO_BITS, ONE_TENTH_BITS)));
                    q += 1;
                }
                rows.push(row);
                p += 1;
            }
            let m = Mat { rows };
            assert(is_rect(m@));
            mats.push(m);
            f += 1;
        }
        let filters = Ten3 { mats };
        Conv {
            filters,
            filter_size,
            num_filters,
            stride,
            mode,
            learning_rate,
            state: Cache3::AwaitingInput,
        }
    }

    /// One image zero-padded according to the mode, exactly.
    pub fn zero_padding(&self, image: &Mat) -> (r: Mat)
        requires
            image.wf(),
            image.spec_nrows() + 2 * self.filter_size <= usize::MAX,
            image.spec_ncols() + 2 * self.filter_size <= usize::MAX,
            self.filter_size >= 1,
        ensures
            r@ == pad_spec(image@, self.mode, self.filter_size as int),
            r.wf(),
    {
        let h = image.nrows();
        let w = image.ncols();
        let fs = self.filter_size;
        let (nh, nw) = match self.mode {
            PadMode::Valid => (h, w),
            PadMode::Full => (h + 2 * fs, w + 2 * fs),
            PadMode::Same => (h + fs - 1, w + fs - 1),
        };
        let ph = (nh - h) / 2;
        let pw = (nw - w) / 2;
        let ghost target = pad_spec(image@, self.mode, self.filter_size as int);
        assert(target.len() == nh);
        let mut rows: Vec<Vec<u64>> = Vec::new();
        let mut i: usize = 0;
        while i < nh
            invariant
                0 <= i <= nh,
                rows@.len() == i,
                forall|k: int| 0 <= k < i ==> (#[trigger] rows@[k])@ == target[k],
            decreases nh - i,
        {
            let mut row: Vec<u64> = Vec::new();
            let mut j: usize = 0;
            while j < nw
                invariant
                    0 <= j <= nw,
                    i < nh,
                    row@.len() == j,
                    forall|q: int| 0 <= q < j ==> row@[q] == target[i as int][q],
                decreases nw - j,
            {
                let v = if ph <= i && i < ph + h && pw <= j && j < pw + w {
                    assert(image@[i - ph].len() == w);
                    image.rows[i - ph][j - pw]
                } else {
                    ZERO_BITS
                };
                row.push(v);
                j += 1;
            }
            assert(row@ =~= target[i as int]);
            rows.push(row);
            i += 1;
        }
        let out = Mat { rows };
        assert(out@ =~= target);
        assert(is_rect(out@));
        out
    }

    /// Whether a forward pass on this batch can run: a positive filter side
    /// and stride, images all of one rectangular shape, and, if there are
    /// any, a padded shape the filter fits into.
    pub open spec fn forward_ok(&self, x: Seq<Seq<Seq<u64>>>) -> bool {
        &&& self.filter_size >= 1
        &&& self.stride >= 1
        &&& ten3_uniform(x)
        &&& x.len() > 0 ==> {
            &&& padded_len(self.mode, ten3_rows(x) as int, self.filter_size as int)
                >= self.filter_size
            &&& padded_len(self.mode, ten3_cols(x) as int, self.filter_size as int)
                >= self.filter_size
        }
    }

    /// The output height for a padded height, at this stride.
    pub open spec fn out_len(&self, padded: int) -> int {
        (padded - self.filter_size) / (self.stride as int) + 1
    }

    /// The feature maps' height for this batch: zero for an empty batch.
    pub open spec fn forward_out_h(&self, x: Seq<Seq<Seq<u64>>>) -> nat {
        if x.len() == 0 {
            0
        } else {
            self.out_len(padded_len(self.mode, ten3_rows(x) as int, self.filter_size as int)) as nat
        }
    }

    /// The feature maps' width for this batch: zero for an empty batch.
    pub open spec fn forward_out_w(&self, x: Seq<Seq<Seq<u64>>>) -> nat {
        if x.len() == 0 {
            0
        } else {
            self.out_len(padded_len(self.mode, ten3_cols(x) as int, self.filter_size as int)) as nat
        }
    }

    /// Pads and caches the batch and returns its feature maps, one per
    /// sample and filter, exactly as [`conv_out_spec`] states.
    ///
    /// Fails with `ShapeMismatch`, changing nothing, unless
    /// [`Self::forward_ok`] holds.
    pub fn forward(&mut self, x: &Ten3) -> (r: Result<Ten4, Error>)
        requires
            old(self).wf(),
            x.wf(),
            ten3_rows(x@) <= 0x10_0000,
            ten3_cols(x@) <= 0x10_0000,
            old(self).filter_size <= 0x10_0000,
        ensures
            final(self).wf(),
            final(self).filters == old(self).filters,
            final(self).filter_size == old(self).filter_size,
            final(self).num_filters == old(self).num_filters,
            final(self).stride == old(self).stride,
            final(self).mode == old(self).mode,
            final(self).learning_rate == old(self).learning_rate,
            r is Ok <==> old(self).forward_ok(x@),
            r is Err ==> r->Err_0 == Error::ShapeMismatch && final(self).cached() == old(
                self,
            ).cached(),
            r is Ok ==> final(self).cached() == Some(
                pad_batch(x@, old(self).mode, old(self).filter_size as int),
            ),
            r is Ok ==> r->Ok_0@ == conv_out_spec(
                pad_batch(x@, old(self).mode, old(self).filter_size as int),
                old(self).filters@,
                old(self).stride as int,
                old(self).forward_out_h(x@),
                old(self).forward_out_w(x@),
            ),
            r is Ok ==> r->Ok_0.wf(),
    {
        let fs = self.filter_size;
        let stride = self.stride;
        if fs < 1 || stride < 1 {
            return Err(Error::ShapeMismatch);
        }
        let nimg = x.mats.len();
        // Check that the images share one rectangular shape.
        let (h, w) = if nimg == 0 {
            (0usize, 0usize)
        } else {
            (x.mats[0].nrows(), x.mats[0].ncols())
        };
        let mut n: usize = 0;
        while n < nimg
            invariant
                0 <= n <= nimg,
                nimg == x@.len(),
                nimg > 0 ==> h == ten3_rows(x@) && w == ten3_cols(x@),
                forall|k: int|
                    0 <= k < n ==> (#[trigger] x@[k]).len() == h && cols(x@[k]) == w,
            decreases nimg - n,
        {
            if x.mats[n].nrows() != h || x.mats[n].ncols() != w {
                assert(x@[n as int].len() != ten3_rows(x@) || cols(x@[n as int]) != ten3_cols(x@));
                assert(!ten3_uniform(x@));
                return Err(Error::ShapeMismatch);
            }
            n += 1;
        }
        assert(ten3_uniform(x@)) by {
            assert(forall|k: int|
                0 <= k < x@.len() ==> is_rect(#[trigger] x@[k])) by {
                assert(forall|k: int|
                    0 <= k < x.mats@.len() ==> (#[trigger] x.mats@[k]).wf());
            }
        }
        if nimg > 0 {
            let (nh0, nw0) = match self.mode {
                PadMode::Valid => (h, w),
                PadMode::Full => (h + 2 * fs, w + 2 * fs),
                PadMode::Same => (h + fs - 1, w + fs - 1),
            };
            if nh0 < fs || nw0 < fs {
                return Err(Error::ShapeMismatch);
            }
        }
        assert(self.forward_ok(x@));
        let ghost ptv = pad_batch(x@, self.mode, fs as int);
        // Pad every image.
        let mut pmats: Vec<Mat> = Vec::new();
        let mut n: usize = 0;
        while n < nimg
            invariant
                0 <= n <= nimg,
                nimg == x@.len(),
                pmats@.len() == n,
                forall|k: int| 0 <= k < n ==> (#[trigger] pmats@[k])@ == ptv[k],
                forall|k: int| 0 <= k < n ==> (#[trigger] pmats@[k]).wf(),
            decreases nimg - n,
        {
            assert(x@[n as int].len() == h && cols(x@[n as int]) == w);
            let pm = self.zero_padding(&x.mats[n]);
            pmats.push(pm);
            n += 1;
        }
        let pt = Ten3 { mats: pmats };
        assert(pt@ =~= ptv);
        let (nh, nw) = if nimg == 0 {
            (0usize, 0usize)
        } else {
            match self.mode {
                PadMode::Valid => (h, w),
                PadMode::Full => (h + 2 * fs, w + 2 * fs),
                PadMode::Same => (h + fs - 1, w + fs - 1),
            }
        };
        let hh = if nimg == 0 {
            0
        } else {
            (nh - fs) / stride + 1
        };
        let ww = if nimg == 0 {
            0
        } else {
            (nw - fs) / stride + 1
        };
        let nf = self.num_filters;
        let ghost target = conv_out_spec(ptv, self.filters@, stride as int, hh as nat, ww as nat);
        proof {
            assert forall|k: int|
                0 <= k < nimg implies (#[trigger] ptv[k]).len() == nh && cols(ptv[k]) == nw
                && is_rect(ptv[k]) by {
                assert(x@[k].len() == h && cols(x@[k]) == w);
                assert(ptv[k] == pad_spec(x@[k], self.mode, fs as int));
                assert(ptv[k].len() == nh);
                assert(forall|i2: int| 0 <= i2 < nh ==> (#[trigger] ptv[k][i2]).len() == nw);
            }
        }
        let mut items: Vec<Ten3> = Vec::new();
        let mut n: usize = 0;
        while n < nimg
            invariant
                0 <= n <= nimg,
                nimg == x@.len(),
                pt@ == ptv,
                ptv.len() == nimg,
                pt.wf(),
                forall|k: int|
                    0 <= k < nimg ==> (#[trigger] ptv[k]).len() == nh && cols(ptv[k]) == nw
                        && is_rect(ptv[k]),
                items@.len() == n,
                forall|k: int| 0 <= k < n ==> (#[trigger] items@[k])@ == target[k],
                forall|k: int| 0 <= k < n ==> (#[trigger] items@[k]).wf(),
            decreases nimg - n,
        {
            let mut fmaps: Vec<Mat> = Vec::new();
            let mut f: usize = 0;
            while f < nf
                invariant
                    0 <= f <= nf,
                    n < nimg,
                    fmaps@.len() == f,
                    forall|k: int| 0 <= k < f ==> (#[trigger] fmaps@[k])@ == target[n as int][k],
                    forall|k: int| 0 <= k < f ==> (#[trigger] fmaps@[k]).wf(),
                decreases nf - f,
            {
                assert(self.filters@[f as int].len() == fs && cols(self.filters@[f as int]) == fs
                    && is_rect(self.filters@[f as int]));
                let mut rows: Vec<Vec<u64>> = Vec::new();
                let mut i: usize = 0;
                while i < hh
                    invariant
                        0 <= i <= hh,
                        n < nimg,
                        f < nf,
                        rows@.len() == i,
                        forall|k: int|
                            0 <= k < i ==> (#[trigger] rows@[k])@ == target[n as int][f as int][k],
                    decreases hh - i,
                {
                    proof {
                        lemma_stride_bound(i as int, stride as int, (nh - fs) as int);
                    }
                    let r0 = i * stride;
                    let mut row: Vec<u64> = Vec::new();
                    let mut j: usize = 0;
                    while j < ww
                        invariant
                            0 <= j <= ww,
                            n < nimg,
                            f < nf,
                            i < hh,
                            r0 == i * (stride as int),
                            r0 <= nh - fs,
                            row@.len() == j,
                            forall|q: int|
                                0 <= q < j ==> row@[q] == target[n as int][f as int][i as int][q],
                        decreases ww - j,
                    {
                        proof {
                            lemma_stride_bound(j as int, stride as int, (nw - fs) as int);
                        }
                        let c0 = j * stride;
                        let ghost img = ptv[n as int];
                        let ghost flt = self.filters@[f as int];
                        let mut acc: u64 = ZERO_BITS;
                        let mut p: usize = 0;
                        while p < fs
                            invariant
                                0 <= p <= fs,
                                n < nimg,
                                f < nf,
                                r0 + fs <= nh,
                                c0 + fs <= nw,
                                img == ptv[n as int],
                                flt == self.filters@[f as int],
                                acc == corr_rows(ZERO_BITS, img, flt, r0 as int, c0 as int, p as nat),
                            decreases fs - p,
                        {
                            let mut q: usize = 0;
                            let ghost entry = acc;
                            while q < fs
                                invariant
                                    0 <= q <= fs,
                                    p < fs,
                                    n < nimg,
                                    f < nf,
                                    r0 + fs <= nh,
                                    c0 + fs <= nw,
                                    img == ptv[n as int],
                                    flt == self.filters@[f as int],
                                    acc == corr_row(entry, img, flt, r0 as int, c0 as int, p as int, q as nat),
                                    entry == corr_rows(ZERO_BITS, img, flt, r0 as int, c0 as int, p as nat),
                                decreases fs - q,
                            {
                                assert(img[r0 + p].len() == nw);
                                assert(flt[p as int].len() == fs);
                                let v = fp_mul(
                                    pt.mats[n].rows[r0 + p][c0 + q],
                                    self.filters.mats[f].rows[p][q],
                                );
                                acc = fp_add(acc, v);
                                q += 1;
                            }
                            p += 1;
                        }
                        assert(acc == corr_at(img, flt, r0 as int, c0 as int));
                        row.push(acc);
                        j += 1;
                    }
                    assert(row@ =~= target[n as int][f as int][i as int]);
                    rows.push(row);
                    i += 1;
                }
                let fm = Mat { rows };
                assert(fm@ =~= target[n as int][f as int]);
                assert(is_rect(fm@));
                fmaps.push(fm);
                f += 1;
            }
            let t3 = Ten3 { mats: fmaps };
            assert(t3@ =~= target[n as int]);
            assert(t3.wf());
            items.push(t3);
            n += 1;
        }
        let out = Ten4 { items };
        assert(out@ =~= target);
        assert(out.wf());
        assert(ten3_uniform(pt@));
        self.state = Cache3::HasInput(pt);
        Ok(out)
    }

    /// Whether a backward pass with these upstream maps can run: padded
    /// inputs are cached, the filter fits them, and the maps have the
    /// matching count and shape.
    pub open spec fn backward_ok(&self, up: Seq<Seq<Seq<Seq<u64>>>>) -> bool {
        &&& self.cached() is Some
        &&& self.filter_size >= 1
        &&& self.stride >= 1
        &&& self.cached()->0.len() == up.len()
        &&& ten3_rows(self.cached()->0) >= self.filter_size
        &&& ten3_cols(self.cached()->0) >= self.filter_size
        &&& forall|n: int|
            0 <= n < up.len() ==> (#[trigger] up[n]).len() == self.num_filters
        &&& forall|n: int, f: int|
            0 <= n < up.len() && 0 <= f < self.num_filters ==> (#[trigger] up[n][f]).len()
                == self.out_len(ten3_rows(self.cached()->0) as int) && cols(up[n][f])
                == self.out_len(ten3_cols(self.cached()->0) as int) && is_rect(up[n][f])
    }

    /// Accumulates each filter's weight gradient from the cached padded
    /// inputs and the upstream maps, updates the filters by the learning
    /// rate, clears the cache, and returns the input gradient, propagated
    /// with the filters as they stood on entry.
    ///
    /// Fails with `NoCachedInput` before a forward call, and with
    /// `ShapeMismatch` unless [`Self::backward_ok`] holds; on failure
    /// nothing is changed.
    pub fn backward(&mut self, up: &Ten4) -> (r: Result<Ten3, Error>)
        requires
            old(self).wf(),
            up.wf(),
            old(self).filter_size <= 0x10_0000,
            old(self).cached() matches Some(pt) ==> ten3_rows(pt) <= 0x40_0000 && ten3_cols(pt)
                <= 0x40_0000,
        ensures
            final(self).wf(),
            final(self).filter_size == old(self).filter_size,
            final(self).num_filters == old(self).num_filters,
            final(self).stride == old(self).stride,
            final(self).mode == old(self).mode,
            final(self).learning_rate == old(self).learning_rate,
            r is Ok <==> old(self).backward_ok(up@),
            old(self).cached() is None ==> r is Err && r->Err_0 == Error::NoCachedInput,
            (old(self).cached() is Some && !old(self).backward_ok(up@)) ==> r is Err
                && r->Err_0 == Error::ShapeMismatch,
            r is Err ==> final(self).filters == old(self).filters && final(self).cached() == old(
                self,
            ).cached(),
            r is Ok ==> final(self).cached() is None,
            r is Ok ==> final(self).filters@ == new_filters_spec(
                old(self).filters@,
                old(self).cached()->0,
                up@,
                old(self).stride as int,
                old(self).filter_size as nat,
                old(self).learning_rate,
            ),
            r is Ok ==> r->Ok_0@ == Seq::new(
                up@.len(),
                |n: int|
                    dx_spec(
                        up@[n],
                        old(self).filters@,
                        old(self).filter_size as int,
                        old(self).stride as int,
                        ten3_rows(old(self).cached()->0),
                        ten3_cols(old(self).cached()->0),
                    ),
            ),
            r is Ok ==> r->Ok_0.wf(),
    {
        let fs = self.filter_size;
        let stride = self.stride;
        let nf = self.num_filters;
        let lr = self.learning_rate;
        let pt = match &self.state {
            Cache3::AwaitingInput => {
                return Err(Error::NoCachedInput);
            },
            Cache3::HasInput(t) => t,
        };
        let nimg = pt.mats.len();
        let ghost ptv = self.cached()->0;
        assert(ptv == pt@);
        let (nh, nw) = if nimg == 0 {
            (0usize, 0usize)
        } else {
            (pt.mats[0].nrows(), pt.mats[0].ncols())
        };
        assert(nh == ten3_rows(ptv) && nw == ten3_cols(ptv));
        if fs < 1 || stride < 1 || nh < fs || nw < fs || up.items.len() != nimg {
            assert(!self.backward_ok(up@));
            return Err(Error::ShapeMismatch);
        }
        let hh = (nh - fs) / stride + 1;
        let ww = (nw - fs) / stride + 1;
        assert(hh as int == self.out_len(ten3_rows(ptv) as int));
        assert(ww as int == self.out_len(ten3_cols(ptv) as int));
        assert(nimg > 0 && nh == ten3_rows(ptv) && nw == ten3_cols(ptv));
        // Check the upstream maps' count and shapes.
        let mut n: usize = 0;
        while n < nimg
            invariant
                0 <= n <= nimg,
                forall|k: int| 0 <= k < n ==> (#[trigger] up@[k]).len() == nf,
                forall|k: int, f: int|
                    0 <= k < n && 0 <= f < nf ==> (#[trigger] up@[k][f]).len() == hh && cols(
                        up@[k][f],
                    ) == ww,
            decreases nimg - n,
        {
            if up.items[n].mats.len() != nf {
                assert(up@[n as int].len() != nf);
                assert(!self.backward_ok(up@));
                return Err(Error::ShapeMismatch);
            }
            let mut f: usize = 0;
            while f < nf
                invariant
                    0 <= f <= nf,
                    n < nimg,
                    up@[n as int].len() == nf,
                    forall|k: int|
                        0 <= k < f ==> (#[trigger] up@[n as int][k]).len() == hh && cols(
                            up@[n as int][k],
                        ) == ww,
                decreases nf - f,
            {
                if up.items[n].mats[f].nrows() != hh || up.items[n].mats[f].ncols() != ww {
                    assert(up@[n as int][f as int].len() != hh || cols(up@[n as int][f as int])
                        != ww);
                    assert(!self.backward_ok(up@));
                    return Err(Error::ShapeMismatch);
                }
                f += 1;
            }
            n += 1;
        }
        assert(self.backward_ok(up@)) by {
            assert(forall|k: int, f: int|
                0 <= k < up@.len() && 0 <= f < nf ==> is_rect(#[trigger] up@[k][f]));
        }
        let ghost fltv = self.filters@;
        // The input gradient, with the filters as they stand.
        let ghost dx_target = Seq::new(
            up@.len(),
            |n: int| dx_spec(up@[n], fltv, fs as int, stride as int, nh as nat, nw as nat),
        );
        let mut dxs: Vec<Mat> = Vec::new();
        let mut n: usize = 0;
        while n < nimg
            invariant
                0 <= n <= nimg,
                dxs@.len() == n,
                forall|k: int| 0 <= k < n ==> (#[trigger] dxs@[k])@ == dx_target[k],
                forall|k: int| 0 <= k < n ==> (#[trigger] dxs@[k]).wf(),
            decreases nimg - n,
        {
            let mut rows: Vec<Vec<u64>> = Vec::new();
            let mut y: usize = 0;
            while y < nh
                invariant
                    0 <= y <= nh,
                    n < nimg,
                    rows@.len() == y,
                    forall|k: int| 0 <= k < y ==> (#[trigger] rows@[k])@ == dx_target[n as int][k],
                decreases nh - y,
            {
                let mut row: Vec<u64> = Vec::new();
                let mut x: usize = 0;
                while x < nw
                    invariant
                        0 <= x <= nw,
                        n < nimg,
                        y < nh,
                        row@.len() == x,
                        forall|q: int| 0 <= q < x ==> row@[q] == dx_target[n as int][y as int][q],
                    decreases nw - x,
                {
                    let ghost terms = Seq::new(
                        nf as nat,
                        |f: int| dx_one(up@[n as int][f], fltv[f], fs as int, stride as int, y as int, x as int),
                    );
                    let mut acc: u64 = ZERO_BITS;
                    let mut f: usize = 0;
                    while f < nf
                        invariant
                            0 <= f <= nf,
                            n < nimg,
                            y < nh,
                            x < nw,
                            acc == crate::mat::fold_from(ZERO_BITS, terms.take(f as int)),
                        decreases nf - f,
                    {
                        let ghost upmap = up@[n as int][f as int];
                        let ghost flt = fltv[f as int];
                        let mut c: u64 = ZERO_BITS;
                        let mut i: usize = 0;
                        while i < hh
                            invariant
                                0 <= i <= hh,
                                n < nimg,
                                y < nh,
                                x < nw,
                                f < nf,
                                upmap == up@[n as int][f as int],
                                flt == fltv[f as int],
                                c == dx_rows(
                                    ZERO_BITS,
                                    upmap,
                                    flt,
                                    fs as int,
                                    stride as int,
                                    y as int,
                                    x as int,
                                    i as nat,
                                ),
                            decreases hh - i,
                        {
                            proof {
                                lemma_stride_bound(i as int, stride as int, (nh - fs) as int);
                            }
                            let yi = i * stride;
                            let ghost entry = c;
                            let mut j: usize = 0;
                            while j < ww
                                invariant
                                    0 <= j <= ww,
                                    n < nimg,
                                    y < nh,
                                    x < nw,
                                    f < nf,
                                    i < hh,
                                    yi == i * (stride as int),
                                    yi <= nh - fs,
                                    upmap == up@[n as int][f as int],
                                    flt == fltv[f as int],
                                    c == dx_row(
                                        entry,
                                        upmap,
                                        flt,
                                        fs as int,
                                        stride as int,
                                        y as int,
                                        x as int,
                                        i as int,
                                        j as nat,
                                    ),
                                    entry == dx_rows(
                                        ZERO_BITS,
                                        upmap,
                                        flt,
                                        fs as int,
                                        stride as int,
                                        y as int,
                                        x as int,
                                        i as nat,
                                    ),
                                decreases ww - j,
                            {
                                proof {
                                    lemma_stride_bound(j as int, stride as int, (nw - fs) as int);
                                }
                                let xj = j * stride;
                                if yi <= y && y < yi + fs && xj <= x && x < xj + fs {
                                    assert(dx_hits(fs as int, stride as int, y as int, x as int, i as int, j as int));
                                    assert(flt[y - yi].len() == fs);
                                    assert(upmap[i as int].len() == ww);
                                    let v = fp_mul(
                                        up.items[n].mats[f].rows[i][j],
                                        self.filters.mats[f].rows[y - yi][x - xj],
                                    );
                                    c = fp_add(c, v);
                                } else {
                                    assert(!dx_hits(fs as int, stride as int, y as int, x as int, i as int, j as int));
                                }
                                j += 1;
                            }
                            assert(cols(upmap) == ww);
                            i += 1;
                        }
                        assert(c == terms[f as int]);
                        proof {
                            crate::mat::lemma_fold_take(ZERO_BITS, terms, f as int);
                        }
                        acc = fp_add(acc, c);
                        f += 1;
                    }
                    assert(terms.take(nf as int) =~= terms);
                    assert(acc == dx_target[n as int][y as int][x as int]);
                    row.push(acc);
                    x += 1;
                }
                assert(row@ =~= dx_target[n as int][y as int]);
                rows.push(row);
                y += 1;
            }
            let m = Mat { rows };
            assert(m@ =~= dx_target[n as int]);
            assert(is_rect(m@));
            dxs.push(m);
            n += 1;
        }
        let dx = Ten3 { mats: dxs };
        assert(dx@ =~= dx_target);
        // The weight gradients and the updated filters.
        let ghost nf_target = new_filters_spec(
            fltv,
            ptv,
            up@,
            stride as int,
            fs as nat,
            lr,
        );
        let mut nmats: Vec<Mat> = Vec::new();
        let mut f: usize = 0;
        while f < nf
            invariant
                0 <= f <= nf,
                nmats@.len() == f,
                forall|k: int| 0 <= k < f ==> (#[trigger] nmats@[k])@ == nf_target[k],
                forall|k: int| 0 <= k < f ==> (#[trigger] nmats@[k]).wf(),
            decreases nf - f,
        {
            let mut rows: Vec<Vec<u64>> = Vec::new();
            let mut p: usize = 0;
            while p < fs
                invariant
                    0 <= p <= fs,
                    f < nf,
                    rows@.len() == p,
                    forall|k: int| 0 <= k < p ==> (#[trigger] rows@[k])@ == nf_target[f as int][k],
                decreases fs - p,
            {
                let mut row: Vec<u64> = Vec::new();
                let mut q: usize = 0;
                while q < fs
                    invariant
                        0 <= q <= fs,
                        f < nf,
                        p < fs,
                        row@.len() == q,
                        forall|k: int| 0 <= k < q ==> row@[k] == nf_target[f as int][p as int][k],
                    decreases fs - q,
                {
                    let ghost terms = Seq::new(
                        nimg as nat,
                        |n: int| dw_one(ptv[n], up@[n][f as int], p as int, q as int, stride as int),
                    );
                    let mut acc: u64 = ZERO_BITS;
                    let mut n: usize = 0;
                    while n < nimg
                        invariant
                            0 <= n <= nimg,
                            f < nf,
                            p < fs,
                            q < fs,
                            acc == crate::mat::fold_from(ZERO_BITS, terms.take(n as int)),
                        decreases nimg - n,
                    {
                        let ghost img = ptv[n as int];
                        let ghost ker = up@[n as int][f as int];
                        let mut c: u64 = ZERO_BITS;
                        let mut i: usize = 0;
                        while i < hh
                            invariant
                                0 <= i <= hh,
                                f < nf,
                                p < fs,
                                q < fs,
                                n < nimg,
                                img == ptv[n as int],
                                ker == up@[n as int][f as int],
                                c == dw_rows(
                                    ZERO_BITS,
                                    img,
                                    ker,
                                    p as int,
                                    q as int,
                                    stride as int,
                                    i as nat,
                                ),
                            decreases hh - i,
                        {
                            proof {
                                lemma_stride_bound(i as int, stride as int, (nh - fs) as int);
                            }
                            let yi = i * stride;
                            let ghost entry = c;
                            let mut j: usize = 0;
                            while j < ww
                                invariant
                                    0 <= j <= ww,
                                    f < nf,
                                    p < fs,
                                    q < fs,
                                    n < nimg,
                                    i < hh,
                                    yi == i * (stride as int),
                                    yi <= nh - fs,
                                    img == ptv[n as int],
                                    ker == up@[n as int][f as int],
                                    c == dw_row(
                                        entry,
                                        img,
                                        ker,
                                        p as int,
                                        q as int,
                                        stride as int,
                                        i as int,
                                        j as nat,
                                    ),
                                    entry == dw_rows(
                                        ZERO_BITS,
                                        img,
                                        ker,
                                        p as int,
                                        q as int,
                                        stride as int,
                                        i as nat,
                                    ),
                                decreases ww - j,
                            {
                                proof {
                                    lemma_stride_bound(j as int, stride as int, (nw - fs) as int);
                                }
                                let xj = j * stride;
                                assert(img[p + yi].len() == nw);
                                assert(ker[i as int].len() == ww);
                                let v = fp_mul(
                                    up.items[n].mats[f].rows[i][j],
                                    pt.mats[n].rows[p + yi][q + xj],
                                );
                                c = fp_add(c, v);
                                j += 1;
                            }
                            assert(cols(ker) == ww);
                            i += 1;
                        }
                        assert(c == terms[n as int]);
                        proof {
                            crate::mat::lemma_fold_take(ZERO_BITS, terms, n as int);
                        }
                        acc = fp_add(acc, c);
                        n += 1;
                    }
                    assert(terms.take(nimg as int) =~= terms);
                    assert(self.filters@[f as int][p as int].len() == fs);
                    let v = fp_sub(self.filters.mats[f].rows[p][q], fp_mul(lr, acc));
                    assert(v == nf_target[f as int][p as int][q as int]);
                    row.push(v);
                    q += 1;
                }
                assert(row@ =~= nf_target[f as int][p as int]);
                rows.push(row);
                p += 1;
            }
            let m = Mat { rows };
            assert(m@ =~= nf_target[f as int]);
            assert(is_rect(m@));
            nmats.push(m);
            f += 1;
        }
        let newf = Ten3 { mats: nmats };
        assert(newf@ =~= nf_target);
        self.filters = newf;
        self.state = Cache3::AwaitingInput;
        Ok(dx)
    }
}

} // verus!
