//! The network: configuration, batching, the layer stack, training and
//! evaluation.
//!
//! A dataset is an ordered sequence of samples, each an image with a
//! one-hot-like target.  Batching groups consecutive samples, the last
//! batch carrying the remainder.  The network is a strict sequential stack
//! of layers built once from a configuration; training folds every batch
//! forward through the stack, through the loss, and backward again, each
//! layer updating its own parameters.

use vstd::prelude::*;

use crate::activation::ActKind;
use crate::conv::Conv;
use crate::dense::{Dense, WeightInit};
use crate::error::Error;
use crate::fp::{add_of, lt_of, fp_add, fp_lt, fp_of_nat, MathFn, ZERO_BITS};
use crate::layer::{
    layer_backward_res, layer_forward_res, tensor_limits_ok, Layer,
};
use crate::loss::Loss;
use crate::mat::{cols, is_rect, Mat};
use crate::regularizer::Regularization;
use crate::softmax::Softmax;
use crate::reshape::ReshapeLayer;
use crate::tensor::Tensor;

verus! {

broadcast use vstd::string::to_string_from_display_ensures_for_str;

/// One sample: an image grid and its one-hot-like target vector.
pub struct Sample {
    /// The image, as a grid of scalar bit patterns.
    pub image: Mat,
    /// The target vector.
    pub target: Vec<u64>,
}

/// The declarative parameters of one dense stage.
pub struct LayerSpec {
    /// The stage's output width.
    pub size: usize,
    /// A per-layer learning-rate override, if any.
    pub learning_rate: Option<u64>,
    /// The name of the activation to wire in.
    pub activation: String,
    /// The endpoints to draw initial weights from, if given.
    pub weight_range: Option<(u64, u64)>,
}

/// The declarative parameters of one convolutional stage.
pub struct ConvSpec {
    /// How many filters the stage has.
    pub num_filters: usize,
    /// The filters' side length.
    pub filter_size: usize,
    /// How far the filter moves between output cells.
    pub stride: usize,
    /// The padding mode's name.
    pub mode: String,
    /// A per-layer learning-rate override, if any.
    pub learning_rate: Option<u64>,
}

/// Everything the network is built from, resolved once at construction.
pub struct Config {
    /// The convolutional stages, in order.
    pub conv_layers: Vec<ConvSpec>,
    /// The dense stages, in order.
    pub dense_layers: Vec<LayerSpec>,
    /// The side length of the square input images.
    pub image_size: usize,
    /// How many samples to generate.
    pub dataset_size: usize,
    /// How many epochs to train.
    pub epochs: usize,
    /// The regularization's name.
    pub regularization: String,
    /// The regularization constant.
    pub reg_constant: u64,
    /// The global learning rate.
    pub learning_rate: u64,
    /// The loss's name.
    pub loss: String,
    /// Whether a terminal softmax layer is appended.
    pub softmax: bool,
}

/// The activation a configuration name selects: `"relu"`, `"tanh"` and
/// `"linear"` by name, anything else the sigmoid default.
pub open spec fn act_of_name(s: Seq<char>) -> ActKind {
    if s == "relu"@ {
        ActKind::Relu
    } else if s == "tanh"@ {
        ActKind::Tanh
    } else if s == "linear"@ {
        ActKind::Linear
    } else {
        ActKind::Sigmoid
    }
}

/// The loss a configuration name selects: `"cross_entropy"` by name,
/// anything else the mean-squared-error default.
pub open spec fn loss_of_name(s: Seq<char>) -> Loss {
    if s == "cross_entropy"@ {
        Loss::CrossEntropy
    } else {
        Loss::Mse
    }
}

/// The regularization a configuration name selects: `"L1"` or `"L2"` by
/// name, anything else none.
pub open spec fn reg_of_name(s: Seq<char>, alpha: u64) -> Option<Regularization> {
    if s == "L1"@ {
        Some(Regularization::L1 { alpha })
    } else if s == "L2"@ {
        Some(Regularization::L2 { alpha })
    } else {
        None
    }
}

/// The learning rate of convolutional stage `i`: its override, or the
/// global rate.
pub open spec fn conv_lr_of(c: &Config, i: int) -> u64 {
    match c.conv_layers@[i].learning_rate {
        Some(lr) => lr,
        None => c.learning_rate,
    }
}

/// The learning rate of dense stage `i`: its override, or the global rate.
pub open spec fn lr_of(c: &Config, i: int) -> u64 {
    match c.dense_layers@[i].learning_rate {
        Some(lr) => lr,
        None => c.learning_rate,
    }
}

/// Maps an activation name to its variant, the sigmoid being the default.
pub fn get_activation(name: &String) -> (r: ActKind)
    ensures
        r == act_of_name(name@),
{
    if *name == "relu".to_string() {
        ActKind::Relu
    } else if *name == "tanh".to_string() {
        ActKind::Tanh
    } else if *name == "linear".to_string() {
        ActKind::Linear
    } else {
        ActKind::Sigmoid
    }
}

/// Maps a loss name to its variant, the mean squared error being the
/// default.
pub fn get_loss(name: &String) -> (r: Loss)
    ensures
        r == loss_of_name(name@),
{
    if *name == "cross_entropy".to_string() {
        Loss::CrossEntropy
    } else {
        Loss::Mse
    }
}

/// Maps a regularization name to its variant, or to none.
pub fn get_regularization(name: &String, alpha: u64) -> (r: Option<Regularization>)
    ensures
        r == reg_of_name(name@, alpha),
{
    if *name == "L1".to_string() {
        Some(Regularization::L1 { alpha })
    } else if *name == "L2".to_string() {
        Some(Regularization::L2 { alpha })
    } else {
        None
    }
}

/// The learning rate of dense stage `i`: its override, or the global rate.
pub fn get_learning_rate(config: &Config, i: usize) -> (r: u64)
    requires
        i < config.dense_layers@.len(),
    ensures
        r == lr_of(config, i as int),
{
    match config.dense_layers[i].learning_rate {
        Some(lr) => lr,
        None => config.learning_rate,
    }
}

/// The weight range of dense stage `i`, if one was configured.
pub fn get_weight_range(config: &Config, i: usize) -> (r: Option<(u64, u64)>)
    requires
        i < config.dense_layers@.len(),
    ensures
        r == config.dense_layers@[i as int].weight_range,
{
    config.dense_layers[i].weight_range
}

/// An image flattened row-major into one row.
pub open spec fn flatten_spec(m: Seq<Seq<u64>>) -> Seq<u64>
    decreases m.len(),
{
    if m.len() == 0 {
        Seq::empty()
    } else {
        flatten_spec(m.drop_last()) + m.last()
    }
}

/// Flattens an image row-major into one vector, exactly.
pub fn flatten(x: &Mat) -> (r: Vec<u64>)
    ensures
        r@ == flatten_spec(x@),
{
    let nr = x.rows.len();
    let mut out: Vec<u64> = Vec::new();
    let mut i: usize = 0;
    while i < nr
        invariant
            0 <= i <= nr,
            nr == x@.len(),
            out@ == flatten_spec(x@.take(i as int)),
        decreases nr - i,
    {
        let rl = x.rows[i].len();
        let mut j: usize = 0;
        while j < rl
            invariant
                0 <= j <= rl,
                i < nr,
                rl == x@[i as int].len(),
                out@ == flatten_spec(x@.take(i as int)) + x@[i as int].take(j as int),
            decreases rl - j,
        {
            out.push(x.rows[i][j]);
            proof {
                assert(x@[i as int].take(j as int).push(x@[i as int][j as int]) =~= x@[
                    i as int
                ].take(j + 1));
                assert((flatten_spec(x@.take(i as int)) + x@[i as int].take(j as int)).push(
                    x@[i as int][j as int],
                ) =~= flatten_spec(x@.take(i as int)) + x@[i as int].take(j + 1));
            }
            j += 1;
        }
        proof {
            assert(x@.take(i + 1).drop_last() =~= x@.take(i as int));
            assert(x@.take(i + 1).last() == x@[i as int]);
            assert(x@[i as int].take(rl as int) =~= x@[i as int]);
        }
        i += 1;
    }
    assert(x@.take(nr as int) =~= x@);
    out
}

/// The flattened images of a dataset.
pub open spec fn flat_images(ds: Seq<Sample>) -> Seq<Seq<u64>> {
    Seq::new(ds.len(), |i: int| flatten_spec(ds[i].image@))
}

/// The targets of a dataset.
pub open spec fn targets_of(ds: Seq<Sample>) -> Seq<Seq<u64>> {
    Seq::new(ds.len(), |i: int| ds[i].target@)
}

/// Groups consecutive samples into batches of up to `batch_size`, the last
/// batch carrying the remainder: each batch stacks the flattened images
/// into one matrix and the targets into another.
///
/// Succeeds exactly when all flattened images share one length and all
/// targets share one length; a dataset of `n` samples yields
/// `(n + batch_size − 1) / batch_size` batches, every batch of
/// `batch_size` rows except a shorter last one when `batch_size` does not
/// divide `n`.
pub fn batches(dataset: &Vec<Sample>, batch_size: usize) -> (r: Result<Vec<(Mat, Mat)>, Error>)
    requires
        batch_size >= 1,
        dataset@.len() + batch_size <= usize::MAX,
    ensures
        r is Ok <==> ((forall|i: int|
            0 <= i < dataset@.len() ==> (#[trigger] flat_images(dataset@)[i]).len() == cols(
                flat_images(dataset@),
            )) && (forall|i: int|
            0 <= i < dataset@.len() ==> (#[trigger] targets_of(dataset@)[i]).len() == cols(
                targets_of(dataset@),
            ))),
        r is Err ==> r->Err_0 == Error::ShapeMismatch,
        r is Ok ==> {
            let n = dataset@.len() as int;
            let b = batch_size as int;
            &&& r->Ok_0@.len() == (n + b - 1) / b
            &&& forall|k: int|
                0 <= k < r->Ok_0@.len() ==> (#[trigger] r->Ok_0@[k]).0@ == flat_images(
                    dataset@,
                ).subrange(k * b, if (k + 1) * b <= n { (k + 1) * b } else { n })
                    && r->Ok_0@[k].1@ == targets_of(dataset@).subrange(
                    k * b,
                    if (k + 1) * b <= n { (k + 1) * b } else { n },
                ) && r->Ok_0@[k].0.wf() && r->Ok_0@[k].1.wf()
        },
{
    let n = dataset.len();
    let ghost fim = flat_images(dataset@);
    let ghost tgt = targets_of(dataset@);
    // Flatten every image, checking the common lengths.
    let mut flats: Vec<Vec<u64>> = Vec::new();
    let mut i: usize = 0;
    while i < n
        invariant
            0 <= i <= n,
            n == dataset@.len(),
            flats@.len() == i,
            forall|k: int| 0 <= k < i ==> (#[trigger] flats@[k])@ == fim[k],
            forall|k: int| 0 <= k < i ==> (#[trigger] fim[k]).len() == cols(fim),
            forall|k: int| 0 <= k < i ==> (#[trigger] tgt[k]).len() == cols(tgt),
        decreases n - i,
    {
        let fl = flatten(&dataset[i].image);
        assert(fl@ == fim[i as int]);
        if i > 0 {
            assert(flats@[0]@ == fim[0]);
            if fl.len() != flats[0].len() {
                assert(fim[i as int].len() != cols(fim));
                return Err(Error::ShapeMismatch);
            }
            if dataset[i].target.len() != dataset[0].target.len() {
                assert(tgt[0].len() == cols(tgt));
                assert(tgt[i as int].len() != cols(tgt));
                return Err(Error::ShapeMismatch);
            }
            assert(fim[i as int].len() == cols(fim));
            assert(tgt[i as int].len() == cols(tgt));
        } else {
            assert(fim.len() > 0);
            assert(fim[0].len() == cols(fim));
            assert(tgt[0].len() == cols(tgt));
        }
        flats.push(fl);
        i += 1;
    }
    // Group them.
    let mut out: Vec<(Mat, Mat)> = Vec::new();
    let mut start: usize = 0;
    let ghost b = batch_size as int;
    proof {
        assert(out@.len() * b == 0) by (nonlinear_arith)
            requires
                out@.len() == 0,
        ;
    }
    while start < n
        invariant
            0 <= start <= n,
            n == dataset@.len(),
            flats@.len() == n,
            forall|k: int| 0 <= k < n ==> (#[trigger] flats@[k])@ == fim[k],
            forall|k: int| 0 <= k < n ==> (#[trigger] fim[k]).len() == cols(fim),
            forall|k: int| 0 <= k < n ==> (#[trigger] tgt[k]).len() == cols(tgt),
            start == out@.len() * b || (start == n && out@.len() * b >= n && (out@.len() - 1) * b
                < n),
            forall|k: int|
                0 <= k < out@.len() ==> (#[trigger] out@[k]).0@ == fim.subrange(
                    k * b,
                    if (k + 1) * b <= n { (k + 1) * b } else { n as int },
                ) && out@[k].1@ == tgt.subrange(
                    k * b,
                    if (k + 1) * b <= n { (k + 1) * b } else { n as int },
                ) && out@[k].0.wf() && out@[k].1.wf(),
        decreases n - start,
    {
        let take = if n - start < batch_size {
            n - start
        } else {
            batch_size
        };
        let stop = start + take;
        let ghost k = out@.len() as int;
        assert(start == k * b);
        proof {
            assert((k + 1) * b == k * b + b) by (nonlinear_arith);
        }
        assert(stop as int == if (k + 1) * b <= n { (k + 1) * b } else { n as int });
        let mut in_rows: Vec<Vec<u64>> = Vec::new();
        let mut tg_rows: Vec<Vec<u64>> = Vec::new();
        let mut p: usize = start;
        while p < stop
            invariant
                start <= p <= stop,
                stop <= n,
                n == dataset@.len(),
                flats@.len() == n,
                forall|q: int| 0 <= q < n ==> (#[trigger] flats@[q])@ == fim[q],
                in_rows@.len() == p - start,
                tg_rows@.len() == p - start,
                forall|q: int| 0 <= q < p - start ==> (#[trigger] in_rows@[q])@ == fim[start + q],
                forall|q: int| 0 <= q < p - start ==> (#[trigger] tg_rows@[q])@ == tgt[start + q],
            decreases stop - p,
        {
            in_rows.push(crate::mat::duplicate_vec(&flats[p]));
            tg_rows.push(crate::mat::duplicate_vec(&dataset[p].target));
            p += 1;
        }
        let im = Mat { rows: in_rows };
        let tm = Mat { rows: tg_rows };
        proof {
            assert(im@.len() == stop - start);
            assert(forall|q: int| 0 <= q < stop - start ==> (#[trigger] im@[q]) == in_rows@[q]@);
            assert(forall|q: int| 0 <= q < stop - start ==> (#[trigger] tm@[q]) == tg_rows@[q]@);
            assert(im@ =~= fim.subrange(k * b, stop as int));
            assert(tm@ =~= tgt.subrange(k * b, stop as int));
            assert forall|q: int| 0 <= q < stop - start implies (#[trigger] im@[q]).len()
                == cols(fim) by {
                assert(im@[q] == in_rows@[q]@);
                assert(in_rows@[q]@ == fim[start + q]);
                assert(fim[start + q].len() == cols(fim));
            }
            assert forall|q: int| 0 <= q < stop - start implies (#[trigger] tm@[q]).len()
                == cols(tgt) by {
                assert(tm@[q] == tg_rows@[q]@);
                assert(tg_rows@[q]@ == tgt[start + q]);
                assert(tgt[start + q].len() == cols(tgt));
            }
            assert(is_rect(im@)) by {
                assert(cols(im@) == cols(fim));
            }
            assert(is_rect(tm@)) by {
                assert(cols(tm@) == cols(tgt));
            }
        }
        out.push((im, tm));
        start = stop;
    }
    proof {
        let nn = n as int;
        let k = out@.len() as int;
        if nn == 0 {
            assert(k == 0) by (nonlinear_arith)
                requires
                    b >= 1,
                    k >= 0,
                    (k * b == 0) || ((k - 1) * b < 0),
            ;
            assert((nn + b - 1) / b == 0) by (nonlinear_arith)
                requires
                    b >= 1,
                    nn == 0,
            ;
        } else if k * b == nn {
            assert((nn + b - 1) / b == k) by (nonlinear_arith)
                requires
                    b >= 1,
                    k * b == nn,
                    nn > 0,
            ;
        } else {
            assert(k * b > nn && (k - 1) * b < nn);
            assert((nn + b - 1) / b == k) by (nonlinear_arith)
                requires
                    b >= 1,
                    nn > 0,
                    k * b > nn,
                    (k - 1) * b < nn,
            ;
        }
    }
    Ok(out)
}

/// The index the left-to-right maximum scan of a row settles on after `n`
/// entries: ties keep the earlier index.
pub open spec fn argmax_scan(row: Seq<u64>, n: nat) -> int
    decreases n,
{
    if n <= 1 {
        0
    } else if lt_of(row[argmax_scan(row, (n - 1) as nat)], row[n - 1]) {
        n - 1
    } else {
        argmax_scan(row, (n - 1) as nat)
    }
}

/// The index of a row's maximum, as the left-to-right scan finds it.
pub open spec fn argmax_of(row: Seq<u64>) -> int {
    argmax_scan(row, row.len())
}

/// The index of the row's maximum, scanning left to right; ties keep the
/// earlier index.
pub fn argmax(row: &Vec<u64>) -> (r: usize)
    requires
        row@.len() > 0,
    ensures
        r == argmax_of(row@),
{
    let mut best: usize = 0;
    let mut k: usize = 1;
    let n = row.len();
    while k < n
        invariant
            1 <= k <= n,
            0 <= best < k,
            n == row@.len(),
            best == argmax_scan(row@, k as nat),
        decreases n - k,
    {
        if fp_lt(row[best], row[k]) {
            best = k;
        }
        k += 1;
    }
    best
}

/// The head of a forward chain: the first layer maps the running tensor
/// to `hr`, becoming `hl`.  Not recursive, so it can serve as the trigger
/// for the chain's existential.
pub open spec fn net_fwd_head(
    ls0: Seq<Layer>,
    x: Tensor,
    ls1: Seq<Layer>,
    hl: Layer,
    hr: Result<Tensor, Error>,
) -> bool {
    &&& ls0.len() > 0
    &&& ls1.len() == ls0.len()
    &&& layer_forward_res(ls0[0], x, hl, hr)
    &&& ls1[0] == hl
}

/// The left fold of a tensor through a layer stack: `ls1` is the stack
/// after the pass, `r` the final tensor or the first error; layers after
/// a failing one are untouched.
pub open spec fn net_forward_res(
    ls0: Seq<Layer>,
    x: Tensor,
    ls1: Seq<Layer>,
    r: Result<Tensor, Error>,
) -> bool
    decreases ls0.len(),
{
    if ls0.len() == 0 {
        &&& ls1.len() == 0
        &&& r matches Ok(y)
        &&& y == x
    } else {
        exists|hl: Layer, hr: Result<Tensor, Error>|
            #![trigger net_fwd_head(ls0, x, ls1, hl, hr)]
            {
                &&& net_fwd_head(ls0, x, ls1, hl, hr)
                &&& match hr {
                    Result::Ok(m) => net_forward_res(ls0.skip(1), m, ls1.skip(1), r),
                    Result::Err(e) => r is Err && r->Err_0 == e && ls1.skip(1) =~= ls0.skip(1),
                }
            }
    }
}

/// Extending a successful forward chain by one more layer appends that
/// layer's own outcome.
pub proof fn lemma_net_forward_snoc(
    ls0: Seq<Layer>,
    x: Tensor,
    ls1: Seq<Layer>,
    m: Tensor,
    lnext: Layer,
    l1: Layer,
    r1: Result<Tensor, Error>,
)
    requires
        net_forward_res(ls0, x, ls1, Ok(m)),
        layer_forward_res(lnext, m, l1, r1),
    ensures
        net_forward_res(ls0.push(lnext), x, ls1.push(l1), r1),
    decreases ls0.len(),
{
    let ls0p = ls0.push(lnext);
    let ls1p = ls1.push(l1);
    if ls0.len() == 0 {
        assert(m == x);
        assert(ls0p[0] == lnext && ls1p[0] == l1);
        assert(ls0p.skip(1) =~= ls0);
        assert(ls1p.skip(1) =~= ls1);
        match r1 {
            Result::Ok(y) => {
                assert(net_forward_res(ls0p.skip(1), y, ls1p.skip(1), r1));
            },
            Result::Err(e) => {},
        }
        assert(net_fwd_head(ls0p, x, ls1p, l1, r1));
    } else {
        let (hl, hr) = choose|hl: Layer, hr: Result<Tensor, Error>|
            #![trigger net_fwd_head(ls0, x, ls1, hl, hr)]
            {
                &&& net_fwd_head(ls0, x, ls1, hl, hr)
                &&& match hr {
                    Result::Ok(mm) => net_forward_res(ls0.skip(1), mm, ls1.skip(1), Ok(m)),
                    Result::Err(e) => Ok::<Tensor, Error>(m) is Err && ls1.skip(1) =~= ls0.skip(
                        1,
                    ),
                }
            };
        match hr {
            Result::Ok(mid) => {
                lemma_net_forward_snoc(ls0.skip(1), mid, ls1.skip(1), m, lnext, l1, r1);
                assert(ls0p.skip(1) =~= ls0.skip(1).push(lnext));
                assert(ls1p.skip(1) =~= ls1.skip(1).push(l1));
                assert(ls0p[0] == ls0[0] && ls1p[0] == hl);
                assert(net_fwd_head(ls0p, x, ls1p, hl, hr));
            },
            Result::Err(e) => {
                assert(false);
            },
        }
    }
}

/// A forward chain that has already failed stays failed, and untouched,
/// under any further layers.
pub proof fn lemma_net_forward_err_ext(
    ls0: Seq<Layer>,
    x: Tensor,
    ls1: Seq<Layer>,
    r: Result<Tensor, Error>,
    rest: Seq<Layer>,
)
    requires
        net_forward_res(ls0, x, ls1, r),
        r is Err,
    ensures
        net_forward_res(ls0 + rest, x, ls1 + rest, r),
    decreases ls0.len(),
{
    if ls0.len() == 0 {
        assert(false);
    } else {
        let (hl, hr) = choose|hl: Layer, hr: Result<Tensor, Error>|
            #![trigger net_fwd_head(ls0, x, ls1, hl, hr)]
            {
                &&& net_fwd_head(ls0, x, ls1, hl, hr)
                &&& match hr {
                    Result::Ok(mm) => net_forward_res(ls0.skip(1), mm, ls1.skip(1), r),
                    Result::Err(e) => r is Err && r->Err_0 == e && ls1.skip(1) =~= ls0.skip(1),
                }
            };
        let ls0p = ls0 + rest;
        let ls1p = ls1 + rest;
        assert(ls0p[0] == ls0[0] && ls1p[0] == ls1[0]);
        match hr {
            Result::Ok(mid) => {
                lemma_net_forward_err_ext(ls0.skip(1), mid, ls1.skip(1), r, rest);
                assert(ls0p.skip(1) =~= ls0.skip(1) + rest);
                assert(ls1p.skip(1) =~= ls1.skip(1) + rest);
                assert(net_fwd_head(ls0p, x, ls1p, hl, hr));
            },
            Result::Err(e) => {
                assert(ls0p.skip(1) =~= ls0.skip(1) + rest);
                assert(ls1p.skip(1) =~= ls1.skip(1) + rest);
                assert(ls1p.skip(1) =~= ls0p.skip(1));
                assert(net_fwd_head(ls0p, x, ls1p, hl, hr));
            },
        }
    }
}

/// A successful forward step hands on a rank-2 or rank-4 tensor, never a
/// rank-3 one, so the padding limit holds of every mid-chain tensor.
pub proof fn lemma_forward_out_not_d3(l0: Layer, x: Tensor, l1: Layer, m: Tensor)
    requires
        layer_forward_res(l0, x, l1, Ok(m)),
    ensures
        !(m is D3),
{
    match (l0, l1) {
        (Layer::Dense(_), Layer::Dense(_)) => {},
        (Layer::Conv(_), Layer::Conv(_)) => {},
        (Layer::Reshape(_), Layer::Reshape(_)) => {},
        (Layer::Softmax(_), Layer::Softmax(_)) => {},
        _ => {},
    }
}

/// The head of a backward chain over the reversed stack: the hindmost
/// layer maps the running gradient to `hr`, becoming `hl`.  Not recursive,
/// so it can serve as the trigger for the chain's existential.
pub open spec fn net_bwd_head(
    rs0: Seq<Layer>,
    g: Tensor,
    rs1: Seq<Layer>,
    hl: Layer,
    hr: Result<(Tensor, u64), Error>,
) -> bool {
    &&& rs0.len() > 0
    &&& rs1.len() == rs0.len()
    &&& layer_backward_res(rs0[0], g, hl, hr)
    &&& rs1[0] == hl
}

/// The right fold of a gradient through a layer stack, stated over the
/// reversed stack: `r` carries the input gradient and the accumulated
/// regularization penalties, or the first error.
pub open spec fn net_backward_res(
    rs0: Seq<Layer>,
    g: Tensor,
    pen0: u64,
    rs1: Seq<Layer>,
    r: Result<(Tensor, u64), Error>,
) -> bool
    decreases rs0.len(),
{
    if rs0.len() == 0 {
        &&& rs1.len() == 0
        &&& r matches Ok(p)
        &&& p.0 == g
        &&& p.1 == pen0
    } else {
        exists|hl: Layer, hr: Result<(Tensor, u64), Error>|
            #![trigger net_bwd_head(rs0, g, rs1, hl, hr)]
            {
                &&& net_bwd_head(rs0, g, rs1, hl, hr)
                &&& match hr {
                    Result::Ok(p) => net_backward_res(
                        rs0.skip(1),
                        p.0,
                        add_of(pen0, p.1),
                        rs1.skip(1),
                        r,
                    ),
                    Result::Err(e) => r is Err && r->Err_0 == e && rs1.skip(1) =~= rs0.skip(1),
                }
            }
    }
}

/// Extending a successful backward chain by one more layer appends that
/// layer's own outcome.
pub proof fn lemma_net_backward_snoc(
    rs0: Seq<Layer>,
    g: Tensor,
    pen0: u64,
    rs1: Seq<Layer>,
    m: Tensor,
    pen: u64,
    lnext: Layer,
    l1: Layer,
    r1: Result<(Tensor, u64), Error>,
)
    requires
        net_backward_res(rs0, g, pen0, rs1, Ok((m, pen))),
        layer_backward_res(lnext, m, l1, r1),
    ensures
        net_backward_res(
            rs0.push(lnext),
            g,
            pen0,
            rs1.push(l1),
            match r1 {
                Result::Ok(p) => Result::Ok((p.0, add_of(pen, p.1))),
                Result::Err(e) => Result::Err(e),
            },
        ),
    decreases rs0.len(),
{
    let rs0p = rs0.push(lnext);
    let rs1p = rs1.push(l1);
    let rr: Result<(Tensor, u64), Error> = match r1 {
        Result::Ok(p) => Result::Ok((p.0, add_of(pen, p.1))),
        Result::Err(e) => Result::Err(e),
    };
    if rs0.len() == 0 {
        assert(m == g && pen == pen0);
        assert(rs0p[0] == lnext && rs1p[0] == l1);
        assert(rs0p.skip(1) =~= rs0);
        assert(rs1p.skip(1) =~= rs1);
        match r1 {
            Result::Ok(p) => {
                assert(net_backward_res(rs0p.skip(1), p.0, add_of(pen0, p.1), rs1p.skip(1), rr));
            },
            Result::Err(e) => {},
        }
        assert(net_bwd_head(rs0p, g, rs1p, l1, r1));
    } else {
        let (hl, hr) = choose|hl: Layer, hr: Result<(Tensor, u64), Error>|
            #![trigger net_bwd_head(rs0, g, rs1, hl, hr)]
            {
                &&& net_bwd_head(rs0, g, rs1, hl, hr)
                &&& match hr {
                    Result::Ok(p) => net_backward_res(
                        rs0.skip(1),
                        p.0,
                        add_of(pen0, p.1),
                        rs1.skip(1),
                        Ok((m, pen)),
                    ),
                    Result::Err(e) => Ok::<(Tensor, u64), Error>((m, pen)) is Err && rs1.skip(1)
                        =~= rs0.skip(1),
                }
            };
        match hr {
            Result::Ok(p) => {
                lemma_net_backward_snoc(
                    rs0.skip(1),
                    p.0,
                    add_of(pen0, p.1),
                    rs1.skip(1),
                    m,
                    pen,
                    lnext,
                    l1,
                    r1,
                );
                assert(rs0p.skip(1) =~= rs0.skip(1).push(lnext));
                assert(rs1p.skip(1) =~= rs1.skip(1).push(l1));
                assert(net_bwd_head(rs0p, g, rs1p, hl, hr));
            },
            Result::Err(e) => {
                assert(false);
            },
        }
    }
}

/// A backward chain that has already failed stays failed, and untouched,
/// under any further layers.
pub proof fn lemma_net_backward_err_ext(
    rs0: Seq<Layer>,
    g: Tensor,
    pen0: u64,
    rs1: Seq<Layer>,
    r: Result<(Tensor, u64), Error>,
    rest: Seq<Layer>,
)
    requires
        net_backward_res(rs0, g, pen0, rs1, r),
        r is Err,
    ensures
        net_backward_res(rs0 + rest, g, pen0, rs1 + rest, r),
    decreases rs0.len(),
{
    if rs0.len() == 0 {
        assert(false);
    } else {
        let (hl, hr) = choose|hl: Layer, hr: Result<(Tensor, u64), Error>|
            #![trigger net_bwd_head(rs0, g, rs1, hl, hr)]
            {
                &&& net_bwd_head(rs0, g, rs1, hl, hr)
                &&& match hr {
                    Result::Ok(p) => net_backward_res(
                        rs0.skip(1),
                        p.0,
                        add_of(pen0, p.1),
                        rs1.skip(1),
                        r,
                    ),
                    Result::Err(e) => r is Err && r->Err_0 == e && rs1.skip(1) =~= rs0.skip(1),
                }
            };
        let rs0p = rs0 + rest;
        let rs1p = rs1 + rest;
        assert(rs0p[0] == rs0[0] && rs1p[0] == rs1[0]);
        match hr {
            Result::Ok(p) => {
                lemma_net_backward_err_ext(
                    rs0.skip(1),
                    p.0,
                    add_of(pen0, p.1),
                    rs1.skip(1),
                    r,
                    rest,
                );
                assert(rs0p.skip(1) =~= rs0.skip(1) + rest);
                assert(rs1p.skip(1) =~= rs1.skip(1) + rest);
                assert(net_bwd_head(rs0p, g, rs1p, hl, hr));
            },
            Result::Err(e) => {
                assert(rs0p.skip(1) =~= rs0.skip(1) + rest);
                assert(rs1p.skip(1) =~= rs1.skip(1) + rest);
                assert(rs1p.skip(1) =~= rs0p.skip(1));
                assert(net_bwd_head(rs0p, g, rs1p, hl, hr));
            },
        }
    }
}

/// The sequential layer stack with its loss.
pub struct NeuralNetwork {
    /// The layers, in forward order.
    pub layers: Vec<Layer>,
    /// The loss the network is trained with.
    pub loss: Loss,
}

impl NeuralNetwork {
    /// Every layer is well formed.
    pub open spec fn wf(&self) -> bool {
        forall|i: int| 0 <= i < self.layers@.len() ==> (#[trigger] self.layers@[i]).wf()
    }

    /// Every convolution layer's geometry meets the machine limit.
    pub open spec fn limits_ok(&self) -> bool {
        forall|i: int| 0 <= i < self.layers@.len() ==> (#[trigger] self.layers@[i]).limits_ok()
    }

    /// Every convolution layer's cache meets the machine limit.
    pub open spec fn back_limits_ok(&self) -> bool {
        forall|i: int|
            0 <= i < self.layers@.len() ==> (#[trigger] self.layers@[i]).back_limits_ok()
    }

    /// Left-folds the tensor through the layers in order, each layer
    /// caching what its backward pass will need; the chain and its
    /// outcome are exactly [`net_forward_res`].
    pub fn forward<F: Fn(MathFn, u64) -> u64>(&mut self, x: Tensor, f: &F) -> (r: Result<
        Tensor,
        Error,
    >)
        requires
            old(self).wf(),
            old(self).limits_ok(),
            x.wf(),
            tensor_limits_ok(&x),
            forall|a: (MathFn, u64)| #[trigger] call_requires(*f, a),
        ensures
            final(self).wf(),
            final(self).limits_ok(),
            old(self).back_limits_ok() ==> final(self).back_limits_ok(),
            final(self).loss == old(self).loss,
            final(self).layers@.len() == old(self).layers@.len(),
            net_forward_res(old(self).layers@, x, final(self).layers@, r),
            r matches Ok(t) ==> t.wf() && tensor_limits_ok(&t),
    {
        let ghost ls0 = self.layers@;
        let ghost x0 = x;
        let n = self.layers.len();
        let mut done: Vec<Layer> = Vec::new();
        let mut acc: Tensor = x;
        let mut i: usize = 0;
        while i < n
            invariant
                0 <= i <= n,
                n == ls0.len(),
                self.layers@ =~= ls0.skip(i as int),
                self.loss == old(self).loss,
                done@.len() == i,
                net_forward_res(ls0.take(i as int), x0, done@, Ok(acc)),
                acc.wf(),
                tensor_limits_ok(&acc),
                forall|k: int| 0 <= k < i ==> (#[trigger] done@[k]).wf(),
                forall|k: int| 0 <= k < i ==> (#[trigger] done@[k]).limits_ok(),
                old(self).back_limits_ok() ==> forall|k: int|
                    0 <= k < i ==> (#[trigger] done@[k]).back_limits_ok(),
            decreases n - i,
        {
            assert(self.layers@[0] == ls0[i as int]);
            assert(ls0[i as int].wf() && ls0[i as int].limits_ok()) by {
                assert(old(self).layers@[i as int].wf());
                assert(old(self).layers@[i as int].limits_ok());
            }
            let mut l = self.layers.remove(0);
            let ghost l_before = l;
            let ghost acc_before = acc;
            let r1 = l.forward(acc, f);
            assert(self.layers@ =~= ls0.skip(i + 1));
            match r1 {
                Ok(m) => {
                    proof {
                        lemma_net_forward_snoc(
                            ls0.take(i as int),
                            x0,
                            done@,
                            acc_before,
                            l_before,
                            l,
                            Ok(m),
                        );
                        assert(ls0.take(i + 1) =~= ls0.take(i as int).push(ls0[i as int]));
                        lemma_forward_out_not_d3(l_before, acc_before, l, m);
                    }
                    done.push(l);
                    acc = m;
                    i += 1;
                },
                Err(e) => {
                    proof {
                        lemma_net_forward_snoc(
                            ls0.take(i as int),
                            x0,
                            done@,
                            acc_before,
                            l_before,
                            l,
                            Err(e),
                        );
                        assert(ls0.take(i + 1) =~= ls0.take(i as int).push(ls0[i as int]));
                    }
                    done.push(l);
                    let ghost done_err = done@;
                    while self.layers.len() > 0
                        invariant
                            self.loss == old(self).loss,
                            done@ =~= done_err + ls0.subrange(
                                i + 1,
                                ls0.len() - self.layers@.len(),
                            ),
                            self.layers@ =~= ls0.skip(ls0.len() - self.layers@.len()),
                            i + 1 <= ls0.len() - self.layers@.len() <= ls0.len(),
                        decreases self.layers@.len(),
                    {
                        let moved = self.layers.remove(0);
                        done.push(moved);
                        proof {
                            let pos = ls0.len() - self.layers@.len();
                            assert(done@ =~= done_err + ls0.subrange(i + 1, pos));
                            assert(self.layers@ =~= ls0.skip(pos));
                        }
                    }
                    proof {
                        assert(done@ =~= done_err + ls0.skip(i + 1));
                        lemma_net_forward_err_ext(
                            ls0.take(i + 1),
                            x0,
                            done_err,
                            Err(e),
                            ls0.skip(i + 1),
                        );
                        assert(ls0.take(i + 1) + ls0.skip(i + 1) =~= ls0);
                    }
                    self.layers = done;
                    return Err(e);
                },
            }
        }
        assert(ls0.take(n as int) =~= ls0);
        self.layers = done;
        Ok(acc)
    }

    /// Right-folds the gradient through the layers in reverse order, each
    /// layer updating its own parameters; returns the gradient with
    /// respect to the network input beside the summed regularization
    /// penalties, which are reported rather than folded into any loss.
    /// The chain and its outcome are exactly [`net_backward_res`] over the
    /// reversed stack.
    #[verifier::rlimit(80)]
    pub fn backward<F: Fn(MathFn, u64) -> u64>(&mut self, g: Tensor, f: &F) -> (r: Result<
        (Tensor, u64),
        Error,
    >)
        requires
            old(self).wf(),
            old(self).back_limits_ok(),
            g.wf(),
            forall|a: (MathFn, u64)| #[trigger] call_requires(*f, a),
        ensures
            final(self).wf(),
            final(self).back_limits_ok(),
            final(self).loss == old(self).loss,
            final(self).layers@.len() == old(self).layers@.len(),
            net_backward_res(
                old(self).layers@.reverse(),
                g,
                ZERO_BITS,
                final(self).layers@.reverse(),
                r,
            ),
            r matches Ok(t) ==> t.0.wf(),
            old(self).limits_ok() ==> final(self).limits_ok(),
    {
        let ghost ls0 = self.layers@;
        let ghost rs0 = ls0.reverse();
        let ghost g0 = g;
        let n = self.layers.len();
        let mut done: Vec<Layer> = Vec::new();
        let mut acc: Tensor = g;
        let mut pen: u64 = ZERO_BITS;
        let mut i: usize = 0;
        while i < n
            invariant
                0 <= i <= n,
                n == ls0.len(),
                rs0 == ls0.reverse(),
                self.layers@ =~= ls0.take((n - i) as int),
                self.loss == old(self).loss,
                done@.len() == i,
                net_backward_res(rs0.take(i as int), g0, ZERO_BITS, done@, Ok((acc, pen))),
                acc.wf(),
                forall|k: int| 0 <= k < i ==> (#[trigger] done@[k]).wf(),
                forall|k: int| 0 <= k < i ==> (#[trigger] done@[k]).back_limits_ok(),
                old(self).limits_ok() ==> forall|k: int|
                    0 <= k < i ==> (#[trigger] done@[k]).limits_ok(),
            decreases n - i,
        {
            assert(self.layers@.len() == n - i);
            assert(self.layers@[n - i - 1] == ls0[n - i - 1]);
            assert(rs0[i as int] == ls0[n - i - 1]);
            assert(ls0[n - i - 1].wf() && ls0[n - i - 1].back_limits_ok()) by {
                assert(old(self).layers@[n - i - 1].wf());
                assert(old(self).layers@[n - i - 1].back_limits_ok());
            }
            let mut l = match self.layers.pop() {
                Some(l) => l,
                None => {
                    assert(false);
                    return Err(Error::NoCachedInput);
                },
            };
            let ghost l_before = l;
            let ghost acc_before = acc;
            let ghost pen_before = pen;
            let r1 = l.backward(acc, f);
            assert(self.layers@ =~= ls0.take((n - i - 1) as int));
            match r1 {
                Ok((m, p)) => {
                    proof {
                        lemma_net_backward_snoc(
                            rs0.take(i as int),
                            g0,
                            ZERO_BITS,
                            done@,
                            acc_before,
                            pen_before,
                            l_before,
                            l,
                            Ok((m, p)),
                        );
                        assert(rs0.take(i + 1) =~= rs0.take(i as int).push(rs0[i as int]));
                    }
                    done.push(l);
                    acc = m;
                    pen = fp_add(pen, p);
                    i += 1;
                },
                Err(e) => {
                    proof {
                        lemma_net_backward_snoc(
                            rs0.take(i as int),
                            g0,
                            ZERO_BITS,
                            done@,
                            acc_before,
                            pen_before,
                            l_before,
                            l,
                            Err(e),
                        );
                        assert(rs0.take(i + 1) =~= rs0.take(i as int).push(rs0[i as int]));
                    }
                    done.push(l);
                    let ghost done_err = done@;
                    let ghost keep = (n - i - 1) as int;
                    // Put the processed layers back behind the untouched
                    // prefix, restoring forward order.
                    while done.len() > 0
                        invariant
                            self.loss == old(self).loss,
                            done@.len() + self.layers@.len() == keep + done_err.len(),
                            self.layers@.len() >= keep,
                            done@ =~= done_err.take(done@.len() as int),
                            self.layers@ =~= ls0.take(keep) + done_err.skip(
                                done@.len() as int,
                            ).reverse(),
                        decreases done@.len(),
                    {
                        let moved = match done.pop() {
                            Some(m) => m,
                            None => {
                                assert(false);
                                return Err(Error::NoCachedInput);
                            },
                        };
                        self.layers.push(moved);
                        proof {
                            let dl = done@.len() as int;
                            assert(done@ =~= done_err.take(dl));
                            assert(done_err.skip(dl).reverse() =~= done_err.skip(dl + 1).reverse()
                                .push(done_err[dl]));
                            assert(self.layers@ =~= ls0.take(keep) + done_err.skip(dl).reverse());
                        }
                    }
                    proof {
                        assert(self.layers@ =~= ls0.take(keep) + done_err.reverse());
                        lemma_net_backward_err_ext(
                            rs0.take(i + 1),
                            g0,
                            ZERO_BITS,
                            done_err,
                            Err(e),
                            rs0.skip(i + 1),
                        );
                        assert(rs0.take(i + 1) + rs0.skip(i + 1) =~= rs0);
                        // The final stack reversed is the processed suffix
                        // followed by the reversed untouched prefix.
                        assert((ls0.take(keep) + done_err.reverse()).reverse() =~= done_err
                            + rs0.skip(i + 1)) by {
                            assert(rs0.skip(i + 1) =~= ls0.take(keep).reverse());
                        }
                        assert(done_err + rs0.skip(i + 1) =~= done_err + rs0.skip(i + 1));
                    }
                    return Err(e);
                },
            }
        }
        assert(self.layers@.len() == 0);
        // Restore forward order: the processed layers are in reverse.
        let ghost done_all = done@;
        assert(done@ =~= done_all.take(done@.len() as int));
        assert(self.layers@ =~= done_all.skip(done@.len() as int).reverse());
        while done.len() > 0
            invariant
                self.loss == old(self).loss,
                done@.len() <= done_all.len(),
                done@ =~= done_all.take(done@.len() as int),
                self.layers@ =~= done_all.skip(done@.len() as int).reverse(),
            decreases done@.len(),
        {
            let ghost pre = done@;
            let ghost lpre = self.layers@;
            let moved = match done.pop() {
                Some(m) => m,
                None => {
                    assert(false);
                    return Err(Error::NoCachedInput);
                },
            };
            self.layers.push(moved);
            proof {
                let dl = pre.len() - 1;
                assert(pre =~= done_all.take(pre.len() as int));
                assert(moved == pre[dl]);
                assert(pre[dl] == done_all[dl]);
                assert(done@ == pre.drop_last());
                assert(done@ =~= done_all.take(dl));
                assert(done_all.skip(dl).reverse() =~= done_all.skip(dl + 1).reverse().push(
                    done_all[dl],
                ));
                assert(self.layers@ == lpre.push(moved));
                assert(self.layers@ =~= done_all.skip(dl).reverse());
            }
        }
        proof {
            assert(self.layers@ =~= done_all.reverse());
            assert(rs0.take(n as int) =~= rs0);
            assert(self.layers@.reverse() =~= done_all);
        }
        Ok((acc, pen))
    }
}

impl NeuralNetwork {
    /// How many layers [`NeuralNetwork::init`] builds from a
    /// configuration: the convolutional stages, a reshape bridge when both
    /// kinds of stage are present, the dense stages, and the optional
    /// terminal softmax.
    pub open spec fn layer_count_of(c: &Config) -> int {
        c.conv_layers@.len() + (if c.conv_layers@.len() > 0 && c.dense_layers@.len() > 0 {
            1int
        } else {
            0int
        }) + c.dense_layers@.len() + (if c.softmax {
            1int
        } else {
            0int
        })
    }

    /// What layer `i` of a freshly built network is, stage by stage.
    pub open spec fn layer_matches_config(c: &Config, i: int, l: Layer) -> bool {
        let nc = c.conv_layers@.len() as int;
        let bridge = if nc > 0 && c.dense_layers@.len() > 0 {
            1int
        } else {
            0int
        };
        let nd = c.dense_layers@.len() as int;
        if i < nc {
            &&& l matches Layer::Conv(cv)
            &&& cv.num_filters == c.conv_layers@[i].num_filters
            &&& cv.filter_size == c.conv_layers@[i].filter_size
            &&& cv.stride == c.conv_layers@[i].stride
            &&& cv.mode == crate::conv::pad_mode_of_name(c.conv_layers@[i].mode@)
            &&& cv.learning_rate == conv_lr_of(c, i)
            &&& cv.cached() is None
        } else if i < nc + bridge {
            l is Reshape
        } else if i < nc + bridge + nd {
            let j = i - nc - bridge;
            &&& l matches Layer::Dense(d)
            &&& d.w.spec_nrows() == (if j == 0 {
                c.image_size * c.image_size
            } else {
                c.dense_layers@[j - 1].size as int
            })
            &&& d.w.spec_nrows() > 0 ==> d.w.spec_ncols() == c.dense_layers@[j].size
            &&& d.b@.len() == c.dense_layers@[j].size
            &&& d.activation.kind == act_of_name(c.dense_layers@[j].activation@)
            &&& d.learning_rate == lr_of(c, j)
            &&& d.regularizer == reg_of_name(c.regularization@, c.reg_constant)
            &&& d.cached() is None
            &&& d.act_cached() is None
        } else {
            &&& l matches Layer::Softmax(sm)
            &&& sm.cached() is None
        }
    }

    /// Builds the layer stack a configuration describes: the convolutional
    /// stages in order, a reshape bridge when dense stages follow them,
    /// the dense stages each wired to its own activation, learning rate,
    /// weight range and the configured regularization, and a terminal
    /// softmax when asked for; the loss is selected by name.  The first
    /// dense stage takes the flattened image, and every parameter is drawn
    /// by the caller-supplied sampler.
    pub fn init<G: Fn(WeightInit) -> u64>(config: &Config, g: &G) -> (r: NeuralNetwork)
        requires
            (config.image_size as int) * (config.image_size as int) <= usize::MAX,
            forall|i: int|
                0 <= i < config.conv_layers@.len() ==> (#[trigger] config.conv_layers@[i]).filter_size
                    <= 0x10_0000,
            forall|a: (WeightInit,)| #[trigger] call_requires(*g, a),
        ensures
            r.wf(),
            r.limits_ok(),
            r.back_limits_ok(),
            r.loss == loss_of_name(config.loss@),
            r.layers@.len() == NeuralNetwork::layer_count_of(config),
            forall|i: int|
                0 <= i < r.layers@.len() ==> NeuralNetwork::layer_matches_config(
                    config,
                    i,
                    #[trigger] r.layers@[i],
                ),
    {
        let mut layers: Vec<Layer> = Vec::new();
        let ncv = config.conv_layers.len();
        let mut i: usize = 0;
        while i < ncv
            invariant
                0 <= i <= ncv,
                ncv == config.conv_layers@.len(),
                layers@.len() == i,
                forall|k: int|
                    0 <= k < i ==> NeuralNetwork::layer_matches_config(
                        config,
                        k,
                        #[trigger] layers@[k],
                    ),
                forall|k: int|
                    0 <= k < i ==> (#[trigger] layers@[k]).wf() && layers@[k].limits_ok()
                        && layers@[k].back_limits_ok(),
            decreases ncv - i,
        {
            let spec_i = &config.conv_layers[i];
            let lr = match spec_i.learning_rate {
                Some(lr) => lr,
                None => config.learning_rate,
            };
            let cv = Conv::init(
                spec_i.num_filters,
                spec_i.filter_size,
                spec_i.stride,
                spec_i.mode.clone(),
                lr,
                g,
            );
            layers.push(Layer::Conv(cv));
            i += 1;
        }
        let nd = config.dense_layers.len();
        if ncv > 0 && nd > 0 {
            layers.push(Layer::Reshape(ReshapeLayer));
        }
        let ghost off = layers@.len() as int;
        let input0 = config.image_size * config.image_size;
        let mut j: usize = 0;
        while j < nd
            invariant
                0 <= j <= nd,
                nd == config.dense_layers@.len(),
                input0 == config.image_size * config.image_size,
                layers@.len() == off + j,
                off == config.conv_layers@.len() + (if config.conv_layers@.len() > 0 && nd > 0 {
                    1int
                } else {
                    0int
                }),
                forall|k: int|
                    0 <= k < layers@.len() ==> NeuralNetwork::layer_matches_config(
                        config,
                        k,
                        #[trigger] layers@[k],
                    ),
                forall|k: int|
                    0 <= k < layers@.len() ==> (#[trigger] layers@[k]).wf()
                        && layers@[k].limits_ok() && layers@[k].back_limits_ok(),
            decreases nd - j,
        {
            let input = if j == 0 {
                input0
            } else {
                config.dense_layers[j - 1].size
            };
            let d = Dense::init(
                input,
                config.dense_layers[j].size,
                get_weight_range(config, j),
                get_activation(&config.dense_layers[j].activation),
                get_learning_rate(config, j),
                get_regularization(&config.regularization, config.reg_constant),
                g,
            );
            layers.push(Layer::Dense(d));
            j += 1;
        }
        if config.softmax {
            layers.push(Layer::Softmax(Softmax::init()));
        }
        let loss = get_loss(&config.loss);
        NeuralNetwork { layers, loss }
    }
}

/// What the loss scalar of a batch may be: exact for the mean squared
/// error, and [`crate::loss::ce_loss_spec`] of some logarithm matrix the
/// closure returned for the cross entropy.
pub open spec fn loss_val_rel(l: Loss, p: Seq<Seq<u64>>, a: Seq<Seq<u64>>, v: u64) -> bool {
    match l {
        Loss::Mse => v == crate::loss::mse_loss_spec(p, a),
        Loss::CrossEntropy => exists|lg: Seq<Seq<u64>>|
            crate::mat::same_shape(p, lg) && v == crate::loss::ce_loss_spec(
                a,
                lg,
                p.len() as u64,
            ),
    }
}

/// The exact loss gradient of a batch.
pub open spec fn loss_grad_of(l: Loss, p: Seq<Seq<u64>>, a: Seq<Seq<u64>>) -> Seq<Seq<u64>> {
    match l {
        Loss::Mse => crate::loss::mse_grad_spec(p, a),
        Loss::CrossEntropy => crate::loss::ce_grad_spec(p, a),
    }
}

/// The witness of one training step: the forward chain produced the
/// predictions `pm`, the loss scalar relates to them, and the backward
/// chain consumed their exact loss gradient.  Not recursive, so it can
/// serve as a trigger.
pub open spec fn train_step_wit(
    net0: NeuralNetwork,
    x: Tensor,
    tgt: Seq<Seq<u64>>,
    net1: NeuralNetwork,
    lb: u64,
    mid: Seq<Layer>,
    pm: Mat,
    gm: Mat,
    rb: Result<(Tensor, u64), Error>,
) -> bool {
    &&& net_forward_res(net0.layers@, x, mid, Ok(Tensor::D2(pm)))
    &&& pm.spec_nrows() == tgt.len()
    &&& pm.spec_ncols() == cols(tgt)
    &&& loss_val_rel(net0.loss, pm@, tgt, lb)
    &&& gm@ == loss_grad_of(net0.loss, pm@, tgt)
    &&& rb is Ok
    &&& net_backward_res(mid.reverse(), Tensor::D2(gm), ZERO_BITS, net1.layers@.reverse(), rb)
    &&& net1.loss == net0.loss
}

/// The witness of one validation step: a forward chain and the loss, with
/// no backward pass.
pub open spec fn val_step_wit(
    net0: NeuralNetwork,
    x: Tensor,
    tgt: Seq<Seq<u64>>,
    net1: NeuralNetwork,
    lb: u64,
    pm: Mat,
) -> bool {
    &&& net_forward_res(net0.layers@, x, net1.layers@, Ok(Tensor::D2(pm)))
    &&& pm.spec_nrows() == tgt.len()
    &&& pm.spec_ncols() == cols(tgt)
    &&& loss_val_rel(net0.loss, pm@, tgt, lb)
    &&& net1.loss == net0.loss
}

impl NeuralNetwork {
    /// One training step on one batch: forward, loss, loss gradient,
    /// backward.  On success the returned scalar and the new network state
    /// are tied to the old by [`train_step_wit`] for some intermediate
    /// stack and prediction matrix.
    pub fn train_batch<F: Fn(MathFn, u64) -> u64>(
        &mut self,
        inputs: Tensor,
        targets: &Mat,
        f: &F,
    ) -> (r: Result<u64, Error>)
        requires
            old(self).wf(),
            old(self).limits_ok(),
            old(self).back_limits_ok(),
            inputs.wf(),
            tensor_limits_ok(&inputs),
            targets.wf(),
            forall|a: (MathFn, u64)| #[trigger] call_requires(*f, a),
        ensures
            final(self).wf(),
            final(self).limits_ok(),
            final(self).back_limits_ok(),
            final(self).loss == old(self).loss,
            r is Ok ==> exists|mid: Seq<Layer>, pm: Mat, gm: Mat, rb: Result<(Tensor, u64), Error>|
                #[trigger] train_step_wit(
                    *old(self),
                    inputs,
                    targets@,
                    *final(self),
                    r->Ok_0,
                    mid,
                    pm,
                    gm,
                    rb,
                ),
    {
        let ghost x0 = inputs;
        let pred = match self.forward(inputs, f) {
            Ok(t) => t,
            Err(e) => {
                return Err(e);
            },
        };
        let ghost mid = self.layers@;
        let pm = match pred {
            Tensor::D2(m) => m,
            _ => {
                return Err(Error::ShapeMismatch);
            },
        };
        if pm.nrows() != targets.nrows() || pm.ncols() != targets.ncols() {
            return Err(Error::ShapeMismatch);
        }
        let lo = self.loss;
        let lb = match lo.loss(&pm, targets, f) {
            Ok(v) => v,
            Err(e) => {
                return Err(e);
            },
        };
        let gm = match lo.grad(&pm, targets) {
            Ok(m) => m,
            Err(_) => {
                assert(false);
                return Err(Error::ShapeMismatch);
            },
        };
        let ghost gmv = gm;
        let rb = self.backward(Tensor::D2(gm), f);
        match rb {
            Ok((d, p)) => {
                proof {
                    assert(train_step_wit(
                        *old(self),
                        x0,
                        targets@,
                        *self,
                        lb,
                        mid,
                        pm,
                        gmv,
                        Ok((d, p)),
                    ));
                }
                Ok(lb)
            },
            Err(e) => Err(e),
        }
    }

    /// One validation step on one batch: forward and loss only; the layer
    /// caches are overwritten but no parameter changes.
    pub fn val_batch<F: Fn(MathFn, u64) -> u64>(
        &mut self,
        inputs: Tensor,
        targets: &Mat,
        f: &F,
    ) -> (r: Result<u64, Error>)
        requires
            old(self).wf(),
            old(self).limits_ok(),
            old(self).back_limits_ok(),
            inputs.wf(),
            tensor_limits_ok(&inputs),
            targets.wf(),
            forall|a: (MathFn, u64)| #[trigger] call_requires(*f, a),
        ensures
            final(self).wf(),
            final(self).limits_ok(),
            final(self).back_limits_ok(),
            final(self).loss == old(self).loss,
            r is Ok ==> exists|pm: Mat| #[trigger] val_step_wit(
                *old(self),
                inputs,
                targets@,
                *final(self),
                r->Ok_0,
                pm,
            ),
    {
        let ghost x0 = inputs;
        let pred = match self.forward(inputs, f) {
            Ok(t) => t,
            Err(e) => {
                return Err(e);
            },
        };
        let pm = match pred {
            Tensor::D2(m) => m,
            _ => {
                return Err(Error::ShapeMismatch);
            },
        };
        if pm.nrows() != targets.nrows() || pm.ncols() != targets.ncols() {
            return Err(Error::ShapeMismatch);
        }
        let lo = self.loss;
        match lo.loss(&pm, targets, f) {
            Ok(v) => {
                proof {
                    assert(val_step_wit(*old(self), x0, targets@, *self, v, pm));
                }
                Ok(v)
            },
            Err(e) => Err(e),
        }
    }

    /// Trains for the given number of epochs: each epoch batches the
    /// training set afresh, folds every batch through
    /// [`Self::train_batch`] summing the loss scalars, then folds the
    /// validation set through [`Self::val_batch`], and reports the two
    /// per-epoch loss sums.  On success the whole run is tied to the old
    /// network by [`fit_rel`] over the mathematical batches.  Plotting and
    /// progress output are the caller's business, not this function's.
    pub fn fit<F: Fn(MathFn, u64) -> u64>(
        &mut self,
        dataset: &Vec<Sample>,
        epochs: usize,
        batch_size: usize,
        validation: &Vec<Sample>,
        f: &F,
    ) -> (r: Result<(Vec<u64>, Vec<u64>), Error>)
        requires
            old(self).wf(),
            old(self).limits_ok(),
            old(self).back_limits_ok(),
            batch_size >= 1,
            dataset@.len() + batch_size <= usize::MAX,
            validation@.len() + batch_size <= usize::MAX,
            forall|a: (MathFn, u64)| #[trigger] call_requires(*f, a),
        ensures
            final(self).wf(),
            final(self).limits_ok(),
            final(self).back_limits_ok(),
            final(self).loss == old(self).loss,
            r is Ok ==> r->Ok_0.0@.len() == epochs && r->Ok_0.1@.len() == epochs,
            r is Ok ==> fit_rel(
                *old(self),
                batches_spec(dataset@, batch_size as int),
                batches_spec(validation@, batch_size as int),
                epochs as nat,
                *final(self),
                r->Ok_0.0@,
                r->Ok_0.1@,
            ),
    {
        let ghost tbs_math = batches_spec(dataset@, batch_size as int);
        let ghost vbs_math = batches_spec(validation@, batch_size as int);
        let mut train_loss: Vec<u64> = Vec::new();
        let mut validation_loss: Vec<u64> = Vec::new();
        let mut e: usize = 0;
        while e < epochs
            invariant
                0 <= e <= epochs,
                self.wf(),
                self.limits_ok(),
                self.back_limits_ok(),
                self.loss == old(self).loss,
                train_loss@.len() == e,
                validation_loss@.len() == e,
                fit_rel(*old(self), tbs_math, vbs_math, e as nat, *self, train_loss@, validation_loss@),
            decreases epochs - e,
        {
            let ghost net_e = *self;
            let mut epoch_loss: u64 = ZERO_BITS;
            let mut tb = match batches(dataset, batch_size) {
                Ok(b) => b,
                Err(err) => {
                    return Err(err);
                },
            };
            proof {
                assert forall|j: int| 0 <= j < tb@.len() implies (#[trigger] tb@[j]).0@
                    == tbs_math[j].0 && tb@[j].1@ == tbs_math[j].1 by {}
                assert(tb@.len() == tbs_math.len());
            }
            let ghost mut k: int = 0;
            while tb.len() > 0
                invariant
                    self.wf(),
                    self.limits_ok(),
                    self.back_limits_ok(),
                    self.loss == old(self).loss,
                    0 <= k <= tbs_math.len(),
                    tb@.len() == tbs_math.len() - k,
                    forall|j: int|
                        0 <= j < tb@.len() ==> (#[trigger] tb@[j]).0@ == tbs_math[k + j].0
                            && tb@[j].1@ == tbs_math[k + j].1,
                    forall|j: int|
                        0 <= j < tb@.len() ==> (#[trigger] tb@[j]).0.wf() && tb@[j].1.wf(),
                    run_train_rel(net_e, tbs_math.take(k), *self, ZERO_BITS, epoch_loss),
                decreases tb@.len(),
            {
                let (im, tm) = tb.remove(0);
                let ghost imv = im;
                let ghost pre = *self;
                let ghost acc_pre = epoch_loss;
                let lb = match self.train_batch(Tensor::D2(im), &tm, f) {
                    Ok(v) => v,
                    Err(err) => {
                        return Err(err);
                    },
                };
                epoch_loss = fp_add(epoch_loss, lb);
                proof {
                    let (mid, pm, gm, rb) = choose|
                        mid: Seq<Layer>,
                        pm: Mat,
                        gm: Mat,
                        rb: Result<(Tensor, u64), Error>,
                    |
                        #[trigger] train_step_wit(
                            pre,
                            Tensor::D2(imv),
                            tm@,
                            *self,
                            lb,
                            mid,
                            pm,
                            gm,
                            rb,
                        );
                    assert(imv@ == tbs_math[k].0 && tm@ == tbs_math[k].1);
                    assert(tb_step(pre, tbs_math[k].0, tbs_math[k].1, *self, lb));
                    lemma_run_train_snoc(
                        net_e,
                        tbs_math.take(k),
                        pre,
                        acc_pre,
                        tbs_math[k],
                        *self,
                        lb,
                    );
                    assert(tbs_math.take(k + 1) =~= tbs_math.take(k).push(tbs_math[k]));
                    k = k + 1;
                }
            }
            proof {
                assert(tbs_math.take(k) =~= tbs_math);
            }
            let ghost net_mid = *self;
            let mut val_loss: u64 = ZERO_BITS;
            let mut vb = match batches(validation, batch_size) {
                Ok(b) => b,
                Err(err) => {
                    return Err(err);
                },
            };
            proof {
                assert forall|j: int| 0 <= j < vb@.len() implies (#[trigger] vb@[j]).0@
                    == vbs_math[j].0 && vb@[j].1@ == vbs_math[j].1 by {}
                assert(vb@.len() == vbs_math.len());
            }
            let ghost mut kv: int = 0;
            while vb.len() > 0
                invariant
                    self.wf(),
                    self.limits_ok(),
                    self.back_limits_ok(),
                    self.loss == old(self).loss,
                    0 <= kv <= vbs_math.len(),
                    vb@.len() == vbs_math.len() - kv,
                    forall|j: int|
                        0 <= j < vb@.len() ==> (#[trigger] vb@[j]).0@ == vbs_math[kv + j].0
                            && vb@[j].1@ == vbs_math[kv + j].1,
                    forall|j: int|
                        0 <= j < vb@.len() ==> (#[trigger] vb@[j]).0.wf() && vb@[j].1.wf(),
                    run_val_rel(net_mid, vbs_math.take(kv), *self, ZERO_BITS, val_loss),
                decreases vb@.len(),
            {
                let (im, tm) = vb.remove(0);
                let ghost imv = im;
                let ghost pre = *self;
                let ghost acc_pre = val_loss;
                let lv = match self.val_batch(Tensor::D2(im), &tm, f) {
                    Ok(v) => v,
                    Err(err) => {
                        return Err(err);
                    },
                };
                val_loss = fp_add(val_loss, lv);
                proof {
                    let pm = choose|pm: Mat| #[trigger] val_step_wit(
                        pre,
                        Tensor::D2(imv),
                        tm@,
                        *self,
                        lv,
                        pm,
                    );
                    assert(imv@ == vbs_math[kv].0 && tm@ == vbs_math[kv].1);
                    assert(vb_step(pre, vbs_math[kv].0, vbs_math[kv].1, *self, lv));
                    lemma_run_val_snoc_from(
                        net_mid,
                        vbs_math.take(kv),
                        pre,
                        ZERO_BITS,
                        acc_pre,
                        vbs_math[kv],
                        *self,
                        lv,
                    );
                    assert(vbs_math.take(kv + 1) =~= vbs_math.take(kv).push(vbs_math[kv]));
                    kv = kv + 1;
                }
            }
            proof {
                assert(vbs_math.take(kv) =~= vbs_math);
                assert(epoch_rel(net_e, tbs_math, vbs_math, *self, epoch_loss, val_loss));
                lemma_fit_rel_snoc(
                    *old(self),
                    tbs_math,
                    vbs_math,
                    e as nat,
                    net_e,
                    train_loss@,
                    validation_loss@,
                    *self,
                    epoch_loss,
                    val_loss,
                );
            }
            train_loss.push(epoch_loss);
            validation_loss.push(val_loss);
            e += 1;
        }
        Ok((train_loss, validation_loss))
    }

    /// Runs every sample through the network one at a time and counts how
    /// often the index of the largest prediction matches the index of the
    /// largest target; reports the accuracy as `matches / total × 100`,
    /// the count tied to the old network by [`eval_rel`].
    pub fn evaluate<F: Fn(MathFn, u64) -> u64>(&mut self, test_set: &Vec<Sample>, f: &F) -> (r:
        Result<u64, Error>)
        requires
            old(self).wf(),
            old(self).limits_ok(),
            old(self).back_limits_ok(),
            test_set@.len() + 1 <= usize::MAX,
            forall|a: (MathFn, u64)| #[trigger] call_requires(*f, a),
        ensures
            final(self).wf(),
            final(self).limits_ok(),
            final(self).back_limits_ok(),
            final(self).loss == old(self).loss,
            r is Ok ==> exists|m: int|
                {
                    &&& 0 <= m <= test_set@.len()
                    &&& #[trigger] eval_rel(*old(self), test_set@, *final(self), 0, m)
                    &&& r->Ok_0 == crate::fp::mul_of(
                        crate::fp::div_of(
                            crate::fp::nat_bits(m as u64),
                            crate::fp::nat_bits(test_set@.len() as u64),
                        ),
                        crate::fp::HUNDRED_BITS,
                    )
                },
    {
        let total = test_set.len();
        let mut bt = match batches(test_set, 1) {
            Ok(b) => b,
            Err(err) => {
                return Err(err);
            },
        };
        proof {
            assert((total as int + 1 - 1) / 1 == total as int);
            assert forall|j: int| 0 <= j < bt@.len() implies (#[trigger] bt@[j]).0@.len() == 1
                && bt@[j].0@[0] == flatten_spec(test_set@[j].image@) && bt@[j].1@.len() == 1
                && bt@[j].1@[0] == test_set@[j].target@ by {
                assert(bt@[j].0@ == flat_images(test_set@).subrange(j, j + 1));
                assert(bt@[j].1@ == targets_of(test_set@).subrange(j, j + 1));
                assert(bt@[j].0@[0] == flat_images(test_set@)[j]);
                assert(bt@[j].1@[0] == targets_of(test_set@)[j]);
            }
        }
        let mut score: usize = 0;
        let ghost mut k: int = 0;
        while bt.len() > 0
            invariant
                self.wf(),
                self.limits_ok(),
                self.back_limits_ok(),
                self.loss == old(self).loss,
                0 <= k <= total,
                total == test_set@.len(),
                bt@.len() == total - k,
                score <= k,
                forall|j: int|
                    0 <= j < bt@.len() ==> (#[trigger] bt@[j]).0@.len() == 1 && bt@[j].0@[0]
                        == flatten_spec(test_set@[k + j].image@) && bt@[j].1@.len() == 1
                        && bt@[j].1@[0] == test_set@[k + j].target@,
                forall|j: int| 0 <= j < bt@.len() ==> (#[trigger] bt@[j]).0.wf() && bt@[j].1.wf(),
                eval_rel(*old(self), test_set@.take(k), *self, 0, score as int),
            decreases bt@.len(),
        {
            let (im, tm) = bt.remove(0);
            let ghost imv = im;
            let ghost pre = *self;
            let pred = match self.forward(Tensor::D2(im), f) {
                Ok(t) => t,
                Err(err) => {
                    return Err(err);
                },
            };
            let pm = match pred {
                Tensor::D2(m) => m,
                _ => {
                    return Err(Error::ShapeMismatch);
                },
            };
            if pm.nrows() != 1 || tm.nrows() != 1 || pm.ncols() == 0 || tm.ncols() == 0 {
                return Err(Error::ShapeMismatch);
            }
            assert(pm@[0].len() > 0);
            assert(tm@[0].len() > 0);
            let p_best = argmax(&pm.rows[0]);
            let t_best = argmax(&tm.rows[0]);
            let hit = p_best == t_best;
            if hit {
                score += 1;
            }
            proof {
                assert(pm.rows@[0]@ == pm@[0]);
                assert(tm.rows@[0]@ == tm@[0]);
                assert(tm@[0] == test_set@[k].target@);
                assert(eval_step_wit(pre, test_set@[k], *self, hit, imv, pm));
                assert(eval_step(pre, test_set@[k], *self, hit));
                lemma_eval_rel_snoc(
                    *old(self),
                    test_set@.take(k),
                    pre,
                    0,
                    (score as int) - (if hit {
                        1int
                    } else {
                        0int
                    }),
                    test_set@[k],
                    *self,
                    hit,
                );
                assert(test_set@.take(k + 1) =~= test_set@.take(k).push(test_set@[k]));
                k = k + 1;
            }
        }
        proof {
            assert(test_set@.take(k) =~= test_set@);
        }
        let acc = crate::fp::fp_mul(
            crate::fp::fp_div(fp_of_nat(score as u64), fp_of_nat(total as u64)),
            crate::fp::HUNDRED_BITS,
        );
        proof {
            assert(0 <= score as int <= test_set@.len());
            assert(eval_rel(*old(self), test_set@, *self, 0, score as int));
        }
        Ok(acc)
    }

}

/// The mathematical batches of a dataset: batch `k` holds the flattened
/// images and the targets of samples `k·b` up to the next cut.
pub open spec fn batches_spec(ds: Seq<Sample>, b: int) -> Seq<(Seq<Seq<u64>>, Seq<Seq<u64>>)> {
    Seq::new(
        (((ds.len() + b - 1) / b) as nat),
        |k: int|
            (
                flat_images(ds).subrange(
                    k * b,
                    if (k + 1) * b <= ds.len() {
                        (k + 1) * b
                    } else {
                        ds.len() as int
                    },
                ),
                targets_of(ds).subrange(
                    k * b,
                    if (k + 1) * b <= ds.len() {
                        (k + 1) * b
                    } else {
                        ds.len() as int
                    },
                ),
            ),
    )
}

/// Whether two networks carry the same layers and loss.
pub open spec fn nets_eq(a: NeuralNetwork, b: NeuralNetwork) -> bool {
    a.layers@ == b.layers@ && a.loss == b.loss
}

/// One training step on one mathematical batch: some input matrix with
/// the batch's view went through [`train_step_wit`].
pub open spec fn tb_step(
    net0: NeuralNetwork,
    bi: Seq<Seq<u64>>,
    bt: Seq<Seq<u64>>,
    net1: NeuralNetwork,
    lb: u64,
) -> bool {
    exists|xm: Mat, mid: Seq<Layer>, pm: Mat, gm: Mat, rb: Result<(Tensor, u64), Error>|
        xm@ == bi && #[trigger] train_step_wit(net0, Tensor::D2(xm), bt, net1, lb, mid, pm, gm, rb)
}

/// One validation step on one mathematical batch.
pub open spec fn vb_step(
    net0: NeuralNetwork,
    bi: Seq<Seq<u64>>,
    bt: Seq<Seq<u64>>,
    net1: NeuralNetwork,
    lb: u64,
) -> bool {
    exists|xm: Mat, pm: Mat|
        xm@ == bi && #[trigger] val_step_wit(net0, Tensor::D2(xm), bt, net1, lb, pm)
}

/// The head of a training fold over the remaining batches.  Not
/// recursive, so it can serve as the trigger for the chain's existential.
pub open spec fn train_fold_head(
    net0: NeuralNetwork,
    bs: Seq<(Seq<Seq<u64>>, Seq<Seq<u64>>)>,
    netm: NeuralNetwork,
    lb: u64,
) -> bool {
    bs.len() > 0 && tb_step(net0, bs[0].0, bs[0].1, netm, lb)
}

/// The left fold of training steps over a sequence of batches: the loss
/// scalars accumulate from `acc0` to `acc1` in order.
pub open spec fn run_train_rel(
    net0: NeuralNetwork,
    bs: Seq<(Seq<Seq<u64>>, Seq<Seq<u64>>)>,
    net1: NeuralNetwork,
    acc0: u64,
    acc1: u64,
) -> bool
    decreases bs.len(),
{
    if bs.len() == 0 {
        nets_eq(net0, net1) && acc1 == acc0
    } else {
        exists|netm: NeuralNetwork, lb: u64|
            #![trigger train_fold_head(net0, bs, netm, lb)]
            {
                &&& train_fold_head(net0, bs, netm, lb)
                &&& run_train_rel(netm, bs.skip(1), net1, add_of(acc0, lb), acc1)
            }
    }
}

/// The head of a validation fold over the remaining batches.
pub open spec fn val_fold_head(
    net0: NeuralNetwork,
    bs: Seq<(Seq<Seq<u64>>, Seq<Seq<u64>>)>,
    netm: NeuralNetwork,
    lb: u64,
) -> bool {
    bs.len() > 0 && vb_step(net0, bs[0].0, bs[0].1, netm, lb)
}

/// The left fold of validation steps over a sequence of batches.
pub open spec fn run_val_rel(
    net0: NeuralNetwork,
    bs: Seq<(Seq<Seq<u64>>, Seq<Seq<u64>>)>,
    net1: NeuralNetwork,
    acc0: u64,
    acc1: u64,
) -> bool
    decreases bs.len(),
{
    if bs.len() == 0 {
        nets_eq(net0, net1) && acc1 == acc0
    } else {
        exists|netm: NeuralNetwork, lb: u64|
            #![trigger val_fold_head(net0, bs, netm, lb)]
            {
                &&& val_fold_head(net0, bs, netm, lb)
                &&& run_val_rel(netm, bs.skip(1), net1, add_of(acc0, lb), acc1)
            }
    }
}

/// One epoch: every training batch folded with its backward pass, then
/// every validation batch folded forward-and-loss only, each sum started
/// from +0.0.
pub open spec fn epoch_rel(
    net0: NeuralNetwork,
    tbs: Seq<(Seq<Seq<u64>>, Seq<Seq<u64>>)>,
    vbs: Seq<(Seq<Seq<u64>>, Seq<Seq<u64>>)>,
    net1: NeuralNetwork,
    tl: u64,
    vl: u64,
) -> bool {
    exists|netm: NeuralNetwork|
        #![trigger run_train_rel(net0, tbs, netm, ZERO_BITS, tl)]
        {
            &&& run_train_rel(net0, tbs, netm, ZERO_BITS, tl)
            &&& run_val_rel(netm, vbs, net1, ZERO_BITS, vl)
        }
}

/// The whole training run: one [`epoch_rel`] per epoch, the per-epoch
/// loss sums reported in order.
pub open spec fn fit_rel(
    net0: NeuralNetwork,
    tbs: Seq<(Seq<Seq<u64>>, Seq<Seq<u64>>)>,
    vbs: Seq<(Seq<Seq<u64>>, Seq<Seq<u64>>)>,
    e: nat,
    net1: NeuralNetwork,
    tls: Seq<u64>,
    vls: Seq<u64>,
) -> bool
    decreases e,
{
    if e == 0 {
        nets_eq(net0, net1) && tls.len() == 0 && vls.len() == 0
    } else {
        &&& tls.len() == e
        &&& vls.len() == e
        &&& exists|netm: NeuralNetwork|
            #![trigger epoch_rel(net0, tbs, vbs, netm, tls[0], vls[0])]
            {
                &&& epoch_rel(net0, tbs, vbs, netm, tls[0], vls[0])
                &&& fit_rel(netm, tbs, vbs, (e - 1) as nat, net1, tls.skip(1), vls.skip(1))
            }
    }
}

/// Extending a training fold by one more batch appends its step.
pub proof fn lemma_run_train_snoc(
    net0: NeuralNetwork,
    bs: Seq<(Seq<Seq<u64>>, Seq<Seq<u64>>)>,
    netm: NeuralNetwork,
    acc: u64,
    nb: (Seq<Seq<u64>>, Seq<Seq<u64>>),
    netn: NeuralNetwork,
    lb: u64,
)
    requires
        run_train_rel(net0, bs, netm, ZERO_BITS, acc),
        tb_step(netm, nb.0, nb.1, netn, lb),
    ensures
        run_train_rel(net0, bs.push(nb), netn, ZERO_BITS, add_of(acc, lb)),
    decreases bs.len(),
{
    lemma_run_train_snoc_from(net0, bs, netm, ZERO_BITS, acc, nb, netn, lb);
}

/// The accumulator-general induction behind [`lemma_run_train_snoc`].
proof fn lemma_run_train_snoc_from(
    net0: NeuralNetwork,
    bs: Seq<(Seq<Seq<u64>>, Seq<Seq<u64>>)>,
    netm: NeuralNetwork,
    acc0: u64,
    acc: u64,
    nb: (Seq<Seq<u64>>, Seq<Seq<u64>>),
    netn: NeuralNetwork,
    lb: u64,
)
    requires
        run_train_rel(net0, bs, netm, acc0, acc),
        tb_step(netm, nb.0, nb.1, netn, lb),
    ensures
        run_train_rel(net0, bs.push(nb), netn, acc0, add_of(acc, lb)),
    decreases bs.len(),
{
    let bsp = bs.push(nb);
    if bs.len() == 0 {
        assert(bsp[0] == nb);
        assert(bsp.skip(1) =~= bs);
        assert(nets_eq(net0, netm) && acc == acc0);
        assert(tb_step(net0, bsp[0].0, bsp[0].1, netn, lb)) by {
            assert(net0.layers@ == netm.layers@ && net0.loss == netm.loss);
            lemma_tb_step_congruence(netm, net0, nb.0, nb.1, netn, lb);
        }
        assert(train_fold_head(net0, bsp, netn, lb));
        assert(run_train_rel(netn, bsp.skip(1), netn, add_of(acc0, lb), add_of(acc, lb)));
    } else {
        let (netk, lk) = choose|netk: NeuralNetwork, lk: u64|
            #![trigger train_fold_head(net0, bs, netk, lk)]
            {
                &&& train_fold_head(net0, bs, netk, lk)
                &&& run_train_rel(netk, bs.skip(1), netm, add_of(acc0, lk), acc)
            };
        lemma_run_train_snoc_from(netk, bs.skip(1), netm, add_of(acc0, lk), acc, nb, netn, lb);
        assert(bsp.skip(1) =~= bs.skip(1).push(nb));
        assert(bsp[0] == bs[0]);
        assert(train_fold_head(net0, bsp, netk, lk));
    }
}

/// A training step relates two networks through their layer stacks and
/// loss alone, so it carries over to an equal network value.
proof fn lemma_tb_step_congruence(
    a: NeuralNetwork,
    b: NeuralNetwork,
    bi: Seq<Seq<u64>>,
    bt: Seq<Seq<u64>>,
    net1: NeuralNetwork,
    lb: u64,
)
    requires
        tb_step(a, bi, bt, net1, lb),
        a.layers@ == b.layers@,
        a.loss == b.loss,
    ensures
        tb_step(b, bi, bt, net1, lb),
{
    let (xm, mid, pm, gm, rb) = choose|
        xm: Mat,
        mid: Seq<Layer>,
        pm: Mat,
        gm: Mat,
        rb: Result<(Tensor, u64), Error>,
    |
        xm@ == bi && #[trigger] train_step_wit(a, Tensor::D2(xm), bt, net1, lb, mid, pm, gm, rb);
    assert(train_step_wit(b, Tensor::D2(xm), bt, net1, lb, mid, pm, gm, rb));
}

/// Extending a validation fold by one more batch appends its step.
proof fn lemma_run_val_snoc_from(
    net0: NeuralNetwork,
    bs: Seq<(Seq<Seq<u64>>, Seq<Seq<u64>>)>,
    netm: NeuralNetwork,
    acc0: u64,
    acc: u64,
    nb: (Seq<Seq<u64>>, Seq<Seq<u64>>),
    netn: NeuralNetwork,
    lb: u64,
)
    requires
        run_val_rel(net0, bs, netm, acc0, acc),
        vb_step(netm, nb.0, nb.1, netn, lb),
    ensures
        run_val_rel(net0, bs.push(nb), netn, acc0, add_of(acc, lb)),
    decreases bs.len(),
{
    let bsp = bs.push(nb);
    if bs.len() == 0 {
        assert(bsp[0] == nb);
        assert(bsp.skip(1) =~= bs);
        assert(vb_step(net0, bsp[0].0, bsp[0].1, netn, lb)) by {
            lemma_vb_step_congruence(netm, net0, nb.0, nb.1, netn, lb);
        }
        assert(val_fold_head(net0, bsp, netn, lb));
        assert(run_val_rel(netn, bsp.skip(1), netn, add_of(acc0, lb), add_of(acc, lb)));
    } else {
        let (netk, lk) = choose|netk: NeuralNetwork, lk: u64|
            #![trigger val_fold_head(net0, bs, netk, lk)]
            {
                &&& val_fold_head(net0, bs, netk, lk)
                &&& run_val_rel(netk, bs.skip(1), netm, add_of(acc0, lk), acc)
            };
        lemma_run_val_snoc_from(netk, bs.skip(1), netm, add_of(acc0, lk), acc, nb, netn, lb);
        assert(bsp.skip(1) =~= bs.skip(1).push(nb));
        assert(bsp[0] == bs[0]);
        assert(val_fold_head(net0, bsp, netk, lk));
    }
}

/// A validation step carries over to an equal network value.
proof fn lemma_vb_step_congruence(
    a: NeuralNetwork,
    b: NeuralNetwork,
    bi: Seq<Seq<u64>>,
    bt: Seq<Seq<u64>>,
    net1: NeuralNetwork,
    lb: u64,
)
    requires
        vb_step(a, bi, bt, net1, lb),
        a.layers@ == b.layers@,
        a.loss == b.loss,
    ensures
        vb_step(b, bi, bt, net1, lb),
{
    let (xm, pm) = choose|xm: Mat, pm: Mat|
        xm@ == bi && #[trigger] val_step_wit(a, Tensor::D2(xm), bt, net1, lb, pm);
    assert(val_step_wit(b, Tensor::D2(xm), bt, net1, lb, pm));
}

/// Extending a run by one more epoch appends its loss sums.
proof fn lemma_fit_rel_snoc(
    net0: NeuralNetwork,
    tbs: Seq<(Seq<Seq<u64>>, Seq<Seq<u64>>)>,
    vbs: Seq<(Seq<Seq<u64>>, Seq<Seq<u64>>)>,
    e: nat,
    netm: NeuralNetwork,
    tls: Seq<u64>,
    vls: Seq<u64>,
    netn: NeuralNetwork,
    tl: u64,
    vl: u64,
)
    requires
        fit_rel(net0, tbs, vbs, e, netm, tls, vls),
        epoch_rel(netm, tbs, vbs, netn, tl, vl),
    ensures
        fit_rel(net0, tbs, vbs, (e + 1) as nat, netn, tls.push(tl), vls.push(vl)),
    decreases e,
{
    let tlsp = tls.push(tl);
    let vlsp = vls.push(vl);
    if e == 0 {
        assert(nets_eq(net0, netm));
        assert(tlsp[0] == tl && vlsp[0] == vl);
        assert(tlsp.skip(1) =~= tls);
        assert(vlsp.skip(1) =~= vls);
        assert(epoch_rel(net0, tbs, vbs, netn, tl, vl)) by {
            let netx = choose|netx: NeuralNetwork|
                #![trigger run_train_rel(netm, tbs, netx, ZERO_BITS, tl)]
                {
                    &&& run_train_rel(netm, tbs, netx, ZERO_BITS, tl)
                    &&& run_val_rel(netx, vbs, netn, ZERO_BITS, vl)
                };
            lemma_run_rel_congruence(netm, net0, tbs, netx, ZERO_BITS, tl);
            assert(run_train_rel(net0, tbs, netx, ZERO_BITS, tl));
        }
        assert(fit_rel(netn, tbs, vbs, 0nat, netn, tlsp.skip(1), vlsp.skip(1)));
    } else {
        let netk = choose|netk: NeuralNetwork|
            #![trigger epoch_rel(net0, tbs, vbs, netk, tls[0], vls[0])]
            {
                &&& epoch_rel(net0, tbs, vbs, netk, tls[0], vls[0])
                &&& fit_rel(netk, tbs, vbs, (e - 1) as nat, netm, tls.skip(1), vls.skip(1))
            };
        lemma_fit_rel_snoc(
            netk,
            tbs,
            vbs,
            (e - 1) as nat,
            netm,
            tls.skip(1),
            vls.skip(1),
            netn,
            tl,
            vl,
        );
        assert(tlsp.skip(1) =~= tls.skip(1).push(tl));
        assert(vlsp.skip(1) =~= vls.skip(1).push(vl));
        assert(tlsp[0] == tls[0] && vlsp[0] == vls[0]);
        assert(epoch_rel(net0, tbs, vbs, netk, tlsp[0], vlsp[0]));
    }
}

/// A training fold over a whole sequence carries over to an equal
/// starting network value.
proof fn lemma_run_rel_congruence(
    a: NeuralNetwork,
    b: NeuralNetwork,
    bs: Seq<(Seq<Seq<u64>>, Seq<Seq<u64>>)>,
    net1: NeuralNetwork,
    acc0: u64,
    acc1: u64,
)
    requires
        run_train_rel(a, bs, net1, acc0, acc1),
        a.layers@ == b.layers@,
        a.loss == b.loss,
    ensures
        run_train_rel(b, bs, net1, acc0, acc1),
    decreases bs.len(),
{
    if bs.len() == 0 {
    } else {
        let (netk, lk) = choose|netk: NeuralNetwork, lk: u64|
            #![trigger train_fold_head(a, bs, netk, lk)]
            {
                &&& train_fold_head(a, bs, netk, lk)
                &&& run_train_rel(netk, bs.skip(1), net1, add_of(acc0, lk), acc1)
            };
        lemma_tb_step_congruence(a, b, bs[0].0, bs[0].1, netk, lk);
        assert(train_fold_head(b, bs, netk, lk));
    }
}

/// The witness of one evaluation step: a one-sample batch went forward,
/// and `hit` says whether the largest prediction's index matched the
/// target's.  Not recursive, so it can serve as a trigger.
pub open spec fn eval_step_wit(
    net0: NeuralNetwork,
    s: Sample,
    net1: NeuralNetwork,
    hit: bool,
    xm: Mat,
    pm: Mat,
) -> bool {
    &&& xm@.len() == 1
    &&& xm@[0] == flatten_spec(s.image@)
    &&& net_forward_res(net0.layers@, Tensor::D2(xm), net1.layers@, Ok(Tensor::D2(pm)))
    &&& pm@.len() == 1
    &&& pm@[0].len() > 0
    &&& s.target@.len() > 0
    &&& hit == (argmax_of(pm@[0]) == argmax_of(s.target@))
    &&& net1.loss == net0.loss
}

/// One evaluation step, for some input and prediction matrices.
pub open spec fn eval_step(net0: NeuralNetwork, s: Sample, net1: NeuralNetwork, hit: bool) -> bool {
    exists|xm: Mat, pm: Mat| #[trigger] eval_step_wit(net0, s, net1, hit, xm, pm)
}

/// The head of an evaluation fold over the remaining samples.
pub open spec fn eval_fold_head(
    net0: NeuralNetwork,
    svs: Seq<Sample>,
    netm: NeuralNetwork,
    hit: bool,
) -> bool {
    svs.len() > 0 && eval_step(net0, svs[0], netm, hit)
}

/// The left fold of evaluation steps over the samples: the match count
/// accumulates from `acc0` to `acc1` in order.
pub open spec fn eval_rel(
    net0: NeuralNetwork,
    svs: Seq<Sample>,
    net1: NeuralNetwork,
    acc0: int,
    acc1: int,
) -> bool
    decreases svs.len(),
{
    if svs.len() == 0 {
        nets_eq(net0, net1) && acc1 == acc0
    } else {
        exists|netm: NeuralNetwork, hit: bool|
            #![trigger eval_fold_head(net0, svs, netm, hit)]
            {
                &&& eval_fold_head(net0, svs, netm, hit)
                &&& eval_rel(netm, svs.skip(1), net1, acc0 + (if hit {
                    1int
                } else {
                    0int
                }), acc1)
            }
    }
}

/// Extending an evaluation fold by one more sample appends its step.
proof fn lemma_eval_rel_snoc(
    net0: NeuralNetwork,
    svs: Seq<Sample>,
    netm: NeuralNetwork,
    acc0: int,
    acc: int,
    ns: Sample,
    netn: NeuralNetwork,
    hit: bool,
)
    requires
        eval_rel(net0, svs, netm, acc0, acc),
        eval_step(netm, ns, netn, hit),
    ensures
        eval_rel(net0, svs.push(ns), netn, acc0, acc + (if hit {
            1int
        } else {
            0int
        })),
    decreases svs.len(),
{
    let svsp = svs.push(ns);
    if svs.len() == 0 {
        assert(svsp[0] == ns);
        assert(svsp.skip(1) =~= svs);
        assert(eval_step(net0, svsp[0], netn, hit)) by {
            let (xm, pm) = choose|xm: Mat, pm: Mat| #[trigger] eval_step_wit(
                netm,
                ns,
                netn,
                hit,
                xm,
                pm,
            );
            assert(eval_step_wit(net0, ns, netn, hit, xm, pm));
        }
        assert(eval_fold_head(net0, svsp, netn, hit));
        assert(eval_rel(netn, svsp.skip(1), netn, acc0 + (if hit {
            1int
        } else {
            0int
        }), acc + (if hit {
            1int
        } else {
            0int
        })));
    } else {
        let (netk, h) = choose|netk: NeuralNetwork, h: bool|
            #![trigger eval_fold_head(net0, svs, netk, h)]
            {
                &&& eval_fold_head(net0, svs, netk, h)
                &&& eval_rel(netk, svs.skip(1), netm, acc0 + (if h {
                    1int
                } else {
                    0int
                }), acc)
            };
        lemma_eval_rel_snoc(netk, svs.skip(1), netm, acc0 + (if h {
            1int
        } else {
            0int
        }), acc, ns, netn, hit);
        assert(svsp.skip(1) =~= svs.skip(1).push(ns));
        assert(svsp[0] == svs[0]);
        assert(eval_fold_head(net0, svsp, netk, h));
    }
}

} // verus!
