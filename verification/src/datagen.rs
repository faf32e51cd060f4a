//! The synthetic labeled image dataset: shape generators, noise, and the
//! three-way split.
//!
//! Every image is a square grid whose cells are the bits of 0.0 or 1.0.
//! All randomness comes from caller-supplied closures: `rng(lo, hi)` is
//! asked for an integer draw and its answer is clamped into `[lo, hi)`, and
//! `coin()` is asked for a double's bits, compared against thresholds with
//! the IEEE-754 order.  The contracts state, for some drawn values in the
//! stated ranges, exactly which cells are set.

use vstd::prelude::*;

use crate::fp::{add_of, eq_of, lt_of, fp_add, fp_eq, fp_lt, ZERO_BITS, ONE_BITS};
use crate::mat::{is_rect, Mat};
use crate::network::Sample;

verus! {

/// Clamps a drawn value into `[lo, hi)`: an in-range draw is kept, any
/// other answer falls back to `lo`.
pub fn sanitize(lo: i64, hi: i64, v: i64) -> (r: i64)
    requires
        lo < hi,
    ensures
        lo <= r < hi,
        lo <= v < hi ==> r == v,
{
    if lo <= v && v < hi {
        v
    } else {
        lo
    }
}

/// A filled-circle cell: 1.0 where the squared distance from the centre is
/// at most the squared radius, else 0.0.
pub open spec fn circle_cell(x: int, y: int, sx: int, sy: int, rad: int) -> u64 {
    if (x - sx) * (x - sx) + (y - sy) * (y - sy) <= rad * rad {
        ONE_BITS
    } else {
        ZERO_BITS
    }
}

/// A horizontal-bars cell: 1.0 on the drawn rows.
pub open spec fn hbar_cell(x: int, ps: Seq<i64>) -> u64 {
    if ps.contains(x as i64) {
        ONE_BITS
    } else {
        ZERO_BITS
    }
}

/// A vertical-bars cell: 1.0 on the drawn columns.
pub open spec fn vbar_cell(y: int, ps: Seq<i64>) -> u64 {
    if ps.contains(y as i64) {
        ONE_BITS
    } else {
        ZERO_BITS
    }
}

/// A rectangle-outline cell: 1.0 on the two vertical edges between the
/// horizontal ones, and on the two horizontal edges between the vertical
/// ones.
pub open spec fn rect_cell(x: int, y: int, sp0: int, sp1: int, h: int, w: int) -> u64 {
    if sp0 <= x < sp0 + h && (y == sp1 || y == sp1 + w) {
        ONE_BITS
    } else if sp1 <= y < sp1 + w && (x == sp0 || x == sp0 + h - 1) {
        ONE_BITS
    } else {
        ZERO_BITS
    }
}

/// What one noisy cell may be given the drawn bits `rb`: flipped between
/// 0.0 and 1.0 when the draw is below the noise threshold, else collapsed
/// to 0.0 or 1.0 as it was.
pub open spec fn noise_cell(c: u64, noise: u64, rb: u64) -> u64 {
    if lt_of(rb, noise) {
        if eq_of(c, ZERO_BITS) {
            ONE_BITS
        } else {
            ZERO_BITS
        }
    } else {
        if eq_of(c, ZERO_BITS) {
            ZERO_BITS
        } else {
            ONE_BITS
        }
    }
}

/// Whether one cell of `img` is a [`noise_cell`] of the matching base
/// cell, for some drawn bits.
pub open spec fn noised_cell_ok(base: Seq<Seq<u64>>, noise: u64, img: Seq<Seq<u64>>, i: int, j: int) -> bool {
    exists|rb: u64| img[i][j] == noise_cell(base[i][j], noise, rb)
}

/// Whether `img` is some noisy copy of `base`: same shape, every cell a
/// [`noise_cell`] of the matching base cell for some drawn bits.
pub open spec fn noised_rel(base: Seq<Seq<u64>>, noise: u64, img: Seq<Seq<u64>>) -> bool {
    &&& img.len() == base.len()
    &&& forall|i: int| 0 <= i < base.len() ==> (#[trigger] img[i]).len() == base[i].len()
    &&& forall|i: int, j: int|
        0 <= i < base.len() && 0 <= j < base[i].len() ==> #[trigger] noised_cell_ok(
            base,
            noise,
            img,
            i,
            j,
        )
}

/// Whether `img` is some circle image of the given frame and size: for
/// some radius and centre in the documented ranges, every cell follows
/// [`circle_cell`].
pub open spec fn circle_image(
    img: Seq<Seq<u64>>,
    dimensions: int,
    image_size: int,
    center: bool,
) -> bool {
    exists|rad: int, sx: int, sy: int|
        {
            &&& 1 <= rad < image_size / 2
            &&& #[trigger] in_circle_ranges(rad, sx, sy, image_size, center)
            &&& img.len() == dimensions
            &&& (forall|x: int| 0 <= x < dimensions ==> (#[trigger] img[x]).len() == dimensions)
            &&& (forall|x: int, y: int|
                0 <= x < dimensions && 0 <= y < dimensions ==> #[trigger] img[x][y] == circle_cell(
                    x,
                    y,
                    sx,
                    sy,
                    rad,
                ))
        }
}

/// The ranges a circle's centre is drawn from: the exact midpoint when
/// centred, else anywhere the circle fits.
pub open spec fn in_circle_ranges(
    rad: int,
    sx: int,
    sy: int,
    image_size: int,
    center: bool,
) -> bool {
    if center {
        sx == image_size / 2 && sy == image_size / 2
    } else {
        rad <= sx < image_size - rad && rad <= sy < image_size - rad
    }
}

/// Draws a filled circle of a random radius at a random (or central)
/// position on a `dimensions` × `dimensions` frame.
pub fn generate_circle<R: Fn(i64, i64) -> i64>(
    dimensions: i64,
    image_size: i64,
    center: bool,
    rng: &R,
) -> (r: Mat)
    requires
        1 <= dimensions <= 10_000,
        4 <= image_size <= 10_000,
        forall|a: (i64, i64)| #[trigger] call_requires(*rng, a),
    ensures
        r.wf(),
        r.spec_nrows() == dimensions,
        circle_image(r@, dimensions as int, image_size as int, center),
{
    let rad = sanitize(1, image_size / 2, rng(1, image_size / 2));
    let (sx, sy) = if center {
        (image_size / 2, image_size / 2)
    } else {
        (
            sanitize(rad, image_size - rad, rng(rad, image_size - rad)),
            sanitize(rad, image_size - rad, rng(rad, image_size - rad)),
        )
    };
    let n = dimensions as usize;
    let mut rows: Vec<Vec<u64>> = Vec::new();
    let mut x: usize = 0;
    while x < n
        invariant
            0 <= x <= n,
            n == dimensions,
            1 <= rad < image_size / 2,
            in_circle_ranges(rad as int, sx as int, sy as int, image_size as int, center),
            -10_000 <= sx <= 10_000,
            -10_000 <= sy <= 10_000,
            rows@.len() == x,
            forall|k: int| 0 <= k < x ==> (#[trigger] rows@[k])@.len() == n,
            forall|k: int, l: int|
                0 <= k < x && 0 <= l < n ==> #[trigger] rows@[k]@[l] == circle_cell(
                    k,
                    l,
                    sx as int,
                    sy as int,
                    rad as int,
                ),
        decreases n - x,
    {
        let mut row: Vec<u64> = Vec::new();
        let mut y: usize = 0;
        while y < n
            invariant
                0 <= y <= n,
                x < n,
                n == dimensions,
                1 <= rad < image_size / 2,
                -10_000 <= sx <= 10_000,
                -10_000 <= sy <= 10_000,
                row@.len() == y,
                forall|l: int|
                    0 <= l < y ==> (#[trigger] row@[l]) == circle_cell(
                        x as int,
                        l,
                        sx as int,
                        sy as int,
                        rad as int,
                    ),
            decreases n - y,
        {
            let dx = (x as i64) - sx;
            let dy = (y as i64) - sy;
            proof {
                assert(dx * dx <= 400_000_000 && dx * dx >= 0) by (nonlinear_arith)
                    requires
                        -20_000 <= dx <= 20_000,
                ;
                assert(dy * dy <= 400_000_000 && dy * dy >= 0) by (nonlinear_arith)
                    requires
                        -20_000 <= dy <= 20_000,
                ;
                assert(rad * rad <= 400_000_000 && rad * rad >= 0) by (nonlinear_arith)
                    requires
                        0 <= rad <= 20_000,
                ;
            }
            let v = if dx * dx + dy * dy <= rad * rad {
                ONE_BITS
            } else {
                ZERO_BITS
            };
            row.push(v);
            y += 1;
        }
        rows.push(row);
        x += 1;
    }
    let out = Mat { rows };
    assert(is_rect(out@)) by {
        assert(forall|k: int| 0 <= k < out@.len() ==> (#[trigger] out@[k]).len() == n);
    }
    assert(circle_image(out@, dimensions as int, image_size as int, center)) by {
        assert(in_circle_ranges(rad as int, sx as int, sy as int, image_size as int, center));
    }
    out
}

/// A set of distinct drawn positions in `[0, image_size)`: asks the
/// sampler until it has enough, then fills deterministically from 0 up if
/// the sampler keeps repeating itself.
pub fn random_set<R: Fn(i64, i64) -> i64>(n: i64, image_size: i64, rng: &R) -> (r: Vec<i64>)
    requires
        0 <= n <= image_size,
        1 <= image_size <= 10_000,
        forall|a: (i64, i64)| #[trigger] call_requires(*rng, a),
    ensures
        r@.len() == n,
        forall|k: int| 0 <= k < r@.len() ==> 0 <= #[trigger] r@[k] < image_size,
        forall|k: int, l: int| 0 <= k < l < r@.len() ==> r@[k] != r@[l],
{
    let mut out: Vec<i64> = Vec::new();
    let mut fuel: usize = 10_000;
    while fuel > 0 && (out.len() as i64) < n
        invariant
            out@.len() <= n,
            forall|k: int| 0 <= k < out@.len() ==> 0 <= #[trigger] out@[k] < image_size,
            forall|k: int, l: int| 0 <= k < l < out@.len() ==> out@[k] != out@[l],
        decreases fuel,
    {
        let v = sanitize(0, image_size, rng(0, image_size));
        let mut seen = false;
        let mut k: usize = 0;
        while k < out.len()
            invariant
                0 <= k <= out@.len(),
                seen == exists|l: int| 0 <= l < k && out@[l] == v,
            decreases out@.len() - k,
        {
            if out[k] == v {
                seen = true;
            }
            k += 1;
        }
        if !seen {
            out.push(v);
        }
        fuel -= 1;
    }
    // Deterministic fallback: offer every value once, smallest first.
    let mut c: i64 = 0;
    while c < image_size && (out.len() as i64) < n
        invariant
            0 <= c <= image_size,
            out@.len() <= n,
            n <= image_size,
            forall|k: int| 0 <= k < out@.len() ==> 0 <= #[trigger] out@[k] < image_size,
            forall|k: int, l: int| 0 <= k < l < out@.len() ==> out@[k] != out@[l],
            forall|v: i64| 0 <= v < c ==> out@.contains(v),
        decreases image_size - c,
    {
        let mut seen = false;
        let mut k: usize = 0;
        while k < out.len()
            invariant
                0 <= k <= out@.len(),
                seen == exists|l: int| 0 <= l < k && out@[l] == c,
            decreases out@.len() - k,
        {
            if out[k] == c {
                seen = true;
            }
            k += 1;
        }
        let ghost pre = out@;
        if !seen {
            out.push(c);
        } else {
            assert(out@.contains(c));
        }
        proof {
            assert forall|v: i64| 0 <= v < c + 1 implies out@.contains(v) by {
                if v < c {
                    assert(pre.contains(v));
                    let j = choose|j: int| 0 <= j < pre.len() && pre[j] == v;
                    assert(out@[j] == v);
                } else {
                    if !seen {
                        assert(out@[out@.len() - 1] == c);
                    }
                }
            }
        }
        c += 1;
    }
    proof {
        if (out@.len() as i64) < n {
            assert(c == image_size);
            lemma_distinct_covers(out@, image_size as int);
            assert(false);
        }
    }
    out
}

/// A sequence of distinct values containing every integer of `[0, m)`
/// holds at least `m` entries.
proof fn lemma_distinct_covers(s: Seq<i64>, m: int)
    requires
        0 <= m <= 0x7FFF_FFFF,
        forall|v: i64| 0 <= v < m ==> s.contains(v),
        forall|k: int, l: int| 0 <= k < l < s.len() ==> s[k] != s[l],
    ensures
        s.len() >= m,
    decreases m,
{
    if m > 0 {
        assert(s.contains((m - 1) as i64));
        let idx = choose|i: int| 0 <= i < s.len() && s[i] == (m - 1) as i64;
        let s2 = s.remove(idx);
        assert forall|v: i64| 0 <= v < m - 1 implies s2.contains(v) by {
            assert(s.contains(v));
            let j = choose|j: int| 0 <= j < s.len() && s[j] == v;
            assert(v != (m - 1) as i64);
            assert(j != idx);
            if j < idx {
                assert(s2[j] == s[j]);
            } else {
                assert(s2[j - 1] == s[j]);
            }
        }
        assert forall|k: int, l: int| 0 <= k < l < s2.len() implies s2[k] != s2[l] by {
            let k0 = if k < idx { k } else { k + 1 };
            let l0 = if l < idx { l } else { l + 1 };
            assert(s2[k] == s[k0] && s2[l] == s[l0]);
        }
        lemma_distinct_covers(s2, m - 1);
    }
}

/// Distinct bar positions inside the frame.
pub open spec fn bars_ok(ps: Seq<i64>, image_size: int) -> bool {
    &&& forall|k: int| 0 <= k < ps.len() ==> 0 <= #[trigger] ps[k] < image_size
    &&& forall|k: int, l: int| 0 <= k < l < ps.len() ==> ps[k] != ps[l]
}

/// Whether `img` is some horizontal-bars image: for some drawn set of
/// rows, every cell follows [`hbar_cell`].
pub open spec fn hbar_image(img: Seq<Seq<u64>>, dimensions: int, image_size: int) -> bool {
    exists|ps: Seq<i64>|
        #![trigger bars_ok(ps, image_size)]
        {
            &&& bars_ok(ps, image_size)
            &&& 2 <= ps.len() < image_size / 2
            &&& img.len() == dimensions
            &&& (forall|x: int| 0 <= x < dimensions ==> (#[trigger] img[x]).len() == dimensions)
            &&& (forall|x: int, y: int|
                0 <= x < dimensions && 0 <= y < dimensions ==> #[trigger] img[x][y] == hbar_cell(
                    x,
                    ps,
                ))
        }
}

/// Whether `img` is some vertical-bars image: for some drawn set of
/// columns, every cell follows [`vbar_cell`].
pub open spec fn vbar_image(img: Seq<Seq<u64>>, dimensions: int, image_size: int) -> bool {
    exists|ps: Seq<i64>|
        #![trigger bars_ok(ps, image_size)]
        {
            &&& bars_ok(ps, image_size)
            &&& 2 <= ps.len() < image_size / 2
            &&& img.len() == dimensions
            &&& (forall|x: int| 0 <= x < dimensions ==> (#[trigger] img[x]).len() == dimensions)
            &&& (forall|x: int, y: int|
                0 <= x < dimensions && 0 <= y < dimensions ==> #[trigger] img[x][y] == vbar_cell(
                    y,
                    ps,
                ))
        }
}

/// The geometry a rectangle is drawn with.
pub open spec fn rect_ranges(sp0: int, sp1: int, h: int, w: int, image_size: int) -> bool {
    &&& 2 <= h < image_size
    &&& 2 <= w < image_size
    &&& 0 <= sp0 < image_size - h
    &&& 0 <= sp1 < image_size - w
}

/// Whether `img` is some rectangle-outline image on an
/// `image_size` × `image_size` frame: for some drawn geometry, every cell
/// follows [`rect_cell`].
pub open spec fn rect_image(img: Seq<Seq<u64>>, image_size: int) -> bool {
    exists|sp0: int, sp1: int, h: int, w: int|
        #![trigger rect_ranges(sp0, sp1, h, w, image_size)]
        {
            &&& rect_ranges(sp0, sp1, h, w, image_size)
            &&& img.len() == image_size
            &&& (forall|x: int| 0 <= x < image_size ==> (#[trigger] img[x]).len() == image_size)
            &&& (forall|x: int, y: int|
                0 <= x < image_size && 0 <= y < image_size ==> #[trigger] img[x][y] == rect_cell(
                    x,
                    y,
                    sp0,
                    sp1,
                    h,
                    w,
                ))
        }
}

/// Draws horizontal bars on randomly chosen rows.
pub fn generate_horizontal_bars<R: Fn(i64, i64) -> i64>(
    dimensions: i64,
    image_size: i64,
    center: bool,
    rng: &R,
) -> (r: Mat)
    requires
        1 <= dimensions <= 10_000,
        6 <= image_size <= 10_000,
        forall|a: (i64, i64)| #[trigger] call_requires(*rng, a),
    ensures
        r.wf(),
        r.spec_nrows() == dimensions,
        hbar_image(r@, dimensions as int, image_size as int),
{
    let bars = sanitize(2, image_size / 2, rng(2, image_size / 2));
    let ps = random_set(bars, image_size, rng);
    let n = dimensions as usize;
    let mut rows: Vec<Vec<u64>> = Vec::new();
    let mut x: usize = 0;
    while x < n
        invariant
            0 <= x <= n,
            n == dimensions,
            2 <= ps@.len() < image_size / 2,
            bars_ok(ps@, image_size as int),
            rows@.len() == x,
            forall|k: int| 0 <= k < x ==> (#[trigger] rows@[k])@.len() == n,
            forall|k: int, l: int|
                0 <= k < x && 0 <= l < n ==> #[trigger] rows@[k]@[l] == hbar_cell(k, ps@),
        decreases n - x,
    {
        let mut seen = false;
        let mut k: usize = 0;
        while k < ps.len()
            invariant
                0 <= k <= ps@.len(),
                x < n,
                seen == exists|l: int| 0 <= l < k && ps@[l] == x as i64,
            decreases ps@.len() - k,
        {
            if ps[k] == x as i64 {
                seen = true;
            }
            k += 1;
        }
        assert(seen == ps@.contains(x as i64));
        let v = if seen {
            ONE_BITS
        } else {
            ZERO_BITS
        };
        let mut row: Vec<u64> = Vec::new();
        let mut y: usize = 0;
        while y < n
            invariant
                0 <= y <= n,
                x < n,
                row@.len() == y,
                v == hbar_cell(x as int, ps@),
                forall|l: int| 0 <= l < y ==> #[trigger] row@[l] == v,
            decreases n - y,
        {
            row.push(v);
            y += 1;
        }
        rows.push(row);
        x += 1;
    }
    let out = Mat { rows };
    assert(is_rect(out@)) by {
        assert(forall|k: int| 0 <= k < out@.len() ==> (#[trigger] out@[k]).len() == n);
    }
    assert(hbar_image(out@, dimensions as int, image_size as int)) by {
        assert(bars_ok(ps@, image_size as int));
    }
    out
}

/// Draws vertical bars on randomly chosen columns.
pub fn generate_vertical_bars<R: Fn(i64, i64) -> i64>(
    dimensions: i64,
    image_size: i64,
    center: bool,
    rng: &R,
) -> (r: Mat)
    requires
        1 <= dimensions <= 10_000,
        6 <= image_size <= 10_000,
        forall|a: (i64, i64)| #[trigger] call_requires(*rng, a),
    ensures
        r.wf(),
        r.spec_nrows() == dimensions,
        vbar_image(r@, dimensions as int, image_size as int),
{
    let bars = sanitize(2, image_size / 2, rng(2, image_size / 2));
    let ps = random_set(bars, image_size, rng);
    let n = dimensions as usize;
    let mut rows: Vec<Vec<u64>> = Vec::new();
    let mut x: usize = 0;
    while x < n
        invariant
            0 <= x <= n,
            n == dimensions,
            2 <= ps@.len() < image_size / 2,
            bars_ok(ps@, image_size as int),
            rows@.len() == x,
            forall|k: int| 0 <= k < x ==> (#[trigger] rows@[k])@.len() == n,
            forall|k: int, l: int|
                0 <= k < x && 0 <= l < n ==> #[trigger] rows@[k]@[l] == vbar_cell(l, ps@),
        decreases n - x,
    {
        let mut row: Vec<u64> = Vec::new();
        let mut y: usize = 0;
        while y < n
            invariant
                0 <= y <= n,
                x < n,
                row@.len() == y,
                forall|l: int| 0 <= l < y ==> #[trigger] row@[l] == vbar_cell(l, ps@),
            decreases n - y,
        {
            let mut seen = false;
            let mut k: usize = 0;
            while k < ps.len()
                invariant
                    0 <= k <= ps@.len(),
                    y < n,
                    seen == exists|l: int| 0 <= l < k && ps@[l] == y as i64,
                decreases ps@.len() - k,
            {
                if ps[k] == y as i64 {
                    seen = true;
                }
                k += 1;
            }
            assert(seen == ps@.contains(y as i64));
            let v = if seen {
                ONE_BITS
            } else {
                ZERO_BITS
            };
            row.push(v);
            y += 1;
        }
        rows.push(row);
        x += 1;
    }
    let out = Mat { rows };
    assert(is_rect(out@)) by {
        assert(forall|k: int| 0 <= k < out@.len() ==> (#[trigger] out@[k]).len() == n);
    }
    assert(vbar_image(out@, dimensions as int, image_size as int)) by {
        assert(bars_ok(ps@, image_size as int));
    }
    out
}

/// Draws a hollow rectangle of random size at a random position on an
/// `image_size` × `image_size` frame.
pub fn generate_rectangles<R: Fn(i64, i64) -> i64>(
    dimensions: i64,
    image_size: i64,
    center: bool,
    rng: &R,
) -> (r: Mat)
    requires
        3 <= image_size <= 10_000,
        forall|a: (i64, i64)| #[trigger] call_requires(*rng, a),
    ensures
        r.wf(),
        r.spec_nrows() == image_size,
        rect_image(r@, image_size as int),
{
    let h = sanitize(2, image_size, rng(2, image_size));
    let w = sanitize(2, image_size, rng(2, image_size));
    let sp0 = sanitize(0, image_size - h, rng(0, image_size - h));
    let sp1 = sanitize(0, image_size - w, rng(0, image_size - w));
    let n = image_size as usize;
    let mut rows: Vec<Vec<u64>> = Vec::new();
    let mut x: usize = 0;
    while x < n
        invariant
            0 <= x <= n,
            n == image_size,
            rect_ranges(sp0 as int, sp1 as int, h as int, w as int, image_size as int),
            rows@.len() == x,
            forall|k: int| 0 <= k < x ==> (#[trigger] rows@[k])@.len() == n,
            forall|k: int, l: int|
                0 <= k < x && 0 <= l < n ==> #[trigger] rows@[k]@[l] == rect_cell(
                    k,
                    l,
                    sp0 as int,
                    sp1 as int,
                    h as int,
                    w as int,
                ),
        decreases n - x,
    {
        let mut row: Vec<u64> = Vec::new();
        let mut y: usize = 0;
        while y < n
            invariant
                0 <= y <= n,
                x < n,
                n == image_size,
                rect_ranges(sp0 as int, sp1 as int, h as int, w as int, image_size as int),
                row@.len() == y,
                forall|l: int|
                    0 <= l < y ==> #[trigger] row@[l] == rect_cell(
                        x as int,
                        l,
                        sp0 as int,
                        sp1 as int,
                        h as int,
                        w as int,
                    ),
            decreases n - y,
        {
            let xi = x as i64;
            let yi = y as i64;
            let v = if sp0 <= xi && xi < sp0 + h && (yi == sp1 || yi == sp1 + w) {
                ONE_BITS
            } else if sp1 <= yi && yi < sp1 + w && (xi == sp0 || xi == sp0 + h - 1) {
                ONE_BITS
            } else {
                ZERO_BITS
            };
            row.push(v);
            y += 1;
        }
        rows.push(row);
        x += 1;
    }
    let out = Mat { rows };
    assert(is_rect(out@)) by {
        assert(forall|k: int| 0 <= k < out@.len() ==> (#[trigger] out@[k]).len() == n);
    }
    assert(rect_image(out@, image_size as int)) by {
        assert(rect_ranges(sp0 as int, sp1 as int, h as int, w as int, image_size as int));
    }
    out
}

/// The one-hot target of a class index.
pub fn get_target(class: usize) -> (r: Vec<u64>)
    requires
        class < 4,
    ensures
        r@.len() == 4,
        forall|j: int| 0 <= j < 4 ==> #[trigger] r@[j] == (if j == class {
            ONE_BITS
        } else {
            ZERO_BITS
        }),
{
    let mut r: Vec<u64> = Vec::new();
    let mut j: usize = 0;
    while j < 4
        invariant
            0 <= j <= 4,
            r@.len() == j,
            forall|k: int| 0 <= k < j ==> #[trigger] r@[k] == (if k == class {
                ONE_BITS
            } else {
                ZERO_BITS
            }),
        decreases 4 - j,
    {
        if j == class {
            r.push(ONE_BITS);
        } else {
            r.push(ZERO_BITS);
        }
        j += 1;
    }
    r
}

/// Flips each binary cell with the drawn probability: a coin is tossed per
/// cell, and cells whose toss lands below the noise threshold swap 0.0 and
/// 1.0; all others collapse to plain 0.0 or 1.0.
pub fn random_particles<U: Fn() -> u64>(array: &Mat, noise_parameter: u64, coin: &U) -> (r: Mat)
    requires
        array.wf(),
        forall|a: ()| #[trigger] call_requires(*coin, a),
    ensures
        r.wf(),
        noised_rel(array@, noise_parameter, r@),
{
    let m = array.nrows();
    let n = array.ncols();
    let mut rows: Vec<Vec<u64>> = Vec::new();
    let ghost mut mdraws: Seq<Seq<u64>> = Seq::empty();
    let mut i: usize = 0;
    while i < m
        invariant
            0 <= i <= m,
            rows@.len() == i,
            mdraws.len() == i,
            forall|k: int| 0 <= k < i ==> (#[trigger] rows@[k])@.len() == n,
            forall|k: int| 0 <= k < i ==> (#[trigger] mdraws[k]).len() == n,
            forall|k: int, l: int|
                0 <= k < i && 0 <= l < n ==> #[trigger] rows@[k]@[l] == noise_cell(
                    array@[k][l],
                    noise_parameter,
                    mdraws[k][l],
                ),
        decreases m - i,
    {
        let mut row: Vec<u64> = Vec::new();
        let ghost mut rdraws: Seq<u64> = Seq::empty();
        let mut j: usize = 0;
        while j < n
            invariant
                0 <= j <= n,
                i < m,
                row@.len() == j,
                rdraws.len() == j,
                forall|l: int|
                    0 <= l < j ==> #[trigger] row@[l] == noise_cell(
                        array@[i as int][l],
                        noise_parameter,
                        rdraws[l],
                    ),
            decreases n - j,
        {
            assert(array@[i as int].len() == n);
            let c = array.rows[i][j];
            let rb = coin();
            let v = if fp_lt(rb, noise_parameter) {
                if fp_eq(c, ZERO_BITS) {
                    ONE_BITS
                } else {
                    ZERO_BITS
                }
            } else {
                if fp_eq(c, ZERO_BITS) {
                    ZERO_BITS
                } else {
                    ONE_BITS
                }
            };
            assert(v == noise_cell(c, noise_parameter, rb));
            row.push(v);
            proof {
                rdraws = rdraws.push(rb);
            }
            j += 1;
        }
        rows.push(row);
        proof {
            mdraws = mdraws.push(rdraws);
        }
        i += 1;
    }
    let out = Mat { rows };
    assert(is_rect(out@)) by {
        assert(forall|k: int| 0 <= k < out@.len() ==> (#[trigger] out@[k]).len() == n);
    }
    assert(noised_rel(array@, noise_parameter, out@)) by {
        assert forall|k: int, l: int|
            0 <= k < m && 0 <= l < n implies #[trigger] noised_cell_ok(
            array@,
            noise_parameter,
            out@,
            k,
            l,
        ) by {
            assert(out@[k][l] == rows@[k]@[l]);
            assert(out@[k][l] == noise_cell(array@[k][l], noise_parameter, mdraws[k][l]));
        }
        assert(forall|k: int|
            0 <= k < m ==> (#[trigger] out@[k]).len() == array@[k].len());
    }
    out
}

/// Whether an image is some noisy image of its class: circles,
/// rectangles, horizontal bars and vertical bars, in that cyclic order.
pub open spec fn class_image_ok(
    class: int,
    img: Seq<Seq<u64>>,
    dimensions: int,
    image_size: int,
    center: bool,
    noise: u64,
) -> bool {
    exists|base: Seq<Seq<u64>>|
        #![trigger noised_rel(base, noise, img)]
        {
            &&& noised_rel(base, noise, img)
            &&& if class == 0 {
                circle_image(base, dimensions, image_size, center)
            } else if class == 1 {
                rect_image(base, image_size)
            } else if class == 2 {
                hbar_image(base, dimensions, image_size)
            } else {
                vbar_image(base, dimensions, image_size)
            }
        }
}

/// Generates `size` samples cycling through the four classes, so the
/// classes stay nearly uniform; each image carries the drawn noise and a
/// one-hot target naming its class.
pub fn generate_dataset<R: Fn(i64, i64) -> i64, U: Fn() -> u64>(
    size: usize,
    dimension: i64,
    image_size: i64,
    centering: bool,
    noise_parameter: u64,
    rng: &R,
    coin: &U,
) -> (r: Vec<Sample>)
    requires
        1 <= dimension <= 10_000,
        6 <= image_size <= 10_000,
        forall|a: (i64, i64)| #[trigger] call_requires(*rng, a),
        forall|a: ()| #[trigger] call_requires(*coin, a),
    ensures
        r@.len() == size,
        forall|i: int|
            0 <= i < size ==> (#[trigger] r@[i]).target@.len() == 4 && (forall|j: int|
                0 <= j < 4 ==> r@[i].target@[j] == (if j == i % 4 {
                    ONE_BITS
                } else {
                    ZERO_BITS
                })),
        forall|i: int|
            0 <= i < size ==> class_image_ok(
                i % 4,
                (#[trigger] r@[i]).image@,
                dimension as int,
                image_size as int,
                centering,
                noise_parameter,
            ),
{
    let mut out: Vec<Sample> = Vec::new();
    while out.len() < size
        invariant
            out@.len() <= size,
            forall|i: int|
                0 <= i < out@.len() ==> (#[trigger] out@[i]).target@.len() == 4 && (forall|j: int|
                    0 <= j < 4 ==> out@[i].target@[j] == (if j == i % 4 {
                        ONE_BITS
                    } else {
                        ZERO_BITS
                    })),
            forall|i: int|
                0 <= i < out@.len() ==> class_image_ok(
                    i % 4,
                    (#[trigger] out@[i]).image@,
                    dimension as int,
                    image_size as int,
                    centering,
                    noise_parameter,
                ),
        decreases size - out@.len(),
    {
        let cls = out.len() % 4;
        let base = if cls == 0 {
            generate_circle(dimension, image_size, centering, rng)
        } else if cls == 1 {
            generate_rectangles(dimension, image_size, centering, rng)
        } else if cls == 2 {
            generate_horizontal_bars(dimension, image_size, centering, rng)
        } else {
            generate_vertical_bars(dimension, image_size, centering, rng)
        };
        let image = random_particles(&base, noise_parameter, coin);
        let target = get_target(cls);
        let ghost bview = base@;
        let s = Sample { image, target };
        proof {
            assert(class_image_ok(
                cls as int,
                s.image@,
                dimension as int,
                image_size as int,
                centering,
                noise_parameter,
            )) by {
                assert(noised_rel(bview, noise_parameter, s.image@));
            }
        }
        out.push(s);
    }
    out
}

/// The views of a dataset's samples, image beside target.
pub open spec fn sample_views(ds: Seq<Sample>) -> Seq<(Seq<Seq<u64>>, Seq<u64>)> {
    Seq::new(ds.len(), |i: int| (ds[i].image@, ds[i].target@))
}

/// Where the three-way split sends each sample, given its draw: below the
/// training share it trains, below the training and validation shares
/// together it validates, else it tests.
pub open spec fn split_rec(
    vs: Seq<(Seq<Seq<u64>>, Seq<u64>)>,
    draws: Seq<u64>,
    t: u64,
    tv: u64,
) -> (Seq<(Seq<Seq<u64>>, Seq<u64>)>, Seq<(Seq<Seq<u64>>, Seq<u64>)>, Seq<(Seq<Seq<u64>>, Seq<
    u64,
>)>)
    decreases vs.len(),
{
    if vs.len() == 0 {
        (Seq::empty(), Seq::empty(), Seq::empty())
    } else {
        let pre = split_rec(vs.drop_last(), draws.drop_last(), t, tv);
        let d = draws[vs.len() - 1];
        if lt_of(d, t) {
            (pre.0.push(vs.last()), pre.1, pre.2)
        } else if lt_of(d, add_of(t, tv)) {
            (pre.0, pre.1.push(vs.last()), pre.2)
        } else {
            (pre.0, pre.1, pre.2.push(vs.last()))
        }
    }
}

/// Splits a dataset into training, validation and test sets by one
/// independent draw per sample: for some drawn sequence, the three parts
/// are exactly what [`split_rec`] assigns.
pub fn split_dataset<U: Fn() -> u64>(
    dataset: &Vec<Sample>,
    train_size: u64,
    validation_size: u64,
    coin: &U,
) -> (r: (Vec<Sample>, Vec<Sample>, Vec<Sample>))
    requires
        forall|a: ()| #[trigger] call_requires(*coin, a),
    ensures
        exists|draws: Seq<u64>|
            #![trigger draws.len()]
            {
                &&& draws.len() == dataset@.len()
                &&& sample_views(r.0@) == split_rec(
                    sample_views(dataset@),
                    draws,
                    train_size,
                    validation_size,
                ).0
                &&& sample_views(r.1@) == split_rec(
                    sample_views(dataset@),
                    draws,
                    train_size,
                    validation_size,
                ).1
                &&& sample_views(r.2@) == split_rec(
                    sample_views(dataset@),
                    draws,
                    train_size,
                    validation_size,
                ).2
            },
{
    let n = dataset.len();
    let bound = fp_add(train_size, validation_size);
    let ghost svs = sample_views(dataset@);
    let mut tr: Vec<Sample> = Vec::new();
    let mut va: Vec<Sample> = Vec::new();
    let mut te: Vec<Sample> = Vec::new();
    let mut draws: Ghost<Seq<u64>> = Ghost(Seq::empty());
    let mut i: usize = 0;
    while i < n
        invariant
            0 <= i <= n,
            n == dataset@.len(),
            svs == sample_views(dataset@),
            draws@.len() == i,
            bound == add_of(train_size, validation_size),
            sample_views(tr@) == split_rec(svs.take(i as int), draws@, train_size, validation_size).0,
            sample_views(va@) == split_rec(svs.take(i as int), draws@, train_size, validation_size).1,
            sample_views(te@) == split_rec(svs.take(i as int), draws@, train_size, validation_size).2,
        decreases n - i,
    {
        let rb = coin();
        let s = Sample {
            image: dataset[i].image.duplicate(),
            target: crate::mat::duplicate_vec(&dataset[i].target),
        };
        let ghost old_draws = draws@;
        let ghost old_tr = sample_views(tr@);
        let ghost old_va = sample_views(va@);
        let ghost old_te = sample_views(te@);
        proof {
            draws@ = draws@.push(rb);
            assert(svs.take(i + 1).drop_last() =~= svs.take(i as int));
            assert(draws@.drop_last() =~= old_draws);
            assert(svs.take(i + 1).last() == svs[i as int]);
            assert(svs[i as int] == (dataset@[i as int].image@, dataset@[i as int].target@));
        }
        if fp_lt(rb, train_size) {
            tr.push(s);
            proof {
                assert(sample_views(tr@) =~= old_tr.push(svs[i as int]));
            }
        } else if fp_lt(rb, bound) {
            va.push(s);
            proof {
                assert(sample_views(va@) =~= old_va.push(svs[i as int]));
            }
        } else {
            te.push(s);
            proof {
                assert(sample_views(te@) =~= old_te.push(svs[i as int]));
            }
        }
        i += 1;
    }
    proof {
        assert(svs.take(n as int) =~= svs);
    }
    (tr, va, te)
}

} // verus!
