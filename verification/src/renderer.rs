//! Error-diffusion dithering of a true-colour frame towards the ANSI colour cube.
use vstd::prelude::*;
use crate::buffer::{Buffer, grid_has_shape, grid_update};

verus! {

/// The accumulated (red, green, blue) dithering errors of every pixel.
pub type ErrorGrid = Seq<Seq<(int, int, int)>>;

/// A frame being dithered: its pixels and the errors diffused so far.
pub type DitherState = (Seq<Seq<[u8; 3]>>, ErrorGrid);

/// What a channel value `v` loses when it is cut down to the ANSI cube level
/// at or below it (the levels are 95, 135, 175, 215 and 255; below 95 nothing
/// is lost).
pub open spec fn dither_channel_error(v: int) -> int {
    if v < 95 {
        0
    } else {
        let level = if 1 + (v - 95) / 40 < 5 { 1 + (v - 95) / 40 } else { 5 };
        v - ((level - 1) * 40 + 95)
    }
}

/// A channel value clamped into 0..=255.
pub open spec fn clamp_channel(v: int) -> u8 {
    if v > 255 {
        255
    } else if v < 0 {
        0
    } else {
        v as u8
    }
}

/// Whether a pixel is a shade of grey.
pub open spec fn is_grey(p: [u8; 3]) -> bool {
    p[0] == p[1] && p[1] == p[2]
}

/// The pixel written for input pixel `p` once the accumulated error `err` is
/// added to it, when `grey` says whether to write it as grey: each channel is
/// clamped, and a grey pixel takes the mean of the three clamped channels.
pub open spec fn dithered_pixel_as(p: [u8; 3], err: (int, int, int), grey: bool) -> [u8; 3] {
    let ra = clamp_channel(p[0] + err.0);
    let ga = clamp_channel(p[1] + err.1);
    let ba = clamp_channel(p[2] + err.2);
    if grey {
        let u = ((ra + ga + ba) / 3) as u8;
        [u, u, u]
    } else {
        [ra, ga, ba]
    }
}

/// The pixel written for input pixel `p` once the accumulated error `err` is
/// added to it: a grey input stays grey.
pub open spec fn dithered_pixel(p: [u8; 3], err: (int, int, int)) -> [u8; 3] {
    dithered_pixel_as(p, err, is_grey(p))
}

/// The errors that cutting the channels of `p`, each with its accumulated
/// error `err` added, to the ANSI cube makes.
pub open spec fn pixel_errors(p: [u8; 3], err: (int, int, int)) -> (int, int, int) {
    (
        dither_channel_error(p[0] + err.0),
        dither_channel_error(p[1] + err.1),
        dither_channel_error(p[2] + err.2),
    )
}

/// Adds `e / factor` to the error of pixel `(px, py)` when that pixel lies on
/// the `w` x `h` frame; pixels off the frame are ignored.
pub open spec fn add_diffused_error(
    errs: ErrorGrid,
    w: int,
    h: int,
    px: int,
    py: int,
    e: (int, int, int),
    factor: int,
) -> ErrorGrid {
    if 0 <= px < w && 0 <= py < h {
        let old_e = errs[py][px];
        grid_update(errs, py, px, (old_e.0 + e.0 / factor, old_e.1 + e.1 / factor, old_e.2 + e.2 / factor))
    } else {
        errs
    }
}

/// Burkes error diffusion of the error `e` made at pixel `(x, y)`:
/// ```text
///            X   8   4
///    2   4   8   4   2      (the error is divided by 32 / weight)
/// ```
pub open spec fn diffuse_error(errs: ErrorGrid, w: int, h: int, x: int, y: int, e: (int, int, int)) -> ErrorGrid {
    let e1 = add_diffused_error(errs, w, h, x + 1, y, e, 4);
    let e2 = add_diffused_error(e1, w, h, x + 2, y, e, 8);
    let e3 = add_diffused_error(e2, w, h, x - 2, y + 1, e, 16);
    let e4 = add_diffused_error(e3, w, h, x - 1, y + 1, e, 8);
    let e5 = add_diffused_error(e4, w, h, x, y + 1, e, 4);
    let e6 = add_diffused_error(e5, w, h, x + 1, y + 1, e, 8);
    add_diffused_error(e6, w, h, x + 2, y + 1, e, 16)
}

/// Dithers the pixel at `(x, y)`: writes its dithered value and diffuses the
/// error that cutting its error-adjusted channels to the ANSI cube makes.
pub open spec fn dither_step(s: DitherState, w: int, h: int, x: int, y: int) -> DitherState {
    let p = s.0[y][x];
    let err = s.1[y][x];
    (grid_update(s.0, y, x, dithered_pixel(p, err)), diffuse_error(s.1, w, h, x, y, pixel_errors(p, err)))
}

/// A `w` x `h` grid of zero errors.
pub open spec fn zero_errors(w: nat, h: nat) -> ErrorGrid {
    Seq::new(h, |y: int| Seq::new(w, |x: int| (0int, 0int, 0int)))
}

/// The state of dithering frame `img` after all rows above `y` and the first
/// `x` pixels of row `y` have been dithered, in row-major order.
pub open spec fn dither_upto(img: Seq<Seq<[u8; 3]>>, w: nat, h: nat, y: nat, x: nat) -> DitherState
    decreases y, x,
{
    if x == 0 {
        if y == 0 {
            (img, zero_errors(w, h))
        } else {
            dither_upto(img, w, h, (y - 1) as nat, w)
        }
    } else {
        dither_step(dither_upto(img, w, h, y, (x - 1) as nat), w as int, h as int, (x - 1) as int, y as int)
    }
}

/// The `w` x `h` frame `img` after Burkes dithering towards the ANSI colour cube.
pub open spec fn ansi_256_dithered(img: Seq<Seq<[u8; 3]>>, w: nat, h: nat) -> Seq<Seq<[u8; 3]>> {
    dither_upto(img, w, h, h, 0).0
}


/// Whether pixel `(sx, sy)` comes before pixel `(cx, cy)` in row-major order.
pub open spec fn comes_before(sx: int, sy: int, cx: int, cy: int) -> bool {
    sy < cy || (sy == cy && sx < cx)
}

/// `weight` when `b` holds, else 0.
pub open spec fn weight_if(b: bool, weight: int) -> int {
    if b {
        weight
    } else {
        0
    }
}

/// An upper bound on the error that pixel `(px, py)` can have accumulated
/// once every pixel before `(cx, cy)` has been dithered: a single pixel's error
/// is below 40, so each neighbour that diffuses into `(px, py)` adds at most
/// 39 divided by its factor.
pub open spec fn error_bound(px: int, py: int, cx: int, cy: int) -> int {
    weight_if(comes_before(px - 1, py, cx, cy), 9) + weight_if(comes_before(px - 2, py, cx, cy), 4)
        + weight_if(comes_before(px + 2, py - 1, cx, cy), 2) + weight_if(
        comes_before(px + 1, py - 1, cx, cy),
        4,
    ) + weight_if(comes_before(px, py - 1, cx, cy), 9) + weight_if(
        comes_before(px - 1, py - 1, cx, cy),
        4,
    ) + weight_if(comes_before(px - 2, py - 1, cx, cy), 2)
}

/// Every error of the `w` x `h` grid is non-negative and within
/// `error_bound` for the position `(cx, cy)` reached by the dithering pass.
pub open spec fn errors_within(errs: ErrorGrid, w: int, h: int, cx: int, cy: int) -> bool {
    forall|py: int, px: int|
        0 <= py < h && 0 <= px < w ==> {
            let e = #[trigger] errs[py][px];
            &&& 0 <= e.0 <= error_bound(px, py, cx, cy)
            &&& 0 <= e.1 <= error_bound(px, py, cx, cy)
            &&& 0 <= e.2 <= error_bound(px, py, cx, cy)
        }
}

/// The total that the Burkes pattern of pixel `(x, y)` adds to the error
/// `ec` of one channel of pixel `(qx, qy)`.
pub open spec fn diffused_amount(qx: int, qy: int, x: int, y: int, ec: int) -> int {
    weight_if(qx == x + 1 && qy == y, ec / 4) + weight_if(qx == x + 2 && qy == y, ec / 8)
        + weight_if(qx == x - 2 && qy == y + 1, ec / 16) + weight_if(
        qx == x - 1 && qy == y + 1,
        ec / 8,
    ) + weight_if(qx == x && qy == y + 1, ec / 4) + weight_if(qx == x + 1 && qy == y + 1, ec / 8)
        + weight_if(qx == x + 2 && qy == y + 1, ec / 16)
}

/// Whether diffusing the error `e` made at pixel `(x, y)` of the `w` x `h`
/// grid `errs` leaves every accumulated error within the range of `i16`.
pub open spec fn diffusion_fits(errs: ErrorGrid, w: int, h: int, x: int, y: int, e: (int, int, int)) -> bool {
    forall|qy: int, qx: int|
        0 <= qy < h && 0 <= qx < w ==> {
            let c = #[trigger] errs[qy][qx];
            &&& c.0 + diffused_amount(qx, qy, x, y, e.0) <= i16::MAX
            &&& c.1 + diffused_amount(qx, qy, x, y, e.1) <= i16::MAX
            &&& c.2 + diffused_amount(qx, qy, x, y, e.2) <= i16::MAX
        }
}

/// Dithering never darkens a channel of `p_in`, adds at most 34 to it, and a
/// grey pixel stays grey.
pub open spec fn dither_keeps(p_in: [u8; 3], p_out: [u8; 3]) -> bool {
    &&& is_grey(p_in) ==> is_grey(p_out)
    &&& p_in[0] <= p_out[0] <= p_in[0] + 34
    &&& p_in[1] <= p_out[1] <= p_in[1] + 34
    &&& p_in[2] <= p_out[2] <= p_in[2] + 34
}

proof fn lemma_channel_error_range(v: int)
    requires
        0 <= v <= 294,
    ensures
        0 <= dither_channel_error(v) <= 39,
{
}

proof fn lemma_channel_error_nonneg(v: int)
    ensures
        0 <= dither_channel_error(v),
        v >= 95 ==> dither_channel_error(v) <= v,
{
}

/// While the errors are within their bounds, diffusing an error below 40
/// cannot overflow an `i16`.
proof fn lemma_errors_within_fit(errs: ErrorGrid, w: int, h: int, x: int, y: int, e: (int, int, int))
    requires
        errors_within(errs, w, h, x, y),
        0 <= e.0 <= 39,
        0 <= e.1 <= 39,
        0 <= e.2 <= 39,
    ensures
        diffusion_fits(errs, w, h, x, y, e),
{
    assert forall|qy: int, qx: int| 0 <= qy < h && 0 <= qx < w implies {
        let c = #[trigger] errs[qy][qx];
        &&& c.0 + diffused_amount(qx, qy, x, y, e.0) <= i16::MAX
        &&& c.1 + diffused_amount(qx, qy, x, y, e.1) <= i16::MAX
        &&& c.2 + diffused_amount(qx, qy, x, y, e.2) <= i16::MAX
    } by {
        lemma_diffused_amount_bound(qx, qy, x, y, e.0);
        lemma_diffused_amount_bound(qx, qy, x, y, e.1);
        lemma_diffused_amount_bound(qx, qy, x, y, e.2);
        lemma_error_bound_at_most(qx, qy, x + 1, y);
    }
}

/// One addition of the Burkes pattern, made at a pixel that no earlier
/// addition touched, stays within `i16` when the whole diffusion does.
proof fn lemma_diffusion_step_fits(
    errs: ErrorGrid,
    cur: ErrorGrid,
    w: int,
    h: int,
    x: int,
    y: int,
    e: (int, int, int),
    px: int,
    py: int,
    factor: int,
)
    requires
        diffusion_fits(errs, w, h, x, y, e),
        0 <= px < w && 0 <= py < h ==> cur[py][px] == errs[py][px],
        diffused_amount(px, py, x, y, e.0) == e.0 / factor,
        diffused_amount(px, py, x, y, e.1) == e.1 / factor,
        diffused_amount(px, py, x, y, e.2) == e.2 / factor,
    ensures
        0 <= px < w && 0 <= py < h ==> {
            &&& cur[py][px].0 + e.0 / factor <= i16::MAX
            &&& cur[py][px].1 + e.1 / factor <= i16::MAX
            &&& cur[py][px].2 + e.2 / factor <= i16::MAX
        },
{
    if 0 <= px < w && 0 <= py < h {
        assert(errs[py][px] == cur[py][px]);
    }
}

proof fn lemma_add_diffused_error(
    errs: ErrorGrid,
    w: int,
    h: int,
    px: int,
    py: int,
    e: (int, int, int),
    factor: int,
)
    requires
        grid_has_shape(errs, w as nat, h as nat),
        w >= 0,
        h >= 0,
    ensures
        grid_has_shape(add_diffused_error(errs, w, h, px, py, e, factor), w as nat, h as nat),
        forall|qy: int, qx: int|
            0 <= qy < h && 0 <= qx < w ==> #[trigger] add_diffused_error(errs, w, h, px, py, e, factor)[qy][qx]
                == (errs[qy][qx].0 + weight_if(qx == px && qy == py, e.0 / factor), errs[qy][qx].1
                + weight_if(qx == px && qy == py, e.1 / factor), errs[qy][qx].2 + weight_if(
                qx == px && qy == py,
                e.2 / factor,
            )),
{
    let r = add_diffused_error(errs, w, h, px, py, e, factor);
    assert forall|qy: int| 0 <= qy < h implies #[trigger] r[qy].len() == w by {}
    assert forall|qy: int, qx: int| 0 <= qy < h && 0 <= qx < w implies #[trigger] r[qy][qx]
        == (errs[qy][qx].0 + weight_if(qx == px && qy == py, e.0 / factor), errs[qy][qx].1
            + weight_if(qx == px && qy == py, e.1 / factor), errs[qy][qx].2 + weight_if(
            qx == px && qy == py,
            e.2 / factor,
        )) by {}
}

proof fn lemma_diffuse_error(errs: ErrorGrid, w: int, h: int, x: int, y: int, e: (int, int, int))
    requires
        grid_has_shape(errs, w as nat, h as nat),
        w >= 0,
        h >= 0,
    ensures
        grid_has_shape(diffuse_error(errs, w, h, x, y, e), w as nat, h as nat),
        forall|qy: int, qx: int|
            0 <= qy < h && 0 <= qx < w ==> #[trigger] diffuse_error(errs, w, h, x, y, e)[qy][qx]
                == (errs[qy][qx].0 + diffused_amount(qx, qy, x, y, e.0), errs[qy][qx].1
                + diffused_amount(qx, qy, x, y, e.1), errs[qy][qx].2 + diffused_amount(qx, qy, x, y, e.2)),
{
    let e1 = add_diffused_error(errs, w, h, x + 1, y, e, 4);
    lemma_add_diffused_error(errs, w, h, x + 1, y, e, 4);
    let e2 = add_diffused_error(e1, w, h, x + 2, y, e, 8);
    lemma_add_diffused_error(e1, w, h, x + 2, y, e, 8);
    let e3 = add_diffused_error(e2, w, h, x - 2, y + 1, e, 16);
    lemma_add_diffused_error(e2, w, h, x - 2, y + 1, e, 16);
    let e4 = add_diffused_error(e3, w, h, x - 1, y + 1, e, 8);
    lemma_add_diffused_error(e3, w, h, x - 1, y + 1, e, 8);
    let e5 = add_diffused_error(e4, w, h, x, y + 1, e, 4);
    lemma_add_diffused_error(e4, w, h, x, y + 1, e, 4);
    let e6 = add_diffused_error(e5, w, h, x + 1, y + 1, e, 8);
    lemma_add_diffused_error(e5, w, h, x + 1, y + 1, e, 8);
    lemma_add_diffused_error(e6, w, h, x + 2, y + 1, e, 16);
    let r = diffuse_error(errs, w, h, x, y, e);
    assert forall|qy: int, qx: int| 0 <= qy < h && 0 <= qx < w implies #[trigger] r[qy][qx]
        == (errs[qy][qx].0 + diffused_amount(qx, qy, x, y, e.0), errs[qy][qx].1
            + diffused_amount(qx, qy, x, y, e.1), errs[qy][qx].2 + diffused_amount(qx, qy, x, y, e.2)) by {
        assert(e1[qy][qx] == (errs[qy][qx].0 + weight_if(qx == x + 1 && qy == y, e.0 / 4), errs[qy][qx].1
            + weight_if(qx == x + 1 && qy == y, e.1 / 4), errs[qy][qx].2 + weight_if(qx == x + 1 && qy == y, e.2 / 4)));
        assert(e2[qy][qx] == (e1[qy][qx].0 + weight_if(qx == x + 2 && qy == y, e.0 / 8), e1[qy][qx].1
            + weight_if(qx == x + 2 && qy == y, e.1 / 8), e1[qy][qx].2 + weight_if(qx == x + 2 && qy == y, e.2 / 8)));
        assert(e3[qy][qx] == (e2[qy][qx].0 + weight_if(qx == x - 2 && qy == y + 1, e.0 / 16), e2[qy][qx].1
            + weight_if(qx == x - 2 && qy == y + 1, e.1 / 16), e2[qy][qx].2 + weight_if(qx == x - 2 && qy == y + 1, e.2 / 16)));
        assert(e4[qy][qx] == (e3[qy][qx].0 + weight_if(qx == x - 1 && qy == y + 1, e.0 / 8), e3[qy][qx].1
            + weight_if(qx == x - 1 && qy == y + 1, e.1 / 8), e3[qy][qx].2 + weight_if(qx == x - 1 && qy == y + 1, e.2 / 8)));
        assert(e5[qy][qx] == (e4[qy][qx].0 + weight_if(qx == x && qy == y + 1, e.0 / 4), e4[qy][qx].1
            + weight_if(qx == x && qy == y + 1, e.1 / 4), e4[qy][qx].2 + weight_if(qx == x && qy == y + 1, e.2 / 4)));
        assert(e6[qy][qx] == (e5[qy][qx].0 + weight_if(qx == x + 1 && qy == y + 1, e.0 / 8), e5[qy][qx].1
            + weight_if(qx == x + 1 && qy == y + 1, e.1 / 8), e5[qy][qx].2 + weight_if(qx == x + 1 && qy == y + 1, e.2 / 8)));
    }
}

proof fn lemma_diffused_amount_bound(qx: int, qy: int, x: int, y: int, ec: int)
    requires
        0 <= ec <= 39,
    ensures
        0 <= diffused_amount(qx, qy, x, y, ec),
        error_bound(qx, qy, x, y) + diffused_amount(qx, qy, x, y, ec) <= error_bound(qx, qy, x + 1, y),
{
}


proof fn lemma_dithered_pixel_keeps(p: [u8; 3], err: (int, int, int))
    requires
        0 <= err.0 <= 34,
        0 <= err.1 <= 34,
        0 <= err.2 <= 34,
    ensures
        dither_keeps(p, dithered_pixel(p, err)),
{
}

proof fn lemma_error_bound_at_most(px: int, py: int, cx: int, cy: int)
    ensures
        0 <= error_bound(px, py, cx, cy) <= 34,
{
}

/// One dithering step keeps the errors within the bound for the next position.
proof fn lemma_dither_step_errors(s: DitherState, w: int, h: int, x: int, y: int)
    requires
        grid_has_shape(s.0, w as nat, h as nat),
        grid_has_shape(s.1, w as nat, h as nat),
        0 <= x < w,
        0 <= y < h,
        errors_within(s.1, w, h, x, y),
    ensures
        grid_has_shape(dither_step(s, w, h, x, y).0, w as nat, h as nat),
        grid_has_shape(dither_step(s, w, h, x, y).1, w as nat, h as nat),
        errors_within(dither_step(s, w, h, x, y).1, w, h, x + 1, y),
        dither_step(s, w, h, x, y).0[y][x] == dithered_pixel(s.0[y][x], s.1[y][x]),
        forall|qy: int, qx: int|
            0 <= qy < h && 0 <= qx < w && !(qy == y && qx == x) ==> #[trigger] dither_step(
                s,
                w,
                h,
                x,
                y,
            ).0[qy][qx] == s.0[qy][qx],
        0 <= s.1[y][x].0 <= 34,
        0 <= s.1[y][x].1 <= 34,
        0 <= s.1[y][x].2 <= 34,
{
    let p = s.0[y][x];
    let err = s.1[y][x];
    lemma_error_bound_at_most(x, y, x, y);
    let e = (
        dither_channel_error(p[0] + err.0),
        dither_channel_error(p[1] + err.1),
        dither_channel_error(p[2] + err.2),
    );
    lemma_channel_error_range(p[0] + err.0);
    lemma_channel_error_range(p[1] + err.1);
    lemma_channel_error_range(p[2] + err.2);
    lemma_diffuse_error(s.1, w, h, x, y, e);
    let r = dither_step(s, w, h, x, y);
    assert forall|qy: int, qx: int| 0 <= qy < h && 0 <= qx < w implies {
        let q = #[trigger] r.1[qy][qx];
        &&& 0 <= q.0 <= error_bound(qx, qy, x + 1, y)
        &&& 0 <= q.1 <= error_bound(qx, qy, x + 1, y)
        &&& 0 <= q.2 <= error_bound(qx, qy, x + 1, y)
    } by {
        lemma_diffused_amount_bound(qx, qy, x, y, e.0);
        lemma_diffused_amount_bound(qx, qy, x, y, e.1);
        lemma_diffused_amount_bound(qx, qy, x, y, e.2);
    }
    assert forall|qy: int| 0 <= qy < h implies #[trigger] r.0[qy].len() == w by {}
}

/// What holds of the dithering state once every pixel before `(x, y)` has
/// been dithered: the shapes are kept, the errors are within their bounds,
/// the dithered pixels obey `dither_keeps` and the others are untouched.
pub proof fn lemma_dither_upto(img: Seq<Seq<[u8; 3]>>, w: nat, h: nat, y: nat, x: nat)
    requires
        grid_has_shape(img, w, h),
        y <= h,
        x <= w,
        y == h ==> x == 0,
    ensures
        grid_has_shape(dither_upto(img, w, h, y, x).0, w, h),
        grid_has_shape(dither_upto(img, w, h, y, x).1, w, h),
        errors_within(dither_upto(img, w, h, y, x).1, w as int, h as int, x as int, y as int),
        forall|qy: int, qx: int|
            0 <= qy < h && 0 <= qx < w ==> if comes_before(qx, qy, x as int, y as int) {
                dither_keeps(img[qy][qx], #[trigger] dither_upto(img, w, h, y, x).0[qy][qx])
            } else {
                dither_upto(img, w, h, y, x).0[qy][qx] == img[qy][qx]
            },
    decreases y, x,
{
    let st = dither_upto(img, w, h, y, x);
    if x == 0 {
        if y == 0 {
            assert forall|qy: int| 0 <= qy < h implies #[trigger] st.1[qy].len() == w by {}
        } else {
            lemma_dither_upto(img, w, h, (y - 1) as nat, w);
        }
    } else {
        lemma_dither_upto(img, w, h, y, (x - 1) as nat);
        let prev = dither_upto(img, w, h, y, (x - 1) as nat);
        lemma_dither_step_errors(prev, w as int, h as int, (x - 1) as int, y as int);
        lemma_dithered_pixel_keeps(prev.0[y as int][x - 1], prev.1[y as int][x - 1]);
        assert forall|qy: int, qx: int| 0 <= qy < h && 0 <= qx < w implies if comes_before(
            qx,
            qy,
            x as int,
            y as int,
        ) {
            dither_keeps(img[qy][qx], #[trigger] st.0[qy][qx])
        } else {
            st.0[qy][qx] == img[qy][qx]
        } by {
            if qy == y && qx == x - 1 {
            } else {
                assert(st.0[qy][qx] == prev.0[qy][qx]);
            }
        }
    }
}

/// Dithering keeps every pixel's greyness, never darkens a channel and never
/// lightens one by more than 34.
pub proof fn lemma_dithering_keeps_pixels(img: Seq<Seq<[u8; 3]>>, w: nat, h: nat)
    requires
        grid_has_shape(img, w, h),
    ensures
        grid_has_shape(ansi_256_dithered(img, w, h), w, h),
        forall|y: int, x: int|
            0 <= y < h && 0 <= x < w ==> dither_keeps(img[y][x], #[trigger] ansi_256_dithered(img, w, h)[y][x]),
{
    lemma_dither_upto(img, w, h, h, 0);
}


/// The accumulated errors of an error buffer, as integers.
pub open spec fn error_cells(g: Seq<Seq<(i16, i16, i16)>>) -> ErrorGrid {
    Seq::new(
        g.len(),
        |y: int| Seq::new(g[y].len(), |x: int| (g[y][x].0 as int, g[y][x].1 as int, g[y][x].2 as int)),
    )
}

/// Dithers `screen_buffer` in place towards the ANSI 256-colour cube, so that
/// the banding of the cube's coarse levels is spread as noise: pixels are
/// visited in row-major order and each one's quantisation error is diffused
/// to its not yet visited neighbours with Burkes weights.
pub fn apply_ansi_256_dithering(screen_buffer: &mut Buffer<[u8; 3]>)
    requires
        old(screen_buffer).wf(),
        old(screen_buffer).width() <= 32766,
        old(screen_buffer).height() <= 32767,
    ensures
        final(screen_buffer).wf(),
        final(screen_buffer).width() == old(screen_buffer).width(),
        final(screen_buffer).height() == old(screen_buffer).height(),
        final(screen_buffer)@ == ansi_256_dithered(
            old(screen_buffer)@,
            old(screen_buffer).width() as nat,
            old(screen_buffer).height() as nat,
        ),
{
    let width = screen_buffer.width();
    let height = screen_buffer.height();
    let ghost img = screen_buffer@;
    let ghost w = width as nat;
    let ghost h = height as nat;
    let mut dithering_errors = Buffer::<(i16, i16, i16)>::new((0, 0, 0), width, height);
    assert(error_cells(dithering_errors@) =~~= zero_errors(w, h));
    for y in 0..height
        invariant
            width == w,
            height == h,
            w <= 32766,
            h <= 32767,
            grid_has_shape(img, w, h),
            screen_buffer.wf(),
            screen_buffer.width() == width,
            screen_buffer.height() == height,
            dithering_errors.wf(),
            dithering_errors.width() == width,
            dithering_errors.height() == height,
            screen_buffer@ == dither_upto(img, w, h, y as nat, 0).0,
            error_cells(dithering_errors@) == dither_upto(img, w, h, y as nat, 0).1,
    {
        for x in 0..width
            invariant
                width == w,
                height == h,
                w <= 32766,
                h <= 32767,
                y < h,
                grid_has_shape(img, w, h),
                screen_buffer.wf(),
                screen_buffer.width() == width,
                screen_buffer.height() == height,
                dithering_errors.wf(),
                dithering_errors.width() == width,
                dithering_errors.height() == height,
                screen_buffer@ == dither_upto(img, w, h, y as nat, x as nat).0,
                error_cells(dithering_errors@) == dither_upto(img, w, h, y as nat, x as nat).1,
        {
            proof {
                lemma_dither_upto(img, w, h, y as nat, x as nat);
            }
            let pixel = screen_buffer.get(y, x);
            let r = pixel[0];
            let g = pixel[1];
            let b = pixel[2];
            proof {
                let st = dither_upto(img, w, h, y as nat, x as nat);
                let err = st.1[y as int][x as int];
                assert(pixel =~= [r, g, b]);
                assert(0 <= err.0 <= error_bound(x as int, y as int, x as int, y as int));
                lemma_error_bound_at_most(x as int, y as int, x as int, y as int);
                lemma_channel_error_range(r + err.0);
                lemma_channel_error_range(g + err.1);
                lemma_channel_error_range(b + err.2);
                lemma_errors_within_fit(st.1, w as int, h as int, x as int, y as int, pixel_errors([r, g, b], err));
            }

            // Calculates dithering for ansi color banding
            let is_grey_scale = r == g && g == b;
            let (dr, dg, db) = calculate_dithered_pixel_value(
                x,
                y,
                r,
                g,
                b,
                &mut dithering_errors,
                is_grey_scale,
            );
            screen_buffer.set(y, x, [dr, dg, db]);
            proof {
                let st = dither_upto(img, w, h, y as nat, x as nat);
                assert(pixel =~= [r, g, b]);
                assert([dr, dg, db] =~= dithered_pixel(st.0[y as int][x as int], st.1[y as int][x as int]));
            }
        }
    }
}

fn dither_channel_error_exec(v: i16) -> (e: i16)
    ensures
        e == dither_channel_error(v as int),
{
    if v < 95 {
        return 0;
    }
    let q = 1 + (v - 95) / 40;
    let a = if q < 5 { q } else { 5 };
    let c = (a - 1) * 40 + 95;
    v - c
}

fn clamp_channel_exec(v: i16) -> (c: u8)
    ensures
        c == clamp_channel(v as int),
{
    if v > 255 {
        255
    } else if v < 0 {
        0
    } else {
        v as u8
    }
}

fn add_diffused_error_exec(
    dithering_errors: &mut Buffer<(i16, i16, i16)>,
    x: i16,
    y: i16,
    r_error: i16,
    g_error: i16,
    b_error: i16,
    factor: i16,
)
    requires
        old(dithering_errors).wf(),
        old(dithering_errors).width() <= 32767,
        old(dithering_errors).height() <= 32767,
        factor > 0,
        r_error >= 0,
        g_error >= 0,
        b_error >= 0,
        (0 <= x < old(dithering_errors).width() && 0 <= y < old(dithering_errors).height()) ==> {
            let e = error_cells(old(dithering_errors)@)[y as int][x as int];
            &&& e.0 + r_error / factor <= 32767
            &&& e.1 + g_error / factor <= 32767
            &&& e.2 + b_error / factor <= 32767
        },
    ensures
        final(dithering_errors).wf(),
        final(dithering_errors).width() == old(dithering_errors).width(),
        final(dithering_errors).height() == old(dithering_errors).height(),
        error_cells(final(dithering_errors)@) == add_diffused_error(
            error_cells(old(dithering_errors)@),
            old(dithering_errors).width() as int,
            old(dithering_errors).height() as int,
            x as int,
            y as int,
            (r_error as int, g_error as int, b_error as int),
            factor as int,
        ),
{
    let width = dithering_errors.width();
    let height = dithering_errors.height();
    if x >= 0 && y >= 0 && x < (width as i16) && y < (height as i16) {
        let cell = dithering_errors.get(y as usize, x as usize);
        let updated = (cell.0 + r_error / factor, cell.1 + g_error / factor, cell.2 + b_error / factor);
        dithering_errors.set(y as usize, x as usize, updated);
        assert(error_cells(dithering_errors@) =~~= add_diffused_error(
            error_cells(old(dithering_errors)@),
            width as int,
            height as int,
            x as int,
            y as int,
            (r_error as int, g_error as int, b_error as int),
            factor as int,
        ));
    }
}

/// Dithers the pixel `(x, y)` of colour `(r, g, b)`: adds the error
/// accumulated there, returns the clamped channels (their mean on all three
/// when `is_grey_scale`), and diffuses the error that cutting each channel to
/// the ANSI cube makes to the neighbours with Burkes weights.
fn calculate_dithered_pixel_value(
    x: usize,
    y: usize,
    r: u8,
    g: u8,
    b: u8,
    dithering_errors: &mut Buffer<(i16, i16, i16)>,
    is_grey_scale: bool,
) -> (pixel: (u8, u8, u8))
    requires
        old(dithering_errors).wf(),
        old(dithering_errors).width() <= 32766,
        old(dithering_errors).height() <= 32767,
        x < old(dithering_errors).width(),
        y < old(dithering_errors).height(),
        ({
            let err = error_cells(old(dithering_errors)@)[y as int][x as int];
            &&& r + err.0 <= i16::MAX
            &&& g + err.1 <= i16::MAX
            &&& b + err.2 <= i16::MAX
            &&& diffusion_fits(
                error_cells(old(dithering_errors)@),
                old(dithering_errors).width() as int,
                old(dithering_errors).height() as int,
                x as int,
                y as int,
                pixel_errors([r, g, b], err),
            )
        }),
    ensures
        final(dithering_errors).wf(),
        final(dithering_errors).width() == old(dithering_errors).width(),
        final(dithering_errors).height() == old(dithering_errors).height(),
        ({
            let err = error_cells(old(dithering_errors)@)[y as int][x as int];
            &&& [pixel.0, pixel.1, pixel.2] == dithered_pixel_as([r, g, b], err, is_grey_scale)
            &&& error_cells(final(dithering_errors)@) == diffuse_error(
                error_cells(old(dithering_errors)@),
                old(dithering_errors).width() as int,
                old(dithering_errors).height() as int,
                x as int,
                y as int,
                pixel_errors([r, g, b], err),
            )
        }),
{
    let ghost w = dithering_errors.width() as int;
    let ghost h = dithering_errors.height() as int;
    let ghost errs0 = error_cells(dithering_errors@);
    let ghost err = errs0[y as int][x as int];
    let cell = dithering_errors.get(y, x);
    assert(cell.0 as int == err.0 && cell.1 as int == err.1 && cell.2 as int == err.2);
    let r: i16 = (r as i16) + cell.0;
    let g: i16 = (g as i16) + cell.1;
    let b: i16 = (b as i16) + cell.2;

    // Calculates error of casting to the nearest ansi color
    let re = dither_channel_error_exec(r);
    let ge = dither_channel_error_exec(g);
    let be = dither_channel_error_exec(b);
    proof {
        lemma_channel_error_nonneg(r as int);
        lemma_channel_error_nonneg(g as int);
        lemma_channel_error_nonneg(b as int);
    }

    let ra = clamp_channel_exec(r);
    let ga = clamp_channel_exec(g);
    let ba = clamp_channel_exec(b);

    /* Burkes Dithering
                X   8   4
        2   4   8   4   2
    */
    let ghost e = (re as int, ge as int, be as int);
    let cx = x as i16;
    let cy = y as i16;
    let ghost e1 = add_diffused_error(errs0, w, h, x + 1, y as int, e, 4);
    proof {
        lemma_add_diffused_error(errs0, w, h, x + 1, y as int, e, 4);
        lemma_diffusion_step_fits(errs0, errs0, w, h, x as int, y as int, e, x + 1, y as int, 4);
    }
    add_diffused_error_exec(dithering_errors, cx + 1, cy, re, ge, be, 4);
    let ghost e2 = add_diffused_error(e1, w, h, x + 2, y as int, e, 8);
    proof {
        lemma_add_diffused_error(e1, w, h, x + 2, y as int, e, 8);
        lemma_diffusion_step_fits(errs0, e1, w, h, x as int, y as int, e, x + 2, y as int, 8);
    }
    add_diffused_error_exec(dithering_errors, cx + 2, cy, re, ge, be, 8);
    let ghost e3 = add_diffused_error(e2, w, h, x - 2, y + 1, e, 16);
    proof {
        lemma_add_diffused_error(e2, w, h, x - 2, y + 1, e, 16);
        lemma_diffusion_step_fits(errs0, e2, w, h, x as int, y as int, e, x - 2, y + 1, 16);
    }
    add_diffused_error_exec(dithering_errors, cx - 2, cy + 1, re, ge, be, 16);
    let ghost e4 = add_diffused_error(e3, w, h, x - 1, y + 1, e, 8);
    proof {
        lemma_add_diffused_error(e3, w, h, x - 1, y + 1, e, 8);
        lemma_diffusion_step_fits(errs0, e3, w, h, x as int, y as int, e, x - 1, y + 1, 8);
    }
    add_diffused_error_exec(dithering_errors, cx - 1, cy + 1, re, ge, be, 8);
    let ghost e5 = add_diffused_error(e4, w, h, x as int, y + 1, e, 4);
    proof {
        lemma_add_diffused_error(e4, w, h, x as int, y + 1, e, 4);
        lemma_diffusion_step_fits(errs0, e4, w, h, x as int, y as int, e, x as int, y + 1, 4);
    }
    add_diffused_error_exec(dithering_errors, cx, cy + 1, re, ge, be, 4);
    let ghost e6 = add_diffused_error(e5, w, h, x + 1, y + 1, e, 8);
    proof {
        lemma_add_diffused_error(e5, w, h, x + 1, y + 1, e, 8);
        lemma_diffusion_step_fits(errs0, e5, w, h, x as int, y as int, e, x + 1, y + 1, 8);
    }
    add_diffused_error_exec(dithering_errors, cx + 1, cy + 1, re, ge, be, 8);
    proof {
        lemma_diffusion_step_fits(errs0, e6, w, h, x as int, y as int, e, x + 2, y + 1, 16);
    }
    add_diffused_error_exec(dithering_errors, cx + 2, cy + 1, re, ge, be, 16);

    if is_grey_scale {
        let u = ((ra as u16 + ga as u16 + ba as u16) / 3) as u8;
        return (u, u, u);
    }
    (ra, ga, ba)
}

} // verus!
