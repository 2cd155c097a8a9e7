//! Contrast-Limited Adaptive Histogram Equalization (CLAHE).
//!
//! The image is divided into a square grid of tiles. Each tile gets a
//! 256-bin histogram, clipped at a fraction of the tile's pixel count, with
//! the clipped excess redistributed uniformly (integer share to every bin,
//! remainder to the lowest bins). The cumulative distribution of each tile
//! is normalized to [0, 255] with the lowest nonzero cumulative value as the
//! anchor. Every output pixel bilinearly blends the mappings of the four
//! surrounding tiles, by tile-center coordinates.
//!
//! All arithmetic is exact fixed-point integer arithmetic: interpolation
//! weights are rationals with denominator twice the tile side, and tile
//! mappings are scaled by `NORM_SCALE`.

use vstd::prelude::*;
use vstd::arithmetic::div_mod::lemma_fundamental_div_mod_converse;

verus! {

/// Fixed-point scale of the normalized per-tile mappings.
pub const NORM_SCALE: u64 = 65536;

/// Largest accepted pixel count of an image; keeps the histogram arithmetic
/// inside 64-bit integers.
pub const MAX_PIXELS: usize = 0x40000000;

/// Occurrences of `v` in the `len` bytes starting at `base`.
pub open spec fn row_count(data: Seq<u8>, base: int, len: int, v: u8) -> nat
    decreases len,
{
    if len <= 0 {
        0
    } else {
        row_count(data, base, len - 1, v) + if data[base + len - 1] == v {
            1nat
        } else {
            0nat
        }
    }
}

/// Occurrences of `v` in the first `rows` rows of a `tw`-wide tile whose
/// top-left corner is `(x0, y0)` in a `w`-wide image.
pub open spec fn region_count(
    data: Seq<u8>,
    w: int,
    x0: int,
    y0: int,
    tw: int,
    rows: int,
    v: u8,
) -> nat
    decreases rows,
{
    if rows <= 0 {
        0
    } else {
        region_count(data, w, x0, y0, tw, rows - 1, v) + row_count(
            data,
            (y0 + rows - 1) * w + x0,
            tw,
            v,
        )
    }
}

/// A row holds at most `len` occurrences.
proof fn lemma_row_count_bound(data: Seq<u8>, base: int, len: int, v: u8)
    ensures
        row_count(data, base, len, v) <= if len <= 0 {
            0int
        } else {
            len
        },
    decreases len,
{
    if len > 0 {
        lemma_row_count_bound(data, base, len - 1, v);
    }
}

/// A tile region holds at most `rows * tw` occurrences.
proof fn lemma_region_count_bound(
    data: Seq<u8>,
    w: int,
    x0: int,
    y0: int,
    tw: int,
    rows: int,
    v: u8,
)
    requires
        tw >= 0,
    ensures
        region_count(data, w, x0, y0, tw, rows, v) <= if rows <= 0 {
            0int
        } else {
            rows * tw
        },
    decreases rows,
{
    if rows > 0 {
        lemma_region_count_bound(data, w, x0, y0, tw, rows - 1, v);
        lemma_row_count_bound(data, (y0 + rows - 1) * w + x0, tw, v);
        assert((rows - 1) * tw + tw == rows * tw) by (nonlinear_arith);
        assert(rows * tw >= tw >= 0) by (nonlinear_arith)
            requires
                rows >= 1,
                tw >= 0,
        ;
    }
}

/// Histogram bin `v` of the tile at `(x0, y0)`.
pub open spec fn hist_of(data: Seq<u8>, w: int, x0: int, y0: int, tw: int, th: int, v: int) -> int {
    region_count(data, w, x0, y0, tw, th, v as u8) as int
}

/// The clip limit: `clip_ppm` millionths of the tile pixel count, rounded
/// down.
pub open spec fn clip_of(tw: int, th: int, clip_ppm: int) -> int {
    clip_ppm * (tw * th) / 1000000
}

/// Histogram bin after clipping.
pub open spec fn clipped_bin(
    data: Seq<u8>,
    w: int,
    x0: int,
    y0: int,
    tw: int,
    th: int,
    clip: int,
    v: int,
) -> int {
    let hv = hist_of(data, w, x0, y0, tw, th, v);
    if hv > clip {
        clip
    } else {
        hv
    }
}

/// Total clipped excess over the bins below `nbins`.
pub open spec fn excess_prefix(
    data: Seq<u8>,
    w: int,
    x0: int,
    y0: int,
    tw: int,
    th: int,
    clip: int,
    nbins: int,
) -> int
    decreases nbins,
{
    if nbins <= 0 {
        0
    } else {
        let hv = hist_of(data, w, x0, y0, tw, th, nbins - 1);
        excess_prefix(data, w, x0, y0, tw, th, clip, nbins - 1) + if hv > clip {
            hv - clip
        } else {
            0
        }
    }
}

/// The clipped excess is bounded by the number of summed bins times the
/// tile pixel count.
proof fn lemma_excess_prefix_bound(
    data: Seq<u8>,
    w: int,
    x0: int,
    y0: int,
    tw: int,
    th: int,
    clip: int,
    nbins: int,
)
    requires
        tw >= 0,
        th >= 0,
        clip >= 0,
    ensures
        0 <= excess_prefix(data, w, x0, y0, tw, th, clip, nbins) <= if nbins <= 0 {
            0int
        } else {
            nbins * (tw * th)
        },
    decreases nbins,
{
    if nbins > 0 {
        lemma_excess_prefix_bound(data, w, x0, y0, tw, th, clip, nbins - 1);
        lemma_region_count_bound(data, w, x0, y0, tw, th, (nbins - 1) as u8);
        assert(th * tw == tw * th) by (nonlinear_arith);
        assert((nbins - 1) * (tw * th) + (tw * th) == nbins * (tw * th)) by (nonlinear_arith);
    }
}

/// Histogram bin after clipping and uniform redistribution of the excess:
/// every bin gains the integer share, and the lowest `excess % 256` bins one
/// more.
pub open spec fn adj_bin(
    data: Seq<u8>,
    w: int,
    x0: int,
    y0: int,
    tw: int,
    th: int,
    clip: int,
    v: int,
) -> int {
    let excess = excess_prefix(data, w, x0, y0, tw, th, clip, 256);
    clipped_bin(data, w, x0, y0, tw, th, clip, v) + excess / 256 + if v < excess % 256 {
        1int
    } else {
        0int
    }
}

/// Cumulative distribution over the adjusted bins up to and including `v`.
pub open spec fn cdf_at(
    data: Seq<u8>,
    w: int,
    x0: int,
    y0: int,
    tw: int,
    th: int,
    clip: int,
    v: int,
) -> int
    decreases v + 1,
{
    if v < 0 {
        0
    } else {
        cdf_at(data, w, x0, y0, tw, th, clip, v - 1) + adj_bin(data, w, x0, y0, tw, th, clip, v)
    }
}

/// The first positive cumulative value at or above bin `v` (0 when none).
pub open spec fn first_pos_cdf(
    data: Seq<u8>,
    w: int,
    x0: int,
    y0: int,
    tw: int,
    th: int,
    clip: int,
    v: int,
) -> int
    decreases 256 - v,
{
    if v >= 256 {
        0
    } else if cdf_at(data, w, x0, y0, tw, th, clip, v) > 0 {
        cdf_at(data, w, x0, y0, tw, th, clip, v)
    } else {
        first_pos_cdf(data, w, x0, y0, tw, th, clip, v + 1)
    }
}

/// Normalized mapping of the tile at grid cell `(row, col)` for pixel value
/// `v`, scaled by `NORM_SCALE`: the cumulative value rescaled to [0, 255]
/// with the lowest nonzero cumulative value as the lower anchor. When the
/// anchor consumes the whole range, the raw cumulative value is used,
/// capped at 255.
#[verifier::opaque]
pub open spec fn norm_bin(
    data: Seq<u8>,
    w: int,
    tw: int,
    th: int,
    clip: int,
    row: int,
    col: int,
    v: int,
) -> int {
    let x0 = col * tw;
    let y0 = row * th;
    let cdfv = cdf_at(data, w, x0, y0, tw, th, clip, v);
    let cdf_min = first_pos_cdf(data, w, x0, y0, tw, th, clip, 0);
    let denom = tw * th - cdf_min;
    if denom > 0 {
        let c = if cdfv - cdf_min < 0 {
            0int
        } else {
            cdfv - cdf_min
        };
        let q = c * 255 * (NORM_SCALE as int) / denom;
        if q > 255 * (NORM_SCALE as int) {
            255 * (NORM_SCALE as int)
        } else {
            q
        }
    } else {
        let c = if cdfv > 255 {
            255int
        } else {
            cdfv
        };
        c * (NORM_SCALE as int)
    }
}

/// Bilinear mix of four mapped values with the given fixed-point weights,
/// rounded to the nearest output level and capped at 255.
pub open spec fn blend_spec(
    dx_span: int,
    dy_span: int,
    dx: int,
    dy: int,
    tl: int,
    tr: int,
    bl: int,
    br: int,
) -> int {
    let top = (dx_span - dx) * tl + dx * tr;
    let bot = (dx_span - dx) * bl + dx * br;
    let val = (dy_span - dy) * top + dy * bot;
    let denom_all = dx_span * dy_span * (NORM_SCALE as int);
    let rounded = (val + denom_all / 2) / denom_all;
    if rounded > 255 {
        255int
    } else {
        rounded
    }
}

/// The blended, rounded output value of the pixel at `(x, y)` whose input
/// value is `p`: a bilinear mix of the four surrounding tile mappings, with
/// weights taken from the pixel's position between the tile centers.
pub open spec fn clahe_pixel(
    data: Seq<u8>,
    w: int,
    tiles: int,
    tw: int,
    th: int,
    clip: int,
    x: int,
    y: int,
) -> int {
    let p = data[y * w + x] as int;
    let dx_span = 2 * tw;
    let dy_span = 2 * th;
    let fx_raw = 2 * x - tw;
    let fy_raw = 2 * y - th;
    let fx = if fx_raw < 0 {
        0int
    } else if fx_raw > (tiles - 1) * dx_span {
        (tiles - 1) * dx_span
    } else {
        fx_raw
    };
    let fy = if fy_raw < 0 {
        0int
    } else if fy_raw > (tiles - 1) * dy_span {
        (tiles - 1) * dy_span
    } else {
        fy_raw
    };
    let c0 = fx / dx_span;
    let r0 = fy / dy_span;
    let dx = fx % dx_span;
    let dy = fy % dy_span;
    let c1 = if c0 + 1 <= tiles - 1 {
        c0 + 1
    } else {
        tiles - 1
    };
    let r1 = if r0 + 1 <= tiles - 1 {
        r0 + 1
    } else {
        tiles - 1
    };
    let tl = norm_bin(data, w, tw, th, clip, r0, c0, p);
    let tr = norm_bin(data, w, tw, th, clip, r0, c1, p);
    let bl = norm_bin(data, w, tw, th, clip, r1, c0, p);
    let br = norm_bin(data, w, tw, th, clip, r1, c1, p);
    blend_spec(dx_span, dy_span, dx, dy, tl, tr, bl, br)
}

/// Inputs on which the enhancement leaves the image untouched: an empty or
/// undersized image, or a grid whose tiles would be empty.
pub open spec fn clahe_degenerate(data: Seq<u8>, w: int, h: int, tiles: int) -> bool {
    w == 0 || h == 0 || data.len() < w * h || w / tiles == 0 || h / tiles == 0
}

/// The enhanced image as a function of the input image: untouched when
/// degenerate, otherwise every pixel of the `w * h` area blended through the
/// tile mappings and the remainder untouched.
pub open spec fn clahe_spec(data: Seq<u8>, w: int, h: int, tiles: int, clip_ppm: int) -> Seq<u8> {
    if clahe_degenerate(data, w, h, tiles) {
        data
    } else {
        Seq::new(
            data.len(),
            |k: int|
                if k < w * h {
                    clahe_pixel(
                        data,
                        w,
                        tiles,
                        w / tiles,
                        h / tiles,
                        clip_of(w / tiles, h / tiles, clip_ppm),
                        k % w,
                        k / w,
                    ) as u8
                } else {
                    data[k]
                },
        )
    }
}

/// Bound on a product of two factors with separate bounds.
proof fn lemma_mul_le(x: int, mx: int, y: int, my: int)
    requires
        0 <= x <= mx,
        0 <= y <= my,
    ensures
        0 <= x * y <= mx * my,
{
    assert(0 <= x * y <= mx * my) by (nonlinear_arith)
        requires
            0 <= x <= mx,
            0 <= y <= my,
    ;
}

/// Every adjusted bin lies between 0 and twice the tile pixel count plus one.
proof fn lemma_adj_bin_bound(
    data: Seq<u8>,
    w: int,
    x0: int,
    y0: int,
    tw: int,
    th: int,
    clip: int,
    v: int,
)
    requires
        tw >= 0,
        th >= 0,
        0 <= clip <= tw * th,
    ensures
        0 <= adj_bin(data, w, x0, y0, tw, th, clip, v) <= 2 * (tw * th) + 1,
{
    lemma_excess_prefix_bound(data, w, x0, y0, tw, th, clip, 256);
    lemma_region_count_bound(data, w, x0, y0, tw, th, v as u8);
    assert(th * tw == tw * th) by (nonlinear_arith);
    let excess = excess_prefix(data, w, x0, y0, tw, th, clip, 256);
    vstd::arithmetic::div_mod::lemma_div_pos_is_pos(excess, 256);
    assert(excess / 256 <= (256 * (tw * th)) / 256) by {
        vstd::arithmetic::div_mod::lemma_div_is_ordered(excess, 256 * (tw * th), 256);
    }
    vstd::arithmetic::div_mod::lemma_div_by_multiple(tw * th, 256);
}

/// Every cumulative value lies between 0 and a linear bound in the bin index.
proof fn lemma_cdf_bound(
    data: Seq<u8>,
    w: int,
    x0: int,
    y0: int,
    tw: int,
    th: int,
    clip: int,
    v: int,
)
    requires
        tw >= 0,
        th >= 0,
        0 <= clip <= tw * th,
        -1 <= v < 256,
    ensures
        0 <= cdf_at(data, w, x0, y0, tw, th, clip, v) <= 256 * (2 * (tw * th) + 1),
{
    if v >= 0 {
        lemma_cdf_bound_helper(data, w, x0, y0, tw, th, clip, v);
        assert((v + 1) * (2 * (tw * th) + 1) <= 256 * (2 * (tw * th) + 1)) by (nonlinear_arith)
            requires
                0 <= v + 1 <= 256,
                2 * (tw * th) + 1 >= 0,
        ;
    }
}

/// The cumulative value at `v` is at most `v + 1` adjusted-bin bounds.
proof fn lemma_cdf_bound_helper(
    data: Seq<u8>,
    w: int,
    x0: int,
    y0: int,
    tw: int,
    th: int,
    clip: int,
    v: int,
)
    requires
        tw >= 0,
        th >= 0,
        0 <= clip <= tw * th,
        v >= -1,
    ensures
        0 <= cdf_at(data, w, x0, y0, tw, th, clip, v) <= (v + 1) * (2 * (tw * th) + 1),
    decreases v + 1,
{
    if v < 0 {
    } else {
        lemma_cdf_bound_helper(data, w, x0, y0, tw, th, clip, v - 1);
        lemma_adj_bin_bound(data, w, x0, y0, tw, th, clip, v);
        assert(v * (2 * (tw * th) + 1) + (2 * (tw * th) + 1) == (v + 1) * (2 * (tw * th) + 1))
            by (nonlinear_arith);
    }
}

/// Build the normalized mapping of one tile: 256 fixed-point values, the
/// `v`-th being the tile's equalized output level for input value `v`,
/// scaled by `NORM_SCALE`.
fn build_tile_mapping(
    data: &Vec<u8>,
    w: usize,
    h: usize,
    tiles: usize,
    tw: usize,
    th: usize,
    clip_ppm: u32,
    row: usize,
    col: usize,
) -> (r: Vec<u64>)
    requires
        1 <= tw,
        1 <= th,
        row < tiles,
        col < tiles,
        (col + 1) * tw <= w,
        (row + 1) * th <= h,
        w * h <= data@.len(),
        (w as int) * (h as int) <= MAX_PIXELS,
        (tw as int) * (th as int) <= MAX_PIXELS,
        clip_ppm <= 1000000,
    ensures
        r@.len() == 256,
        forall|v: int|
            0 <= v < 256 ==> #[trigger] r@[v] == norm_bin(
                data@,
                w as int,
                tw as int,
                th as int,
                clip_of(tw as int, th as int, clip_ppm as int),
                row as int,
                col as int,
                v,
            ) && r@[v] <= 255 * NORM_SCALE,
{
    let ghost dv = data@;
    let ghost clip_g = clip_of(tw as int, th as int, clip_ppm as int);
    proof {
        lemma_mul_le(col as int, tiles as int - 1, tw as int, tw as int);
        lemma_mul_le(row as int, tiles as int - 1, th as int, th as int);
        assert((col as int) * (tw as int) <= (col as int + 1) * (tw as int)) by (nonlinear_arith)
            requires
                tw as int >= 0,
        ;
        assert((row as int) * (th as int) <= (row as int + 1) * (th as int)) by (nonlinear_arith)
            requires
                th as int >= 0,
        ;
    }
    let x0 = col * tw;
    let y0 = row * th;
    let ghost x0g = x0 as int;
    let ghost y0g = y0 as int;
    // per-tile histogram
    let mut hist: Vec<u64> = Vec::new();
    let mut t: usize = 0;
    while t < 256
        invariant
            t <= 256,
            hist@.len() == t,
            forall|v: int| 0 <= v < t ==> #[trigger] hist@[v] == 0,
        decreases 256 - t,
    {
        hist.push(0);
        t = t + 1;
    }
    let mut yy: usize = 0;
    while yy < th
        invariant
            dv == data@,
            yy <= th,
            1 <= tw,
            1 <= th,
            x0 == col * tw,
            y0 == row * th,
            x0g == x0,
            y0g == y0,
            row < tiles,
            col < tiles,
            (col + 1) * tw <= w,
            (row + 1) * th <= h,
            w * h <= data@.len(),
            (w as int) * (h as int) <= MAX_PIXELS,
            (tw as int) * (th as int) <= MAX_PIXELS,
            hist@.len() == 256,
            forall|v: int|
                0 <= v < 256 ==> #[trigger] hist@[v] == region_count(
                    dv,
                    w as int,
                    x0g,
                    y0g,
                    tw as int,
                    yy as int,
                    v as u8,
                ),
        decreases th - yy,
    {
        let ghost base = (y0g + yy) * (w as int) + x0g;
        let mut xx: usize = 0;
        while xx < tw
            invariant
                dv == data@,
                xx <= tw,
                yy < th,
                1 <= tw,
                1 <= th,
                x0 == col * tw,
                y0 == row * th,
                x0g == x0,
                y0g == y0,
                (col + 1) * tw <= w,
                (row + 1) * th <= h,
                w * h <= data@.len(),
                (w as int) * (h as int) <= MAX_PIXELS,
                (tw as int) * (th as int) <= MAX_PIXELS,
                base == (y0g + yy) * (w as int) + x0g,
                hist@.len() == 256,
                forall|v: int|
                    0 <= v < 256 ==> #[trigger] hist@[v] == region_count(
                        dv,
                        w as int,
                        x0g,
                        y0g,
                        tw as int,
                        yy as int,
                        v as u8,
                    ) + row_count(dv, base, xx as int, v as u8),
            decreases tw - xx,
        {
            proof {
                // the pixel index stays inside the image buffer
                assert((row as int + 1) * (th as int) == (row as int) * (th as int) + (th as int))
                    by (nonlinear_arith);
                assert((col as int + 1) * (tw as int) == (col as int) * (tw as int) + (tw as int))
                    by (nonlinear_arith);
                assert(y0g + yy < h && x0g + xx < w);
                assert((y0g + yy) * (w as int) + x0g + xx < (w as int) * (h as int))
                    by (nonlinear_arith)
                    requires
                        0 <= y0g + yy < h as int,
                        0 <= x0g + xx < w as int,
                        w as int >= 1,
                ;
                assert((w as int) * (h as int) <= usize::MAX);
            }
            let idx: usize = (y0 + yy) * w + x0 + xx;
            let p: u8 = data[idx];
            let ghost h0 = hist@;
            proof {
                lemma_region_count_bound(dv, w as int, x0g, y0g, tw as int, yy as int, p);
                lemma_row_count_bound(dv, base, xx as int, p);
                lemma_mul_le(yy as int, th as int, tw as int, tw as int);
                assert((th as int) * (tw as int) == (tw as int) * (th as int))
                    by (nonlinear_arith);
            }
            let c: u64 = hist[p as usize];
            hist.set(p as usize, c + 1);
            proof {
                assert forall|v: int| 0 <= v < 256 implies #[trigger] hist@[v] == region_count(
                    dv,
                    w as int,
                    x0g,
                    y0g,
                    tw as int,
                    yy as int,
                    v as u8,
                ) + row_count(dv, base, xx + 1, v as u8) by {
                    assert(row_count(dv, base, xx + 1, v as u8) == row_count(
                        dv,
                        base,
                        xx as int,
                        v as u8,
                    ) + if dv[base + xx] == (v as u8) {
                        1nat
                    } else {
                        0nat
                    });
                    assert(dv[base + xx] == p);
                    if v == p as int {
                        assert(hist@[v] == h0[v] + 1);
                    } else {
                        assert(hist@[v] == h0[v]);
                    }
                }
            }
            xx = xx + 1;
        }
        proof {
            assert forall|v: int| 0 <= v < 256 implies #[trigger] hist@[v] == region_count(
                dv,
                w as int,
                x0g,
                y0g,
                tw as int,
                yy + 1,
                v as u8,
            ) by {
                assert(region_count(dv, w as int, x0g, y0g, tw as int, yy + 1, v as u8)
                    == region_count(dv, w as int, x0g, y0g, tw as int, yy as int, v as u8)
                    + row_count(dv, (y0g + yy) * (w as int) + x0g, tw as int, v as u8));
            }
        }
        yy = yy + 1;
    }
    // clip limit
    let tile_pixels: u64 = (tw as u64) * (th as u64);
    proof {
        assert(0 <= (clip_ppm as int) * (tile_pixels as int) <= 1000000 * (tile_pixels as int))
            by (nonlinear_arith)
            requires
                0 <= clip_ppm <= 1000000,
                tile_pixels as int >= 0,
        ;
    }
    let clip: u64 = ((clip_ppm as u128) * (tile_pixels as u128) / 1000000u128) as u64;
    proof {
        vstd::arithmetic::div_mod::lemma_div_is_ordered(
            (clip_ppm as int) * (tile_pixels as int),
            1000000 * (tile_pixels as int),
            1000000,
        );
        vstd::arithmetic::div_mod::lemma_div_by_multiple(tile_pixels as int, 1000000);
        vstd::arithmetic::div_mod::lemma_div_pos_is_pos(
            (clip_ppm as int) * (tile_pixels as int),
            1000000,
        );
        assert(clip == clip_g);
        assert(0 <= clip_g <= (tw as int) * (th as int));
    }
    // clip the histogram, accumulating the excess
    let mut excess: u64 = 0;
    let mut v: usize = 0;
    while v < 256
        invariant
            dv == data@,
            v <= 256,
            1 <= tw,
            1 <= th,
            x0g == col * tw,
            y0g == row * th,
            (tw as int) * (th as int) <= MAX_PIXELS,
            tile_pixels == (tw as int) * (th as int),
            0 <= clip_g <= (tw as int) * (th as int),
            clip == clip_g,
            hist@.len() == 256,
            forall|u: int|
                0 <= u < v ==> #[trigger] hist@[u] == clipped_bin(
                    dv,
                    w as int,
                    x0g,
                    y0g,
                    tw as int,
                    th as int,
                    clip_g,
                    u,
                ),
            forall|u: int|
                v <= u < 256 ==> #[trigger] hist@[u] == hist_of(
                    dv,
                    w as int,
                    x0g,
                    y0g,
                    tw as int,
                    th as int,
                    u,
                ),
            excess == excess_prefix(dv, w as int, x0g, y0g, tw as int, th as int, clip_g, v as int),
            excess <= (v as int) * (tile_pixels as int),
        decreases 256 - v,
    {
        proof {
            lemma_excess_prefix_bound(dv, w as int, x0g, y0g, tw as int, th as int, clip_g, v + 1);
            lemma_region_count_bound(dv, w as int, x0g, y0g, tw as int, th as int, v as u8);
            assert((th as int) * (tw as int) == (tw as int) * (th as int)) by (nonlinear_arith);
            assert((v + 1) * (tile_pixels as int) <= 256 * (tile_pixels as int))
                by (nonlinear_arith)
                requires
                    v + 1 <= 256,
                    tile_pixels as int >= 0,
            ;
        }
        let hv = hist[v];
        if hv > clip {
            excess = excess + (hv - clip);
            hist.set(v, clip);
        }
        v = v + 1;
    }
    // redistribute the excess uniformly
    let redist: u64 = excess / 256;
    let leftover: u64 = excess % 256;
    let mut v: usize = 0;
    while v < 256
        invariant
            dv == data@,
            v <= 256,
            1 <= tw,
            1 <= th,
            x0g == col * tw,
            y0g == row * th,
            (tw as int) * (th as int) <= MAX_PIXELS,
            tile_pixels == (tw as int) * (th as int),
            0 <= clip_g <= (tw as int) * (th as int),
            redist == excess_prefix(dv, w as int, x0g, y0g, tw as int, th as int, clip_g, 256)
                / 256,
            leftover == excess_prefix(dv, w as int, x0g, y0g, tw as int, th as int, clip_g, 256)
                % 256,
            hist@.len() == 256,
            forall|u: int|
                0 <= u < v ==> #[trigger] hist@[u] == adj_bin(
                    dv,
                    w as int,
                    x0g,
                    y0g,
                    tw as int,
                    th as int,
                    clip_g,
                    u,
                ),
            forall|u: int|
                v <= u < 256 ==> #[trigger] hist@[u] == clipped_bin(
                    dv,
                    w as int,
                    x0g,
                    y0g,
                    tw as int,
                    th as int,
                    clip_g,
                    u,
                ),
        decreases 256 - v,
    {
        proof {
            lemma_adj_bin_bound(dv, w as int, x0g, y0g, tw as int, th as int, clip_g, v as int);
        }
        let add: u64 = if (v as u64) < leftover {
            redist + 1
        } else {
            redist
        };
        proof {
            lemma_excess_prefix_bound(dv, w as int, x0g, y0g, tw as int, th as int, clip_g, 256);
            vstd::arithmetic::div_mod::lemma_div_is_ordered(
                excess_prefix(dv, w as int, x0g, y0g, tw as int, th as int, clip_g, 256),
                256 * ((tw as int) * (th as int)),
                256,
            );
            vstd::arithmetic::div_mod::lemma_div_by_multiple((tw as int) * (th as int), 256);
            vstd::arithmetic::div_mod::lemma_div_pos_is_pos(
                excess_prefix(dv, w as int, x0g, y0g, tw as int, th as int, clip_g, 256),
                256,
            );
        }
        let hv = hist[v];
        hist.set(v, hv + add);
        v = v + 1;
    }
    // cumulative distribution
    let mut cum: Vec<u64> = Vec::new();
    let mut acc: u64 = 0;
    let mut v: usize = 0;
    while v < 256
        invariant
            dv == data@,
            v <= 256,
            1 <= tw,
            1 <= th,
            x0g == col * tw,
            y0g == row * th,
            (tw as int) * (th as int) <= MAX_PIXELS,
            0 <= clip_g <= (tw as int) * (th as int),
            hist@.len() == 256,
            forall|u: int|
                0 <= u < 256 ==> #[trigger] hist@[u] == adj_bin(
                    dv,
                    w as int,
                    x0g,
                    y0g,
                    tw as int,
                    th as int,
                    clip_g,
                    u,
                ),
            cum@.len() == v,
            forall|u: int|
                0 <= u < v ==> #[trigger] cum@[u] == cdf_at(
                    dv,
                    w as int,
                    x0g,
                    y0g,
                    tw as int,
                    th as int,
                    clip_g,
                    u,
                ),
            acc == cdf_at(dv, w as int, x0g, y0g, tw as int, th as int, clip_g, v - 1),
        decreases 256 - v,
    {
        proof {
            lemma_cdf_bound(dv, w as int, x0g, y0g, tw as int, th as int, clip_g, v - 1);
            lemma_adj_bin_bound(dv, w as int, x0g, y0g, tw as int, th as int, clip_g, v as int);
        }
        acc = acc + hist[v];
        cum.push(acc);
        v = v + 1;
    }
    // lowest nonzero cumulative value
    let mut cdf_min: u64 = 0;
    let mut v: usize = 0;
    let mut found: bool = false;
    while v < 256
        invariant
            dv == data@,
            v <= 256,
            cum@.len() == 256,
            forall|u: int|
                0 <= u < 256 ==> #[trigger] cum@[u] == cdf_at(
                    dv,
                    w as int,
                    x0g,
                    y0g,
                    tw as int,
                    th as int,
                    clip_g,
                    u,
                ),
            !found ==> cdf_min == 0 && first_pos_cdf(
                dv,
                w as int,
                x0g,
                y0g,
                tw as int,
                th as int,
                clip_g,
                0,
            ) == first_pos_cdf(dv, w as int, x0g, y0g, tw as int, th as int, clip_g, v as int),
            found ==> cdf_min == first_pos_cdf(
                dv,
                w as int,
                x0g,
                y0g,
                tw as int,
                th as int,
                clip_g,
                0,
            ),
        decreases 256 - v,
    {
        if !found {
            let c = cum[v];
            if c > 0 {
                cdf_min = c;
                found = true;
            }
        }
        v = v + 1;
    }
    let ghost cdf_min_g = first_pos_cdf(dv, w as int, x0g, y0g, tw as int, th as int, clip_g, 0);
    proof {
        assert(cdf_min == cdf_min_g);
    }
    // normalize to [0, 255] in fixed point
    let denom: i128 = (tile_pixels as i128) - (cdf_min as i128);
    let mut out: Vec<u64> = Vec::new();
    let mut v: usize = 0;
    while v < 256
        invariant
            dv == data@,
            v <= 256,
            1 <= tw,
            1 <= th,
            x0g == col * tw,
            y0g == row * th,
            (tw as int) * (th as int) <= MAX_PIXELS,
            0 <= clip_g <= (tw as int) * (th as int),
            tile_pixels == (tw as int) * (th as int),
            cdf_min == cdf_min_g,
            cdf_min_g == first_pos_cdf(dv, w as int, x0g, y0g, tw as int, th as int, clip_g, 0),
            denom == (tw as int) * (th as int) - cdf_min_g,
            cum@.len() == 256,
            forall|u: int|
                0 <= u < 256 ==> #[trigger] cum@[u] == cdf_at(
                    dv,
                    w as int,
                    x0g,
                    y0g,
                    tw as int,
                    th as int,
                    clip_g,
                    u,
                ),
            out@.len() == v,
            forall|u: int|
                0 <= u < v ==> #[trigger] out@[u] == norm_bin(
                    dv,
                    w as int,
                    tw as int,
                    th as int,
                    clip_g,
                    row as int,
                    col as int,
                    u,
                ) && out@[u] <= 255 * NORM_SCALE,
        decreases 256 - v,
    {
        proof {
            reveal(norm_bin);
            lemma_cdf_bound(dv, w as int, x0g, y0g, tw as int, th as int, clip_g, v as int);
        }
        let cdfv = cum[v];
        let nv: u64 = if denom > 0 {
            let c: u64 = if (cdfv as i128) - (cdf_min as i128) < 0 {
                0
            } else {
                cdfv - cdf_min
            };
            proof {
                assert(0 <= (c as int) * 255 <= 600000000000int * 255) by (nonlinear_arith)
                    requires
                        0 <= c as int <= 600000000000int,
                ;
            }
            let q: u128 = (c as u128) * 255 * (NORM_SCALE as u128) / (denom as u128);
            if q > 255 * (NORM_SCALE as u128) {
                255 * NORM_SCALE
            } else {
                q as u64
            }
        } else {
            let c: u64 = if cdfv > 255 {
                255
            } else {
                cdfv
            };
            c * NORM_SCALE
        };
        out.push(nv);
        v = v + 1;
    }
    out
}

/// Apply CLAHE in place on a grayscale image.
///
/// The image is split into a `tiles_x` x `tiles_x` grid; the clip limit is
/// `clip_ppm` millionths of the tile pixel count. Undersized images and
/// grids with empty tiles are left untouched. Otherwise every pixel in the
/// `width * height` area is replaced by the bilinear blend of the four
/// surrounding tile mappings; bytes beyond the area are untouched.
pub fn clahe_enhance(gray: &mut Vec<u8>, width: u32, height: u32, tiles_x: u32, clip_ppm: u32)
    requires
        1 <= tiles_x <= 256,
        clip_ppm <= 1000000,
        old(gray)@.len() <= MAX_PIXELS,
    ensures
        final(gray)@.len() == old(gray)@.len(),
        final(gray)@ == clahe_spec(
            old(gray)@,
            width as int,
            height as int,
            tiles_x as int,
            clip_ppm as int,
        ),
        clahe_degenerate(old(gray)@, width as int, height as int, tiles_x as int) ==> final(gray)@ == old(gray)@,
        !clahe_degenerate(old(gray)@, width as int, height as int, tiles_x as int) ==> {
            let w = width as int;
            let h = height as int;
            let tiles = tiles_x as int;
            let tw = w / tiles;
            let th = h / tiles;
            let clip = clip_of(tw, th, clip_ppm as int);
            &&& forall|k: int|
                0 <= k < w * h ==> #[trigger] final(gray)@[k] == clahe_pixel(
                    old(gray)@,
                    w,
                    tiles,
                    tw,
                    th,
                    clip,
                    k % w,
                    k / w,
                )
            &&& forall|k: int|
                w * h <= k < old(gray)@.len() ==> #[trigger] final(gray)@[k] == old(gray)@[k]
        },
{
    let ghost dv0 = gray@;
    if width == 0 || height == 0 {
        return ;
    }
    proof {
        lemma_mul_le(width as int, 0x1_0000_0000int, height as int, 0x1_0000_0000int);
    }
    let wh: u128 = (width as u128) * (height as u128);
    if (gray.len() as u128) < wh {
        return ;
    }
    let tiles: usize = tiles_x as usize;
    let w: usize = width as usize;
    let h: usize = height as usize;
    let tw: usize = w / tiles;
    let th: usize = h / tiles;
    if tw == 0 || th == 0 {
        return ;
    }
    proof {
        assert(!clahe_degenerate(dv0, width as int, height as int, tiles_x as int));
        assert((w as int) * (h as int) == wh);
        assert((w as int) * (h as int) <= gray@.len() <= MAX_PIXELS);
        // the tile grid covers at most the image
        vstd::arithmetic::div_mod::lemma_fundamental_div_mod(w as int, tiles as int);
        vstd::arithmetic::div_mod::lemma_fundamental_div_mod(h as int, tiles as int);
        assert((tiles as int) * (tw as int) <= w as int);
        assert((tiles as int) * (th as int) <= h as int);
        lemma_mul_le(tw as int, w as int, th as int, h as int);
    }
    let total: usize = w * h;
    let ghost clip_g = clip_of(tw as int, th as int, clip_ppm as int);
    // build the per-tile mappings
    let mut cdfs: Vec<Vec<u64>> = Vec::new();
    let mut row: usize = 0;
    while row < tiles
        invariant
            dv0 == gray@,
            1 <= tiles <= 256,
            1 <= tw,
            1 <= th,
            row <= tiles,
            tw == w / tiles,
            th == h / tiles,
            (tiles as int) * (tw as int) <= w as int,
            (tiles as int) * (th as int) <= h as int,
            (w as int) * (h as int) <= gray@.len(),
            (w as int) * (h as int) <= MAX_PIXELS,
            (tw as int) * (th as int) <= MAX_PIXELS,
            clip_ppm <= 1000000,
            clip_g == clip_of(tw as int, th as int, clip_ppm as int),
            cdfs@.len() == row * tiles,
            forall|t: int|
                0 <= t < cdfs@.len() ==> (#[trigger] cdfs@[t])@.len() == 256 && forall|v: int|
                    0 <= v < 256 ==> (#[trigger] cdfs@[t]@[v]) == norm_bin(
                        dv0,
                        w as int,
                        tw as int,
                        th as int,
                        clip_g,
                        t / (tiles as int),
                        t % (tiles as int),
                        v,
                    ) && cdfs@[t]@[v] <= 255 * NORM_SCALE,
        decreases tiles - row,
    {
        let mut col: usize = 0;
        while col < tiles
            invariant
                dv0 == gray@,
                1 <= tiles <= 256,
                1 <= tw,
                1 <= th,
                row < tiles,
                col <= tiles,
                tw == w / tiles,
                th == h / tiles,
                (tiles as int) * (tw as int) <= w as int,
                (tiles as int) * (th as int) <= h as int,
                (w as int) * (h as int) <= gray@.len(),
                (w as int) * (h as int) <= MAX_PIXELS,
                (tw as int) * (th as int) <= MAX_PIXELS,
                clip_ppm <= 1000000,
                clip_g == clip_of(tw as int, th as int, clip_ppm as int),
                cdfs@.len() == row * tiles + col,
                forall|t: int|
                    0 <= t < cdfs@.len() ==> (#[trigger] cdfs@[t])@.len() == 256 && forall|v: int|
                        0 <= v < 256 ==> (#[trigger] cdfs@[t]@[v]) == norm_bin(
                            dv0,
                            w as int,
                            tw as int,
                            th as int,
                            clip_g,
                            t / (tiles as int),
                            t % (tiles as int),
                            v,
                        ) && cdfs@[t]@[v] <= 255 * NORM_SCALE,
            decreases tiles - col,
        {
            proof {
                assert((col as int + 1) * (tw as int) <= (tiles as int) * (tw as int))
                    by (nonlinear_arith)
                    requires
                        col as int + 1 <= tiles as int,
                        tw as int >= 0,
                ;
                assert((row as int + 1) * (th as int) <= (tiles as int) * (th as int))
                    by (nonlinear_arith)
                    requires
                        row as int + 1 <= tiles as int,
                        th as int >= 0,
                ;
                assert((row as int) * (tiles as int) + col < (tiles as int) * (tiles as int))
                    by (nonlinear_arith)
                    requires
                        (row as int) < tiles as int,
                        (col as int) < tiles as int,
                ;
            }
            let mapping = build_tile_mapping(gray, w, h, tiles, tw, th, clip_ppm, row, col);
            cdfs.push(mapping);
            proof {
                lemma_fundamental_div_mod_converse(
                    (row as int) * (tiles as int) + (col as int),
                    tiles as int,
                    row as int,
                    col as int,
                );
            }
            col = col + 1;
        }
        proof {
            assert((row as int) * (tiles as int) + (tiles as int) == (row as int + 1) * (
            tiles as int)) by (nonlinear_arith);
        }
        row = row + 1;
    }
    let ghost table = cdfs@;
    // map every pixel through the blended tile mappings
    let mut y: usize = 0;
    while y < h
        invariant
            1 <= tiles <= 256,
            1 <= tw,
            1 <= th,
            y <= h,
            w >= 1,
            h >= 1,
            tw == w / tiles,
            th == h / tiles,
            (tiles as int) * (tw as int) <= w as int,
            (tiles as int) * (th as int) <= h as int,
            (w as int) * (h as int) <= dv0.len(),
            (w as int) * (h as int) <= MAX_PIXELS,
            (tw as int) * (th as int) <= MAX_PIXELS,
            clip_g == clip_of(tw as int, th as int, clip_ppm as int),
            cdfs@ == table,
            cdfs@.len() == (tiles as int) * (tiles as int),
            forall|t: int|
                0 <= t < cdfs@.len() ==> (#[trigger] cdfs@[t])@.len() == 256 && forall|v: int|
                    0 <= v < 256 ==> (#[trigger] cdfs@[t]@[v]) == norm_bin(
                        dv0,
                        w as int,
                        tw as int,
                        th as int,
                        clip_g,
                        t / (tiles as int),
                        t % (tiles as int),
                        v,
                    ) && cdfs@[t]@[v] <= 255 * NORM_SCALE,
            gray@.len() == dv0.len(),
            forall|k: int|
                0 <= k < (y as int) * (w as int) ==> #[trigger] gray@[k] == clahe_pixel(
                    dv0,
                    w as int,
                    tiles as int,
                    tw as int,
                    th as int,
                    clip_g,
                    k % (w as int),
                    k / (w as int),
                ),
            forall|k: int|
                (y as int) * (w as int) <= k < dv0.len() ==> #[trigger] gray@[k] == dv0[k],
        decreases h - y,
    {
        let mut x: usize = 0;
        while x < w
            invariant
                1 <= tiles <= 256,
                1 <= tw,
                1 <= th,
                y < h,
                x <= w,
                w >= 1,
                h >= 1,
                tw == w / tiles,
                th == h / tiles,
                (tiles as int) * (tw as int) <= w as int,
                (tiles as int) * (th as int) <= h as int,
                (w as int) * (h as int) <= dv0.len(),
                (w as int) * (h as int) <= MAX_PIXELS,
                (tw as int) * (th as int) <= MAX_PIXELS,
                clip_g == clip_of(tw as int, th as int, clip_ppm as int),
                cdfs@ == table,
                cdfs@.len() == (tiles as int) * (tiles as int),
                forall|t: int|
                    0 <= t < cdfs@.len() ==> (#[trigger] cdfs@[t])@.len() == 256 && forall|v: int|
                        0 <= v < 256 ==> (#[trigger] cdfs@[t]@[v]) == norm_bin(
                            dv0,
                            w as int,
                            tw as int,
                            th as int,
                            clip_g,
                            t / (tiles as int),
                            t % (tiles as int),
                            v,
                        ) && cdfs@[t]@[v] <= 255 * NORM_SCALE,
                gray@.len() == dv0.len(),
                forall|k: int|
                    0 <= k < (y as int) * (w as int) + (x as int) ==> #[trigger] gray@[k]
                        == clahe_pixel(
                        dv0,
                        w as int,
                        tiles as int,
                        tw as int,
                        th as int,
                        clip_g,
                        k % (w as int),
                        k / (w as int),
                    ),
                forall|k: int|
                    (y as int) * (w as int) + (x as int) <= k < dv0.len() ==> #[trigger] gray@[k]
                        == dv0[k],
            decreases w - x,
        {
            proof {
                assert((y as int) * (w as int) + (x as int) < (w as int) * (h as int))
                    by (nonlinear_arith)
                    requires
                        0 <= (y as int) < h as int,
                        0 <= (x as int) < w as int,
                ;
                assert(w as int <= (w as int) * (h as int) && h as int <= (w as int) * (h as int))
                    by (nonlinear_arith)
                    requires
                        1 <= w as int,
                        1 <= h as int,
                ;
            }
            let idx: usize = y * w + x;
            let p: u8 = gray[idx];
            let out: u8 = blend_pixel(&cdfs, tiles, tw, th, p, x, y, Ghost(dv0), Ghost(
                w as int,
            ), Ghost(clip_g));
            gray.set(idx, out);
            proof {
                lemma_fundamental_div_mod_converse(idx as int, w as int, y as int, x as int);
                assert(gray@[idx as int] == clahe_pixel(
                    dv0,
                    w as int,
                    tiles as int,
                    tw as int,
                    th as int,
                    clip_g,
                    idx as int % (w as int),
                    idx as int / (w as int),
                ));
            }
            x = x + 1;
        }
        proof {
            assert((y as int) * (w as int) + (w as int) == (y as int + 1) * (w as int))
                by (nonlinear_arith);
        }
        y = y + 1;
    }
    proof {
        assert((h as int) * (w as int) == (w as int) * (h as int)) by (nonlinear_arith);
        assert(gray@ =~= clahe_spec(
            dv0,
            width as int,
            height as int,
            tiles_x as int,
            clip_ppm as int,
        ));
    }
}

/// A grid cell's flat index lies inside the table.
proof fn lemma_grid_index(rr: int, cc: int, tiles: int)
    requires
        0 <= rr < tiles,
        0 <= cc < tiles,
    ensures
        0 <= rr * tiles + cc < tiles * tiles,
{
    assert(0 <= rr * tiles + cc < tiles * tiles) by (nonlinear_arith)
        requires
            0 <= rr < tiles,
            0 <= cc < tiles,
    ;
}

/// Blend the four surrounding tile mappings for the pixel at `(x, y)` whose
/// input value is `p`, rounding to the nearest output level.
#[verifier::rlimit(100)]
#[verifier::spinoff_prover]
fn blend_pixel(
    cdfs: &Vec<Vec<u64>>,
    tiles: usize,
    tw: usize,
    th: usize,
    p: u8,
    x: usize,
    y: usize,
    Ghost(dv0): Ghost<Seq<u8>>,
    Ghost(w): Ghost<int>,
    Ghost(clip_g): Ghost<int>,
) -> (out: u8)
    requires
        1 <= tiles <= 256,
        1 <= tw,
        1 <= th,
        (tw as int) * (th as int) <= MAX_PIXELS,
        x <= 0x40000000,
        y <= 0x40000000,
        cdfs@.len() == (tiles as int) * (tiles as int),
        forall|t: int|
            0 <= t < cdfs@.len() ==> (#[trigger] cdfs@[t])@.len() == 256 && forall|v: int|
                0 <= v < 256 ==> (#[trigger] cdfs@[t]@[v]) == norm_bin(
                    dv0,
                    w,
                    tw as int,
                    th as int,
                    clip_g,
                    t / (tiles as int),
                    t % (tiles as int),
                    v,
                ) && cdfs@[t]@[v] <= 255 * NORM_SCALE,
        dv0[(y as int) * w + (x as int)] == p,
    ensures
        out as int == clahe_pixel(
            dv0,
            w,
            tiles as int,
            tw as int,
            th as int,
            clip_g,
            x as int,
            y as int,
        ),
{
    proof {
        assert(tw as int <= MAX_PIXELS && th as int <= MAX_PIXELS) by (nonlinear_arith)
            requires
                1 <= tw as int,
                1 <= th as int,
                (tw as int) * (th as int) <= MAX_PIXELS,
        ;
        lemma_mul_le(tiles as int - 1, 256, 2 * (tw as int), 0x80000000int);
        lemma_mul_le(tiles as int - 1, 256, 2 * (th as int), 0x80000000int);
    }
    let dx_span: i64 = 2 * (tw as i64);
    let dy_span: i64 = 2 * (th as i64);
    let hi_x: i64 = (tiles as i64 - 1) * dx_span;
    let hi_y: i64 = (tiles as i64 - 1) * dy_span;
    let fx_raw: i64 = 2 * (x as i64) - (tw as i64);
    let fy_raw: i64 = 2 * (y as i64) - (th as i64);
    let fx: i64 = if fx_raw < 0 {
        0
    } else if fx_raw > hi_x {
        hi_x
    } else {
        fx_raw
    };
    let fy: i64 = if fy_raw < 0 {
        0
    } else if fy_raw > hi_y {
        hi_y
    } else {
        fy_raw
    };
    let c0: i64 = fx / dx_span;
    let r0: i64 = fy / dy_span;
    let dx: i64 = fx % dx_span;
    let dy: i64 = fy % dy_span;
    proof {
        vstd::arithmetic::div_mod::lemma_div_pos_is_pos(fx as int, dx_span as int);
        vstd::arithmetic::div_mod::lemma_div_pos_is_pos(fy as int, dy_span as int);
        vstd::arithmetic::div_mod::lemma_div_is_ordered(fx as int, hi_x as int, dx_span as int);
        vstd::arithmetic::div_mod::lemma_div_is_ordered(fy as int, hi_y as int, dy_span as int);
        vstd::arithmetic::div_mod::lemma_div_by_multiple(tiles as int - 1, dx_span as int);
        vstd::arithmetic::div_mod::lemma_div_by_multiple(tiles as int - 1, dy_span as int);
        vstd::arithmetic::div_mod::lemma_remainder_lower(fx as int, dx_span as int);
        vstd::arithmetic::div_mod::lemma_remainder_upper(fx as int, dx_span as int);
        vstd::arithmetic::div_mod::lemma_remainder_lower(fy as int, dy_span as int);
        vstd::arithmetic::div_mod::lemma_remainder_upper(fy as int, dy_span as int);
    }
    let c1: i64 = if c0 + 1 <= tiles as i64 - 1 {
        c0 + 1
    } else {
        tiles as i64 - 1
    };
    let r1: i64 = if r0 + 1 <= tiles as i64 - 1 {
        r0 + 1
    } else {
        tiles as i64 - 1
    };
    proof {
        assert((tiles as int) * (tiles as int) <= 65536) by (nonlinear_arith)
            requires
                1 <= tiles as int <= 256,
        ;
        lemma_grid_index(r0 as int, c0 as int, tiles as int);
        lemma_grid_index(r0 as int, c1 as int, tiles as int);
        lemma_grid_index(r1 as int, c0 as int, tiles as int);
        lemma_grid_index(r1 as int, c1 as int, tiles as int);
        lemma_fundamental_div_mod_converse(
            (r0 as int) * (tiles as int) + (c0 as int),
            tiles as int,
            r0 as int,
            c0 as int,
        );
        lemma_fundamental_div_mod_converse(
            (r0 as int) * (tiles as int) + (c1 as int),
            tiles as int,
            r0 as int,
            c1 as int,
        );
        lemma_fundamental_div_mod_converse(
            (r1 as int) * (tiles as int) + (c0 as int),
            tiles as int,
            r1 as int,
            c0 as int,
        );
        lemma_fundamental_div_mod_converse(
            (r1 as int) * (tiles as int) + (c1 as int),
            tiles as int,
            r1 as int,
            c1 as int,
        );
    }
    let tl: u64 = cdfs[(r0 as usize) * tiles + (c0 as usize)][p as usize];
    let tr: u64 = cdfs[(r0 as usize) * tiles + (c1 as usize)][p as usize];
    let bl: u64 = cdfs[(r1 as usize) * tiles + (c0 as usize)][p as usize];
    let br: u64 = cdfs[(r1 as usize) * tiles + (c1 as usize)][p as usize];
    blend_arith(dx_span, dy_span, dx, dy, tl, tr, bl, br)
}

/// Bilinear mix of four mapped values, rounded and capped at 255.
fn blend_arith(dx_span: i64, dy_span: i64, dx: i64, dy: i64, tl: u64, tr: u64, bl: u64, br: u64) -> (out: u8)
    requires
        1 <= dx_span <= 0x80000000,
        1 <= dy_span <= 0x80000000,
        0 <= dx <= dx_span,
        0 <= dy <= dy_span,
        tl <= 255 * NORM_SCALE,
        tr <= 255 * NORM_SCALE,
        bl <= 255 * NORM_SCALE,
        br <= 255 * NORM_SCALE,
    ensures
        out as int == blend_spec(
            dx_span as int,
            dy_span as int,
            dx as int,
            dy as int,
            tl as int,
            tr as int,
            bl as int,
            br as int,
        ),
{
    proof {
        lemma_mul_le(dx_span as int - dx, 0x80000000int, tl as int, 255 * NORM_SCALE as int);
        lemma_mul_le(dx as int, 0x80000000int, tr as int, 255 * NORM_SCALE as int);
        lemma_mul_le(dx_span as int - dx, 0x80000000int, bl as int, 255 * NORM_SCALE as int);
        lemma_mul_le(dx as int, 0x80000000int, br as int, 255 * NORM_SCALE as int);
    }
    let top: u128 = ((dx_span - dx) as u128) * (tl as u128) + (dx as u128) * (tr as u128);
    let bot: u128 = ((dx_span - dx) as u128) * (bl as u128) + (dx as u128) * (br as u128);
    proof {
        lemma_mul_le(dy_span as int - dy, 0x80000000int, top as int, 0x80000000000000000000int);
        lemma_mul_le(dy as int, 0x80000000int, bot as int, 0x80000000000000000000int);
        lemma_mul_le(dx_span as int, 0x80000000int, dy_span as int, 0x80000000int);
        lemma_mul_le(
            (dx_span as int) * (dy_span as int),
            0x4000000000000000int,
            NORM_SCALE as int,
            65536,
        );
        assert((dx_span as int) * (dy_span as int) * (NORM_SCALE as int) > 0) by (nonlinear_arith)
            requires
                dx_span as int > 0,
                dy_span as int > 0,
        ;
    }
    let val: u128 = ((dy_span - dy) as u128) * top + (dy as u128) * bot;
    let denom_all: u128 = (dx_span as u128) * (dy_span as u128) * (NORM_SCALE as u128);
    let rounded: u128 = (val + denom_all / 2) / denom_all;
    proof {
        vstd::arithmetic::div_mod::lemma_div_pos_is_pos(
            (val + denom_all / 2) as int,
            denom_all as int,
        );
    }
    if rounded > 255 {
        255
    } else {
        rounded as u8
    }
}

} // verus!
