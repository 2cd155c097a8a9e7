//! Face alignment via a 4-degree-of-freedom similarity transform.
//!
//! Detected landmarks are mapped onto the canonical five-point reference of
//! a 112x112 crop by the least-squares similarity transform
//! [[a, -b, tx], [b, a, ty]]. For this system the normal equations have a
//! closed form, computed here exactly over fixed-point integers: `a` and `b`
//! are scaled by `TRANSFORM_SCALE`, translations and landmarks by
//! `COORD_SCALE`. A degenerate system (all landmarks coincident) yields the
//! identity transform to keep the pipeline alive.

use vstd::prelude::*;
use crate::detector::COORD_SCALE;

verus! {

/// Fixed-point scale of the transform's rotation-scale entries.
pub const TRANSFORM_SCALE: i64 = 1048576;

/// Magnitude bound on the transform entries; estimates are clamped to it
/// (far beyond any real camera geometry), so warping stays in machine range.
pub const TRANSFORM_LIMIT: i64 = 0x100_0000_0000;

/// Magnitude bound on landmark coordinates accepted by the estimator.
pub const LANDMARK_LIMIT: i64 = 0x100_0000;

/// Side length of the canonical aligned face crop.
pub const ALIGNED_SIZE: usize = 112;

/// The canonical five-point reference landmarks of the 112x112 crop, in
/// fixed-point 1/256-pixel units: left eye, right eye, nose tip, left mouth
/// corner, right mouth corner.
pub fn reference_landmarks() -> (r: [(i64, i64); 5])
    ensures
        r@ == reference_landmarks_spec(),
{
    [(9803i64, 13234i64), (18824i64, 13184i64), (14342i64, 18365i64), (
        10637i64,
        23646i64,
    ), (18107i64, 23604i64)]
}

/// The canonical reference landmarks as a sequence.
pub open spec fn reference_landmarks_spec() -> Seq<(i64, i64)> {
    seq![
        (9803i64, 13234i64),
        (18824i64, 13184i64),
        (14342i64, 18365i64),
        (10637i64, 23646i64),
        (18107i64, 23604i64),
    ]
}

/// A similarity transform [[a, -b, tx], [b, a, ty]]: `a` and `b` in
/// `TRANSFORM_SCALE` fixed point, translations in `COORD_SCALE` units.
#[derive(Clone, Copy, Debug, PartialEq, Eq, Structural)]
pub struct SimilarityTransform {
    pub a: i64,
    pub b: i64,
    pub tx: i64,
    pub ty: i64,
}

impl SimilarityTransform {
    /// Entries within the clamped range.
    pub open spec fn wf(&self) -> bool {
        &&& -TRANSFORM_LIMIT <= self.a <= TRANSFORM_LIMIT
        &&& -TRANSFORM_LIMIT <= self.b <= TRANSFORM_LIMIT
        &&& -TRANSFORM_LIMIT <= self.tx <= TRANSFORM_LIMIT
        &&& -TRANSFORM_LIMIT <= self.ty <= TRANSFORM_LIMIT
    }

    /// The identity transform.
    pub open spec fn identity_spec() -> SimilarityTransform {
        SimilarityTransform { a: TRANSFORM_SCALE, b: 0, tx: 0, ty: 0 }
    }
}

/// Sum of the first coordinates of five points.
pub open spec fn sum_x(p: Seq<(i64, i64)>) -> int {
    p[0].0 + p[1].0 + p[2].0 + p[3].0 + p[4].0
}

/// Sum of the second coordinates of five points.
pub open spec fn sum_y(p: Seq<(i64, i64)>) -> int {
    p[0].1 + p[1].1 + p[2].1 + p[3].1 + p[4].1
}

/// Sum of the squared norms of five points.
pub open spec fn sum_sq(p: Seq<(i64, i64)>) -> int {
    p[0].0 * p[0].0 + p[0].1 * p[0].1 + p[1].0 * p[1].0 + p[1].1 * p[1].1 + p[2].0 * p[2].0 + p[2].1
        * p[2].1 + p[3].0 * p[3].0 + p[3].1 * p[3].1 + p[4].0 * p[4].0 + p[4].1 * p[4].1
}

/// Sum over the points of `sx*dx + sy*dy`.
pub open spec fn sum_dot(s: Seq<(i64, i64)>, d: Seq<(i64, i64)>) -> int {
    s[0].0 * d[0].0 + s[0].1 * d[0].1 + s[1].0 * d[1].0 + s[1].1 * d[1].1 + s[2].0 * d[2].0 + s[2].1
        * d[2].1 + s[3].0 * d[3].0 + s[3].1 * d[3].1 + s[4].0 * d[4].0 + s[4].1 * d[4].1
}

/// Sum over the points of `sx*dy - sy*dx`.
pub open spec fn sum_cross(s: Seq<(i64, i64)>, d: Seq<(i64, i64)>) -> int {
    s[0].0 * d[0].1 - s[0].1 * d[0].0 + s[1].0 * d[1].1 - s[1].1 * d[1].0 + s[2].0 * d[2].1 - s[2].1
        * d[2].0 + s[3].0 * d[3].1 - s[3].1 * d[3].0 + s[4].0 * d[4].1 - s[4].1 * d[4].0
}

/// Quotient rounded to the nearest integer, halves away from zero.
pub open spec fn div_round_spec(num: int, den: int) -> int {
    if num >= 0 {
        (num + den / 2) / den
    } else {
        -((-num + den / 2) / den)
    }
}

/// Clamp to the transform entry range.
pub open spec fn clamp_entry(v: int) -> int {
    if v > TRANSFORM_LIMIT {
        TRANSFORM_LIMIT as int
    } else if v < -TRANSFORM_LIMIT {
        -TRANSFORM_LIMIT
    } else {
        v
    }
}

/// The least-squares similarity transform from `src` landmarks to `dst`
/// landmarks, in fixed point: the closed-form solution of the normal
/// equations, each entry rounded and clamped. A degenerate system (all
/// source points coincident) yields the identity.
pub open spec fn transform_of(s: Seq<(i64, i64)>, d: Seq<(i64, i64)>) -> SimilarityTransform {
    let sx = sum_x(s);
    let sy = sum_y(s);
    let dx = sum_x(d);
    let dy = sum_y(d);
    let s2 = sum_sq(s);
    let c1 = sum_dot(s, d);
    let c2 = sum_cross(s, d);
    let denom = 5 * s2 - sx * sx - sy * sy;
    if denom <= 0 {
        SimilarityTransform::identity_spec()
    } else {
        let a = clamp_entry(
            div_round_spec((5 * c1 - sx * dx - sy * dy) * (TRANSFORM_SCALE as int), denom),
        );
        let b = clamp_entry(
            div_round_spec((5 * c2 + sy * dx - sx * dy) * (TRANSFORM_SCALE as int), denom),
        );
        let tx = clamp_entry(
            div_round_spec(dx * (TRANSFORM_SCALE as int) - sx * a + sy * b, 5 * (
            TRANSFORM_SCALE as int)),
        );
        let ty = clamp_entry(
            div_round_spec(dy * (TRANSFORM_SCALE as int) - sy * a - sx * b, 5 * (
            TRANSFORM_SCALE as int)),
        );
        SimilarityTransform { a: a as i64, b: b as i64, tx: tx as i64, ty: ty as i64 }
    }
}

/// Quotient rounded to the nearest integer, halves away from zero.
fn div_round(num: i128, den: i128) -> (r: i128)
    requires
        1 <= den,
        -0x4000_0000_0000_0000_0000_0000_0000_0000 < num
            < 0x4000_0000_0000_0000_0000_0000_0000_0000,
        den < 0x4000_0000_0000_0000_0000_0000_0000_0000,
    ensures
        r == div_round_spec(num as int, den as int),
{
    if num >= 0 {
        (num + den / 2) / den
    } else {
        let q = (-num + den / 2) / den;
        proof {
            vstd::arithmetic::div_mod::lemma_div_pos_is_pos(-(num as int) + (den as int) / 2, den as int);
        }
        -q
    }
}

/// Clamp a value to the transform entry range.
fn clamp_to_limit(v: i128) -> (r: i64)
    ensures
        r == clamp_entry(v as int),
{
    if v > TRANSFORM_LIMIT as i128 {
        TRANSFORM_LIMIT
    } else if v < -(TRANSFORM_LIMIT as i128) {
        -TRANSFORM_LIMIT
    } else {
        v as i64
    }
}

/// Estimate the similarity transform from `src` landmarks to `dst`
/// landmarks by least squares, exactly as `transform_of` states it.
pub fn estimate_similarity_transform(src: &[(i64, i64); 5], dst: &[(i64, i64); 5]) -> (t:
    SimilarityTransform)
    requires
        forall|i: int|
            0 <= i < 5 ==> -LANDMARK_LIMIT <= (#[trigger] src@[i]).0 <= LANDMARK_LIMIT
                && -LANDMARK_LIMIT <= src@[i].1 <= LANDMARK_LIMIT,
        forall|i: int|
            0 <= i < 5 ==> -LANDMARK_LIMIT <= (#[trigger] dst@[i]).0 <= LANDMARK_LIMIT
                && -LANDMARK_LIMIT <= dst@[i].1 <= LANDMARK_LIMIT,
    ensures
        t == transform_of(src@, dst@),
        t.wf(),
{
    let sx: i128 = src[0].0 as i128 + src[1].0 as i128 + src[2].0 as i128 + src[3].0 as i128
        + src[4].0 as i128;
    let sy: i128 = src[0].1 as i128 + src[1].1 as i128 + src[2].1 as i128 + src[3].1 as i128
        + src[4].1 as i128;
    let dx: i128 = dst[0].0 as i128 + dst[1].0 as i128 + dst[2].0 as i128 + dst[3].0 as i128
        + dst[4].0 as i128;
    let dy: i128 = dst[0].1 as i128 + dst[1].1 as i128 + dst[2].1 as i128 + dst[3].1 as i128
        + dst[4].1 as i128;
    let s2: i128 = prod(src[0].0, src[0].0) + prod(src[0].1, src[0].1) + prod(src[1].0, src[1].0)
        + prod(src[1].1, src[1].1) + prod(src[2].0, src[2].0) + prod(src[2].1, src[2].1) + prod(
        src[3].0,
        src[3].0,
    ) + prod(src[3].1, src[3].1) + prod(src[4].0, src[4].0) + prod(src[4].1, src[4].1);
    let c1: i128 = prod(src[0].0, dst[0].0) + prod(src[0].1, dst[0].1) + prod(src[1].0, dst[1].0)
        + prod(src[1].1, dst[1].1) + prod(src[2].0, dst[2].0) + prod(src[2].1, dst[2].1) + prod(
        src[3].0,
        dst[3].0,
    ) + prod(src[3].1, dst[3].1) + prod(src[4].0, dst[4].0) + prod(src[4].1, dst[4].1);
    let c2: i128 = prod(src[0].0, dst[0].1) - prod(src[0].1, dst[0].0) + prod(src[1].0, dst[1].1)
        - prod(src[1].1, dst[1].0) + prod(src[2].0, dst[2].1) - prod(src[2].1, dst[2].0) + prod(
        src[3].0,
        dst[3].1,
    ) - prod(src[3].1, dst[3].0) + prod(src[4].0, dst[4].1) - prod(src[4].1, dst[4].0);
    proof {
        lemma_mul_range(sx as int, 0x5_000_000, sx as int, 0x5_000_000);
        lemma_mul_range(sy as int, 0x5_000_000, sy as int, 0x5_000_000);
        lemma_mul_range(sx as int, 0x5_000_000, dx as int, 0x5_000_000);
        lemma_mul_range(sy as int, 0x5_000_000, dy as int, 0x5_000_000);
        lemma_mul_range(sy as int, 0x5_000_000, dx as int, 0x5_000_000);
        lemma_mul_range(sx as int, 0x5_000_000, dy as int, 0x5_000_000);
    }
    let denom: i128 = 5 * s2 - sx * sx - sy * sy;
    if denom <= 0 {
        return SimilarityTransform { a: TRANSFORM_SCALE, b: 0, tx: 0, ty: 0 };
    }
    let a_num: i128 = 5 * c1 - sx * dx - sy * dy;
    let b_num: i128 = 5 * c2 + sy * dx - sx * dy;
    proof {
        lemma_mul_range(a_num as int, 0x400_0000_0000_0000, TRANSFORM_SCALE as int, 0x100000);
        lemma_mul_range(b_num as int, 0x400_0000_0000_0000, TRANSFORM_SCALE as int, 0x100000);
    }
    let a = clamp_to_limit(div_round(a_num * (TRANSFORM_SCALE as i128), denom));
    let b = clamp_to_limit(div_round(b_num * (TRANSFORM_SCALE as i128), denom));
    proof {
        lemma_mul_range(sx as int, 0x5_000_000, a as int, TRANSFORM_LIMIT as int);
        lemma_mul_range(sy as int, 0x5_000_000, b as int, TRANSFORM_LIMIT as int);
        lemma_mul_range(sy as int, 0x5_000_000, a as int, TRANSFORM_LIMIT as int);
        lemma_mul_range(sx as int, 0x5_000_000, b as int, TRANSFORM_LIMIT as int);
    }
    proof {
        lemma_mul_range(dx as int, 0x5_000_000, TRANSFORM_SCALE as int, 0x100000);
        lemma_mul_range(dy as int, 0x5_000_000, TRANSFORM_SCALE as int, 0x100000);
    }
    let tx = clamp_to_limit(
        div_round(
            dx * (TRANSFORM_SCALE as i128) - sx * (a as i128) + sy * (b as i128),
            5 * (TRANSFORM_SCALE as i128),
        ),
    );
    let ty = clamp_to_limit(
        div_round(
            dy * (TRANSFORM_SCALE as i128) - sy * (a as i128) - sx * (b as i128),
            5 * (TRANSFORM_SCALE as i128),
        ),
    );
    SimilarityTransform { a, b, tx, ty }
}

/// Product of two landmark coordinates, widened.
fn prod(x: i64, y: i64) -> (r: i128)
    requires
        -LANDMARK_LIMIT <= x <= LANDMARK_LIMIT,
        -LANDMARK_LIMIT <= y <= LANDMARK_LIMIT,
    ensures
        r == (x as int) * (y as int),
        -0x1_0000_0000_0000 <= r <= 0x1_0000_0000_0000,
{
    proof {
        assert(-0x1_0000_0000_0000 <= (x as int) * (y as int) <= 0x1_0000_0000_0000)
            by (nonlinear_arith)
            requires
                -LANDMARK_LIMIT <= x as int <= LANDMARK_LIMIT,
                -LANDMARK_LIMIT <= y as int <= LANDMARK_LIMIT,
        ;
    }
    (x as i128) * (y as i128)
}

/// A product of two factors with separate bounds is bounded.
proof fn lemma_mul_range(x: int, mx: int, y: int, my: int)
    requires
        -mx <= x <= mx,
        -my <= y <= my,
        0 <= mx,
        0 <= my,
    ensures
        -(mx * my) <= x * y <= mx * my,
{
    assert(-(mx * my) <= x * y <= mx * my) by (nonlinear_arith)
        requires
            -mx <= x <= mx,
            -my <= y <= my,
            0 <= mx,
            0 <= my,
    ;
}


/// Fixed-point scale of the bilinear interpolation weights.
pub const FRAC_SCALE: i64 = 65536;

/// The pixel of `frame` at `(x, y)`, or 0 outside the image.
pub open spec fn sample_spec(frame: Seq<u8>, w: int, h: int, x: int, y: int) -> int {
    if 0 <= x < w && 0 <= y < h {
        frame[y * w + x] as int
    } else {
        0
    }
}

/// The warped output pixel at `(ox, oy)`: the output position is mapped
/// back through the inverse transform and sampled bilinearly, with
/// out-of-bounds source coordinates contributing 0. A transform with a zero
/// rotation-scale part yields a black image.
pub open spec fn warp_pixel(
    frame: Seq<u8>,
    w: int,
    h: int,
    t: SimilarityTransform,
    ox: int,
    oy: int,
) -> int {
    let det = t.a * t.a + t.b * t.b;
    if det == 0 {
        0
    } else {
        let dx = ox * (COORD_SCALE as int) - t.tx;
        let dy = oy * (COORD_SCALE as int) - t.ty;
        let den = (COORD_SCALE as int) * det;
        let numx = (t.a * dx + t.b * dy) * (TRANSFORM_SCALE as int);
        let numy = (t.a * dy - t.b * dx) * (TRANSFORM_SCALE as int);
        if numx < -den || numx >= w * den || numy < -den || numy >= h * den {
            0
        } else {
            let x0 = (numx + den) / den - 1;
            let y0 = (numy + den) / den - 1;
            let fx = ((numx + den) % den) * (FRAC_SCALE as int) / den;
            let fy = ((numy + den) % den) * (FRAC_SCALE as int) / den;
            let fs = FRAC_SCALE as int;
            let tl = sample_spec(frame, w, h, x0, y0);
            let tr = sample_spec(frame, w, h, x0 + 1, y0);
            let bl = sample_spec(frame, w, h, x0, y0 + 1);
            let br = sample_spec(frame, w, h, x0 + 1, y0 + 1);
            let val = (fs - fx) * (fs - fy) * tl + fx * (fs - fy) * tr + (fs - fx) * fy * bl + fx
                * fy * br;
            let rounded = (val + (fs * fs) / 2) / (fs * fs);
            if rounded > 255 {
                255int
            } else {
                rounded
            }
        }
    }
}

/// Sample one pixel, 0 outside the image.
fn sample(frame: &[u8], w: usize, h: usize, x: i128, y: i128) -> (r: u8)
    requires
        (w as int) * (h as int) <= frame@.len(),
    ensures
        r as int == sample_spec(frame@, w as int, h as int, x as int, y as int),
{
    let flen = frame.len();
    if x >= 0 && x < w as i128 && y >= 0 && y < h as i128 {
        proof {
            assert(frame@.len() == flen);
            assert((y as int) * (w as int) + x < (w as int) * (h as int)) by (nonlinear_arith)
                requires
                    0 <= (x as int) < w as int,
                    0 <= (y as int) < h as int,
            ;
            assert((y as int) * (w as int) >= 0) by (nonlinear_arith)
                requires
                    0 <= y as int,
                    0 <= w as int,
            ;
        }
        frame[(y as usize) * w + (x as usize)]
    } else {
        0
    }
}

/// Compute one warped output pixel.
fn warp_one(
    frame: &[u8],
    w: usize,
    h: usize,
    t: &SimilarityTransform,
    ox: usize,
    oy: usize,
) -> (r: u8)
    requires
        t.wf(),
        (w as int) * (h as int) <= frame@.len(),
        w <= 0x1000000,
        h <= 0x1000000,
        ox <= 4096,
        oy <= 4096,
    ensures
        r as int == warp_pixel(frame@, w as int, h as int, *t, ox as int, oy as int),
{
    proof {
        lemma_mul_range(t.a as int, TRANSFORM_LIMIT as int, t.a as int, TRANSFORM_LIMIT as int);
        lemma_mul_range(t.b as int, TRANSFORM_LIMIT as int, t.b as int, TRANSFORM_LIMIT as int);
    }
    let det: i128 = (t.a as i128) * (t.a as i128) + (t.b as i128) * (t.b as i128);
    if det == 0 {
        return 0;
    }
    proof {
        assert(det as int >= 1) by (nonlinear_arith)
            requires
                det as int == (t.a as int) * (t.a as int) + (t.b as int) * (t.b as int),
                det as int != 0,
        ;
    }
    proof {
        lemma_mul_range(ox as int, 4096, COORD_SCALE as int, 256);
        lemma_mul_range(oy as int, 4096, COORD_SCALE as int, 256);
    }
    let dx: i128 = (ox as i128) * (COORD_SCALE as i128) - (t.tx as i128);
    let dy: i128 = (oy as i128) * (COORD_SCALE as i128) - (t.ty as i128);
    let den: i128 = (COORD_SCALE as i128) * det;
    proof {
        lemma_mul_range(t.a as int, TRANSFORM_LIMIT as int, dx as int, 0x20000000000int);
        lemma_mul_range(t.a as int, TRANSFORM_LIMIT as int, dy as int, 0x20000000000int);
        lemma_mul_range(t.b as int, TRANSFORM_LIMIT as int, dx as int, 0x20000000000int);
        lemma_mul_range(t.b as int, TRANSFORM_LIMIT as int, dy as int, 0x20000000000int);
        lemma_mul_range(
            (t.a as int) * (dx as int) + (t.b as int) * (dy as int),
            0x400000000000000000000int,
            TRANSFORM_SCALE as int,
            0x100000,
        );
        lemma_mul_range(
            (t.a as int) * (dy as int) - (t.b as int) * (dx as int),
            0x400000000000000000000int,
            TRANSFORM_SCALE as int,
            0x100000,
        );
        lemma_mul_range(w as int, 0x1000000, den as int, 0x200000000000000000000000int);
        lemma_mul_range(h as int, 0x1000000, den as int, 0x200000000000000000000000int);
    }
    let numx: i128 = ((t.a as i128) * dx + (t.b as i128) * dy) * (TRANSFORM_SCALE as i128);
    let numy: i128 = ((t.a as i128) * dy - (t.b as i128) * dx) * (TRANSFORM_SCALE as i128);
    if numx < -den || numx >= (w as i128) * den || numy < -den || numy >= (h as i128) * den {
        return 0;
    }
    proof {
        vstd::arithmetic::div_mod::lemma_div_pos_is_pos(numx + den, den as int);
        vstd::arithmetic::div_mod::lemma_div_pos_is_pos(numy + den, den as int);
        vstd::arithmetic::div_mod::lemma_remainder_lower(numx + den, den as int);
        vstd::arithmetic::div_mod::lemma_remainder_upper(numx + den, den as int);
        vstd::arithmetic::div_mod::lemma_remainder_lower(numy + den, den as int);
        vstd::arithmetic::div_mod::lemma_remainder_upper(numy + den, den as int);
    }
    let x0: i128 = (numx + den) / den - 1;
    let y0: i128 = (numy + den) / den - 1;
    let rx: i128 = (numx + den) % den;
    let ry: i128 = (numy + den) % den;
    proof {
        lemma_mul_range(rx as int, 0x200000000000000000000000int, FRAC_SCALE as int, 0x10000);
        lemma_mul_range(ry as int, 0x200000000000000000000000int, FRAC_SCALE as int, 0x10000);
        assert((rx as int) * (FRAC_SCALE as int) <= (den as int) * (FRAC_SCALE as int))
            by (nonlinear_arith)
            requires
                0 <= rx as int <= den as int,
        ;
        assert((ry as int) * (FRAC_SCALE as int) <= (den as int) * (FRAC_SCALE as int))
            by (nonlinear_arith)
            requires
                0 <= ry as int <= den as int,
        ;
        vstd::arithmetic::div_mod::lemma_div_pos_is_pos((rx as int) * (FRAC_SCALE as int), den as int);
        vstd::arithmetic::div_mod::lemma_div_pos_is_pos((ry as int) * (FRAC_SCALE as int), den as int);
        vstd::arithmetic::div_mod::lemma_div_is_ordered(
            (rx as int) * (FRAC_SCALE as int),
            (den as int) * (FRAC_SCALE as int),
            den as int,
        );
        vstd::arithmetic::div_mod::lemma_div_is_ordered(
            (ry as int) * (FRAC_SCALE as int),
            (den as int) * (FRAC_SCALE as int),
            den as int,
        );
        vstd::arithmetic::div_mod::lemma_div_by_multiple(FRAC_SCALE as int, den as int);
    }
    let fx: i128 = rx * (FRAC_SCALE as i128) / den;
    let fy: i128 = ry * (FRAC_SCALE as i128) / den;
    let fs: i128 = FRAC_SCALE as i128;
    let tl = sample(frame, w, h, x0, y0) as i128;
    let tr = sample(frame, w, h, x0 + 1, y0) as i128;
    let bl = sample(frame, w, h, x0, y0 + 1) as i128;
    let br = sample(frame, w, h, x0 + 1, y0 + 1) as i128;
    proof {
        lemma_mul_range(fs as int - fx, 0x10000, fs as int - fy, 0x10000);
        lemma_mul_range(fx as int, 0x10000, fs as int - fy, 0x10000);
        lemma_mul_range(fs as int - fx, 0x10000, fy as int, 0x10000);
        lemma_mul_range(fx as int, 0x10000, fy as int, 0x10000);
        lemma_mul_range((fs as int - fx) * (fs as int - fy), 0x100000000int, tl as int, 255);
        lemma_mul_range((fx as int) * (fs as int - fy), 0x100000000int, tr as int, 255);
        lemma_mul_range((fs as int - fx) * (fy as int), 0x100000000int, bl as int, 255);
        lemma_mul_range((fx as int) * (fy as int), 0x100000000int, br as int, 255);
    }
    let val: i128 = (fs - fx) * (fs - fy) * tl + fx * (fs - fy) * tr + (fs - fx) * fy * bl + fx * fy
        * br;
    proof {
        vstd::arithmetic::div_mod::lemma_div_pos_is_pos(
            (val as int) + ((fs as int) * (fs as int)) / 2,
            (fs as int) * (fs as int),
        );
    }
    let rounded: i128 = (val + (fs * fs) / 2) / (fs * fs);
    if rounded > 255 {
        255
    } else {
        rounded as u8
    }
}

/// Apply the inverse of a similarity transform to produce a square output
/// image by bilinear sampling; out-of-bounds source pixels sample as 0.
pub fn warp_affine(
    frame: &[u8],
    width: usize,
    height: usize,
    t: &SimilarityTransform,
    out_size: usize,
) -> (r: Vec<u8>)
    requires
        t.wf(),
        (width as int) * (height as int) <= frame@.len(),
        width <= 0x1000000,
        height <= 0x1000000,
        out_size <= 4096,
    ensures
        r@.len() == (out_size as int) * (out_size as int),
        forall|k: int|
            0 <= k < r@.len() ==> #[trigger] r@[k] == warp_pixel(
                frame@,
                width as int,
                height as int,
                *t,
                k % (out_size as int),
                k / (out_size as int),
            ),
{
    let mut out: Vec<u8> = Vec::new();
    let mut oy: usize = 0;
    while oy < out_size
        invariant
            oy <= out_size,
            out_size <= 4096,
            width <= 0x1000000,
            height <= 0x1000000,
            t.wf(),
            (width as int) * (height as int) <= frame@.len(),
            out@.len() == (oy as int) * (out_size as int),
            forall|k: int|
                0 <= k < out@.len() ==> #[trigger] out@[k] == warp_pixel(
                    frame@,
                    width as int,
                    height as int,
                    *t,
                    k % (out_size as int),
                    k / (out_size as int),
                ),
        decreases out_size - oy,
    {
        let mut ox: usize = 0;
        while ox < out_size
            invariant
                oy < out_size,
                ox <= out_size,
                out_size <= 4096,
                width <= 0x1000000,
                height <= 0x1000000,
                t.wf(),
                (width as int) * (height as int) <= frame@.len(),
                out@.len() == (oy as int) * (out_size as int) + ox,
                forall|k: int|
                    0 <= k < out@.len() ==> #[trigger] out@[k] == warp_pixel(
                        frame@,
                        width as int,
                        height as int,
                        *t,
                        k % (out_size as int),
                        k / (out_size as int),
                    ),
            decreases out_size - ox,
        {
            proof {
                lemma_mul_range(oy as int, 4096, out_size as int, 4096);
            }
            let p = warp_one(frame, width, height, t, ox, oy);
            out.push(p);
            proof {
                vstd::arithmetic::div_mod::lemma_fundamental_div_mod_converse(
                    (oy as int) * (out_size as int) + (ox as int),
                    out_size as int,
                    oy as int,
                    ox as int,
                );
            }
            ox = ox + 1;
        }
        proof {
            assert((oy as int) * (out_size as int) + (out_size as int) == (oy as int + 1) * (
            out_size as int)) by (nonlinear_arith);
        }
        oy = oy + 1;
    }
    proof {
        assert(out@.len() == (out_size as int) * (out_size as int));
    }
    out
}

/// Align a detected face to the canonical 112x112 crop: estimate the
/// similarity transform from the detected landmarks to the reference
/// landmarks, then warp the frame through its inverse.
pub fn align_face(frame: &[u8], width: u32, height: u32, landmarks: &[(i64, i64); 5]) -> (r: Vec<
    u8,
>)
    requires
        forall|i: int|
            0 <= i < 5 ==> -LANDMARK_LIMIT <= (#[trigger] landmarks@[i]).0 <= LANDMARK_LIMIT
                && -LANDMARK_LIMIT <= landmarks@[i].1 <= LANDMARK_LIMIT,
        (width as int) * (height as int) <= frame@.len(),
        width <= 0x1000000,
        height <= 0x1000000,
    ensures
        r@.len() == (ALIGNED_SIZE as int) * (ALIGNED_SIZE as int),
        forall|k: int|
            0 <= k < r@.len() ==> #[trigger] r@[k] == warp_pixel(
                frame@,
                width as int,
                height as int,
                transform_of(landmarks@, reference_landmarks_spec()),
                k % (ALIGNED_SIZE as int),
                k / (ALIGNED_SIZE as int),
            ),
{
    let reference = reference_landmarks();
    let t = estimate_similarity_transform(landmarks, &reference);
    warp_affine(frame, width as usize, height as usize, &t, ALIGNED_SIZE)
}


} // verus!
