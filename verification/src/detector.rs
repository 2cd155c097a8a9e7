//! SCRFD detector post-processing: output-tensor discovery, anchor grid
//! geometry, and non-maximum suppression over decoded detections.
//!
//! The neural network itself runs outside the library; the functions here
//! take its outputs as plain values.

use vstd::prelude::*;

verus! {

/// True when `names[i]` is exactly `target`.
pub open spec fn name_at(names: Seq<String>, target: Seq<char>, i: int) -> bool {
    0 <= i < names.len() && names[i]@ == target
}

/// True when some output tensor bears exactly `target`.
pub open spec fn has_name(names: Seq<String>, target: Seq<char>) -> bool {
    exists|i: int| name_at(names, target, i)
}

/// True when every one of the nine expected SCRFD output names is present.
pub open spec fn all_scrfd_names_present(names: Seq<String>) -> bool {
    &&& has_name(names, "score_8"@)
    &&& has_name(names, "score_16"@)
    &&& has_name(names, "score_32"@)
    &&& has_name(names, "bbox_8"@)
    &&& has_name(names, "bbox_16"@)
    &&& has_name(names, "bbox_32"@)
    &&& has_name(names, "kps_8"@)
    &&& has_name(names, "kps_16"@)
    &&& has_name(names, "kps_32"@)
}

/// `i` is the first position in `names` holding exactly `target`.
pub open spec fn first_name_at(names: Seq<String>, target: Seq<char>, i: int) -> bool {
    &&& name_at(names, target, i)
    &&& forall|j: int| 0 <= j < i ==> names[j]@ != target
}

/// Find the first output tensor named exactly `target`.
fn find_name(names: &Vec<String>, target: &str) -> (r: Option<usize>)
    ensures
        match r {
            Some(i) => first_name_at(names@, target@, i as int),
            None => !has_name(names@, target@),
        },
{
    let t: String = target.to_owned();
    let mut i: usize = 0;
    while i < names.len()
        invariant
            i <= names@.len(),
            t@ == target@,
            forall|j: int| 0 <= j < i ==> names@[j]@ != target@,
        decreases names@.len() - i,
    {
        if names[i] == t {
            return Some(i);
        }
        i = i + 1;
    }
    None
}

/// Discover the output-tensor ordering of an SCRFD model by name.
///
/// When all nine expected names of the form `score_S`, `bbox_S`, `kps_S`
/// (for strides 8, 16, 32) are present, each stride slot maps to the first
/// tensor bearing each name. Otherwise the standard positional layout is
/// assumed: outputs 0-2 are scores, 3-5 bboxes, 6-8 keypoints, each in
/// stride order 8, 16, 32.
pub fn discover_output_indices(names: &Vec<String>) -> (r: [(usize, usize, usize); 3])
    ensures
        all_scrfd_names_present(names@) ==> {
            &&& first_name_at(names@, "score_8"@, r[0].0 as int)
            &&& first_name_at(names@, "bbox_8"@, r[0].1 as int)
            &&& first_name_at(names@, "kps_8"@, r[0].2 as int)
            &&& first_name_at(names@, "score_16"@, r[1].0 as int)
            &&& first_name_at(names@, "bbox_16"@, r[1].1 as int)
            &&& first_name_at(names@, "kps_16"@, r[1].2 as int)
            &&& first_name_at(names@, "score_32"@, r[2].0 as int)
            &&& first_name_at(names@, "bbox_32"@, r[2].1 as int)
            &&& first_name_at(names@, "kps_32"@, r[2].2 as int)
        },
        !all_scrfd_names_present(names@) ==> r == [
            (0usize, 3usize, 6usize),
            (1usize, 4usize, 7usize),
            (2usize, 5usize, 8usize),
        ],
{
    let s8 = find_name(names, "score_8");
    let s16 = find_name(names, "score_16");
    let s32 = find_name(names, "score_32");
    let b8 = find_name(names, "bbox_8");
    let b16 = find_name(names, "bbox_16");
    let b32 = find_name(names, "bbox_32");
    let k8 = find_name(names, "kps_8");
    let k16 = find_name(names, "kps_16");
    let k32 = find_name(names, "kps_32");
    match (s8, s16, s32, b8, b16, b32, k8, k16, k32) {
        (
            Some(s8),
            Some(s16),
            Some(s32),
            Some(b8),
            Some(b16),
            Some(b32),
            Some(k8),
            Some(k16),
            Some(k32),
        ) => [(s8, b8, k8), (s16, b16, k16), (s32, b32, k32)],
        _ => [(0usize, 3usize, 6usize), (1usize, 4usize, 7usize), (2usize, 5usize, 8usize)],
    }
}

/// Letterbox geometry for an aspect-preserving resize of a `w` x `h` image
/// into a `target` x `target` square: the scale is `target` over the larger
/// side, the resized size is the rounded scaled size, and the content is
/// centered with the padding split evenly (floor on the leading side).
pub fn letterbox_params(width: u32, height: u32, target: u32) -> (r: (usize, usize, usize, usize))
    requires
        1 <= width,
        1 <= height,
        1 <= target <= 65536,
    ensures
        ({
            let w = width as int;
            let h = height as int;
            let t = target as int;
            let m = if w >= h {
                w
            } else {
                h
            };
            &&& r.0 == (2 * w * t + m) / (2 * m)
            &&& r.1 == (2 * h * t + m) / (2 * m)
            &&& r.0 <= t
            &&& r.1 <= t
            &&& r.2 == (t - r.0) / 2
            &&& r.3 == (t - r.1) / 2
        }),
{
    let w = width as u64;
    let h = height as u64;
    let t = target as u64;
    let m = if w >= h {
        w
    } else {
        h
    };
    proof {
        lemma_mul_bound2(2 * (w as int), 0x2_0000_0000int, t as int, 65536int);
        lemma_mul_bound2(2 * (h as int), 0x2_0000_0000int, t as int, 65536int);
        lemma_mul_bound2(2 * (m as int), 0x2_0000_0000int, t as int, 65536int);
    }
    let new_w = (2 * w * t + m) / (2 * m);
    let new_h = (2 * h * t + m) / (2 * m);
    proof {
        lemma_letterbox_side_bound(w as int, m as int, t as int);
        lemma_letterbox_side_bound(h as int, m as int, t as int);
    }
    let pad_x = (t - new_w) / 2;
    let pad_y = (t - new_h) / 2;
    (new_w as usize, new_h as usize, pad_x as usize, pad_y as usize)
}

/// The rounded scaled side never exceeds the target square.
proof fn lemma_letterbox_side_bound(s: int, m: int, t: int)
    requires
        1 <= s <= m,
        1 <= t,
    ensures
        (2 * s * t + m) / (2 * m) <= t,
{
    assert(2 * s * t + m <= 2 * m * t + 2 * m - 1) by (nonlinear_arith)
        requires
            1 <= s <= m,
            1 <= t,
    ;
    vstd::arithmetic::div_mod::lemma_div_is_ordered(2 * s * t + m, 2 * m * t + 2 * m - 1, 2 * m);
    vstd::arithmetic::div_mod::lemma_fundamental_div_mod_converse(
        2 * m * t + 2 * m - 1,
        2 * m,
        t,
        2 * m - 1,
    );
}

/// Center of the anchor cell an output index addresses: two anchors per
/// cell, cells in row-major grid order, scaled by the stride.
pub fn anchor_center(idx: usize, grid_w: usize, stride: usize) -> (r: (usize, usize))
    requires
        idx <= 0x1000000,
        1 <= grid_w <= 4096,
        1 <= stride <= 64,
    ensures
        r.0 == ((idx / 2) % grid_w) * stride,
        r.1 == ((idx / 2) / grid_w) * stride,
{
    let cell = idx / 2;
    proof {
        lemma_mul_bound2((cell as int) % (grid_w as int), 4096int, stride as int, 64int);
        vstd::arithmetic::div_mod::lemma_div_pos_is_pos(cell as int, grid_w as int);
        vstd::arithmetic::div_mod::lemma_div_is_ordered(
            cell as int,
            0x1000000int,
            grid_w as int,
        );
        lemma_mul_bound2((cell as int) / (grid_w as int), 0x1000000int, stride as int, 64int);
    }
    let cx = (cell % grid_w) * stride;
    let cy = (cell / grid_w) * stride;
    (cx, cy)
}

/// Detector failure surfaced to callers. A missing model file is fatal at
/// startup; a failed inference fails the single call.
#[derive(Debug)]
pub enum DetectorError {
    ModelNotFound(String),
    InferenceFailed(String),
    /// No face was detected: a normal outcome.
    NoFaceDetected,
}

/// Coordinates are held in fixed-point 1/256-pixel units; this bound keeps
/// every intersection-over-union product inside the machine integer types.
pub const COORD_LIMIT: i64 = 1000000000000;

/// Scale of detection coordinates: fixed-point units per pixel.
pub const COORD_SCALE: i64 = 256;

/// A detected face in original-frame coordinates.
///
/// Positions and sizes are fixed-point values in 1/256-pixel units;
/// the confidence is in parts per million.
#[derive(Clone, Copy, Debug)]
pub struct Detection {
    pub x: i64,
    pub y: i64,
    pub width: i64,
    pub height: i64,
    /// Detector confidence in parts per million of certainty.
    pub confidence_ppm: i64,
    /// Five facial landmarks in the same fixed-point units:
    /// left eye, right eye, nose tip, left mouth corner, right mouth corner.
    pub landmarks: Option<[(i64, i64); 5]>,
}

/// A detection whose coordinates fit the fixed-point bounds.
pub open spec fn det_wf(d: Detection) -> bool {
    &&& -COORD_LIMIT <= d.x <= COORD_LIMIT
    &&& -COORD_LIMIT <= d.y <= COORD_LIMIT
    &&& -COORD_LIMIT <= d.width <= COORD_LIMIT
    &&& -COORD_LIMIT <= d.height <= COORD_LIMIT
    &&& 0 <= d.confidence_ppm <= 1000000
}

/// Every detection in the sequence is within bounds.
pub open spec fn dets_wf(s: Seq<Detection>) -> bool {
    forall|i: int| 0 <= i < s.len() ==> det_wf(#[trigger] s[i])
}

/// Width of the intersection of two boxes (0 when disjoint).
pub open spec fn inter_w(a: Detection, b: Detection) -> int {
    let lo = if a.x >= b.x {
        a.x as int
    } else {
        b.x as int
    };
    let hi = if a.x + a.width <= b.x + b.width {
        a.x + a.width
    } else {
        b.x + b.width
    };
    if hi - lo > 0 {
        hi - lo
    } else {
        0
    }
}

/// Height of the intersection of two boxes (0 when disjoint).
pub open spec fn inter_h(a: Detection, b: Detection) -> int {
    let lo = if a.y >= b.y {
        a.y as int
    } else {
        b.y as int
    };
    let hi = if a.y + a.height <= b.y + b.height {
        a.y + a.height
    } else {
        b.y + b.height
    };
    if hi - lo > 0 {
        hi - lo
    } else {
        0
    }
}

/// Area of the intersection of two boxes.
pub open spec fn inter_area(a: Detection, b: Detection) -> int {
    inter_w(a, b) * inter_h(a, b)
}

/// Area of the union of two boxes.
pub open spec fn union_area(a: Detection, b: Detection) -> int {
    (a.width as int) * (a.height as int) + (b.width as int) * (b.height as int) - inter_area(a, b)
}

/// Intersection-over-union strictly exceeds `thr_ppm / 1000000`, compared
/// exactly by cross-multiplication. Boxes with an empty union never exceed.
pub open spec fn iou_exceeds(a: Detection, b: Detection, thr_ppm: i64) -> bool {
    union_area(a, b) > 0 && inter_area(a, b) * 1000000 > (thr_ppm as int) * union_area(a, b)
}

/// Intersection-over-union in parts per million, rounded toward zero.
pub open spec fn iou_ppm_spec(a: Detection, b: Detection) -> int {
    if union_area(a, b) <= 0 {
        0
    } else {
        inter_area(a, b) * 1000000 / union_area(a, b)
    }
}

/// Exceeding the threshold is symmetric in the two boxes.
pub proof fn lemma_iou_symmetric(a: Detection, b: Detection, thr_ppm: i64)
    ensures
        iou_exceeds(a, b, thr_ppm) == iou_exceeds(b, a, thr_ppm),
{
}

/// A box of positive area always exceeds any threshold below 1 with itself.
pub proof fn lemma_iou_self(a: Detection, thr_ppm: i64)
    requires
        a.width > 0,
        a.height > 0,
        0 <= thr_ppm < 1000000,
    ensures
        iou_exceeds(a, a, thr_ppm),
{
    assert(inter_w(a, a) == a.width as int && inter_h(a, a) == a.height as int);
    assert((a.width as int) * (a.height as int) > 0) by (nonlinear_arith)
        requires
            a.width > 0,
            a.height > 0,
    ;
    assert(((a.width as int) * (a.height as int)) * 1000000 > (thr_ppm as int) * ((a.width as int)
        * (a.height as int))) by (nonlinear_arith)
        requires
            (a.width as int) * (a.height as int) > 0,
            0 <= thr_ppm < 1000000,
    ;
}

/// Bound on a product of two bounded factors.
proof fn lemma_mul_bound(x: int, y: int, m: int)
    requires
        -m <= x <= m,
        -m <= y <= m,
        0 <= m,
    ensures
        -(m * m) <= x * y <= m * m,
{
    assert(-(m * m) <= x * y <= m * m) by (nonlinear_arith)
        requires
            -m <= x <= m,
            -m <= y <= m,
            0 <= m,
    ;
}

/// Bound on a product of two factors with separate bounds.
proof fn lemma_mul_bound2(x: int, mx: int, y: int, my: int)
    requires
        -mx <= x <= mx,
        -my <= y <= my,
        0 <= mx,
        0 <= my,
    ensures
        -(mx * my) <= x * y <= mx * my,
{
    assert(-(mx * my) <= x * y <= mx * my) by (nonlinear_arith)
        requires
            -mx <= x <= mx,
            -my <= y <= my,
            0 <= mx,
            0 <= my,
    ;
}

/// Decide whether the intersection-over-union of two boxes strictly exceeds
/// the threshold, by exact cross-multiplied integer comparison.
pub fn iou_exceeds_check(a: &Detection, b: &Detection, thr_ppm: i64) -> (r: bool)
    requires
        det_wf(*a),
        det_wf(*b),
        0 <= thr_ppm <= 1000000,
    ensures
        r == iou_exceeds(*a, *b, thr_ppm),
{
    let x_lo = if a.x >= b.x {
        a.x
    } else {
        b.x
    };
    let x_hi = if a.x + a.width <= b.x + b.width {
        a.x + a.width
    } else {
        b.x + b.width
    };
    let y_lo = if a.y >= b.y {
        a.y
    } else {
        b.y
    };
    let y_hi = if a.y + a.height <= b.y + b.height {
        a.y + a.height
    } else {
        b.y + b.height
    };
    let iw: i64 = if x_hi - x_lo > 0 {
        x_hi - x_lo
    } else {
        0
    };
    let ih: i64 = if y_hi - y_lo > 0 {
        y_hi - y_lo
    } else {
        0
    };
    proof {
        lemma_mul_bound(iw as int, ih as int, 4 * COORD_LIMIT as int);
        lemma_mul_bound(a.width as int, a.height as int, COORD_LIMIT as int);
        lemma_mul_bound(b.width as int, b.height as int, COORD_LIMIT as int);
    }
    let inter: i128 = (iw as i128) * (ih as i128);
    let area_a: i128 = (a.width as i128) * (a.height as i128);
    let area_b: i128 = (b.width as i128) * (b.height as i128);
    let joint: i128 = area_a + area_b - inter;
    proof {
        lemma_mul_bound2(
            thr_ppm as int,
            1000000int,
            joint as int,
            20000000000000000000000000int,
        );
    }
    joint > 0 && inter * 1000000 > (thr_ppm as i128) * joint
}

/// Intersection-over-union of two boxes in parts per million.
pub fn iou_ppm(a: &Detection, b: &Detection) -> (r: i64)
    requires
        det_wf(*a),
        det_wf(*b),
    ensures
        r == iou_ppm_spec(*a, *b),
        0 <= r,
{
    let x_lo = if a.x >= b.x {
        a.x
    } else {
        b.x
    };
    let x_hi = if a.x + a.width <= b.x + b.width {
        a.x + a.width
    } else {
        b.x + b.width
    };
    let y_lo = if a.y >= b.y {
        a.y
    } else {
        b.y
    };
    let y_hi = if a.y + a.height <= b.y + b.height {
        a.y + a.height
    } else {
        b.y + b.height
    };
    let iw: i64 = if x_hi - x_lo > 0 {
        x_hi - x_lo
    } else {
        0
    };
    let ih: i64 = if y_hi - y_lo > 0 {
        y_hi - y_lo
    } else {
        0
    };
    proof {
        lemma_mul_bound(iw as int, ih as int, 4 * COORD_LIMIT as int);
        lemma_mul_bound(a.width as int, a.height as int, COORD_LIMIT as int);
        lemma_mul_bound(b.width as int, b.height as int, COORD_LIMIT as int);
        assert(inter_area(*a, *b) >= 0) by (nonlinear_arith)
            requires
                inter_w(*a, *b) >= 0,
                inter_h(*a, *b) >= 0,
                inter_area(*a, *b) == inter_w(*a, *b) * inter_h(*a, *b),
        ;
    }
    let inter: i128 = (iw as i128) * (ih as i128);
    let area_a: i128 = (a.width as i128) * (a.height as i128);
    let area_b: i128 = (b.width as i128) * (b.height as i128);
    let joint: i128 = area_a + area_b - inter;
    if joint <= 0 {
        return 0;
    }
    proof {
        // the intersection is contained in each box, so it is at most the union
        if iw > 0 && ih > 0 {
            assert((iw as int) * (ih as int) <= (a.width as int) * (a.height as int))
                by (nonlinear_arith)
                requires
                    0 <= iw as int <= a.width as int,
                    0 <= ih as int <= a.height as int,
            ;
            assert((iw as int) * (ih as int) <= (b.width as int) * (b.height as int))
                by (nonlinear_arith)
                requires
                    0 <= iw as int <= b.width as int,
                    0 <= ih as int <= b.height as int,
            ;
        } else {
            assert((iw as int) * (ih as int) == 0) by (nonlinear_arith)
                requires
                    iw == 0 || ih == 0,
            ;
        }
    }
    let q: i128 = inter * 1000000 / joint;
    proof {
        vstd::arithmetic::div_mod::lemma_div_pos_is_pos((inter as int) * 1000000, joint as int);
        assert((inter as int) * 1000000 <= (joint as int) * 1000000) by (nonlinear_arith)
            requires
                inter as int <= joint as int,
        ;
        vstd::arithmetic::div_mod::lemma_div_is_ordered(
            (inter as int) * 1000000,
            (joint as int) * 1000000,
            joint as int,
        );
        vstd::arithmetic::div_mod::lemma_div_by_multiple(1000000, joint as int);
    }
    q as i64
}

/// Number of `false` entries in a sequence of flags.
spec fn count_false(s: Seq<bool>) -> nat
    decreases s.len(),
{
    if s.len() == 0 {
        0
    } else {
        count_false(s.drop_last()) + if s.last() {
            0nat
        } else {
            1nat
        }
    }
}

/// Turning flags on never increases the count of `false` entries.
proof fn lemma_count_false_monotone(s1: Seq<bool>, s2: Seq<bool>)
    requires
        s1.len() == s2.len(),
        forall|i: int| 0 <= i < s1.len() ==> ((#[trigger] s1[i]) ==> s2[i]),
    ensures
        count_false(s2) <= count_false(s1),
    decreases s1.len(),
{
    if s1.len() > 0 {
        lemma_count_false_monotone(s1.drop_last(), s2.drop_last());
    }
}

/// Turning one flag from `false` to `true` strictly decreases the count.
proof fn lemma_count_false_update(s: Seq<bool>, i: int)
    requires
        0 <= i < s.len(),
        !s[i],
    ensures
        count_false(s.update(i, true)) < count_false(s),
    decreases s.len(),
{
    let u = s.update(i, true);
    if i == s.len() - 1 {
        assert(u.drop_last() =~= s.drop_last());
        lemma_count_false_monotone(s.drop_last(), u.drop_last());
    } else {
        assert(u.drop_last() =~= s.drop_last().update(i, true));
        lemma_count_false_update(s.drop_last(), i);
    }
}

/// Every element of `r` is an element of `src`.
pub open spec fn all_from(r: Seq<Detection>, src: Seq<Detection>) -> bool {
    forall|k: int| #![trigger r[k]] 0 <= k < r.len() ==> src.contains(r[k])
}

/// One input detection is accounted for by the kept detections: it is kept
/// itself, or a kept detection of no lesser confidence overlaps it past the
/// threshold.
pub open spec fn covered_by(d: Detection, kept: Seq<Detection>, thr_ppm: i64) -> bool {
    exists|k: int|
        0 <= k < kept.len() && ((#[trigger] kept[k]) == d || (iou_exceeds(kept[k], d, thr_ppm)
            && kept[k].confidence_ppm >= d.confidence_ppm))
}

/// Non-maximum suppression: greedily keep the most confident remaining
/// detection and drop every remaining detection whose overlap with it
/// exceeds the threshold.
///
/// The result is sorted by descending confidence; kept detections pairwise
/// do not exceed the overlap threshold; every input detection is either kept
/// or overlapped by a kept detection of no lesser confidence; and every kept
/// detection is one of the inputs.
pub fn nms(detections: Vec<Detection>, iou_threshold_ppm: i64) -> (r: Vec<Detection>)
    requires
        dets_wf(detections@),
        0 <= iou_threshold_ppm <= 1000000,
    ensures
        r@.len() <= detections@.len(),
        forall|k1: int, k2: int|
            0 <= k1 < k2 < r@.len() ==> (#[trigger] r@[k1]).confidence_ppm >= (
            #[trigger] r@[k2]).confidence_ppm,
        forall|k1: int, k2: int|
            0 <= k1 < r@.len() && 0 <= k2 < r@.len() && k1 != k2 ==> !iou_exceeds(
                #[trigger] r@[k1],
                #[trigger] r@[k2],
                iou_threshold_ppm,
            ),
        forall|i: int| 0 <= i < detections@.len() ==> covered_by(
            #[trigger] detections@[i],
            r@,
            iou_threshold_ppm,
        ),
        all_from(r@, detections@),
{
    let ghost dv = detections@;
    let n = detections.len();
    let mut processed: Vec<bool> = Vec::new();
    let mut t: usize = 0;
    while t < n
        invariant
            t <= n,
            processed@.len() == t,
            count_false(processed@) == t,
            forall|i: int| 0 <= i < t ==> !(#[trigger] processed@[i]),
        decreases n - t,
    {
        let ghost p0 = processed@;
        processed.push(false);
        proof {
            assert(processed@.drop_last() =~= p0);
        }
        t = t + 1;
    }
    let mut keep: Vec<Detection> = Vec::new();
    let ghost mut src_idx: Seq<int> = Seq::empty();
    loop
        invariant
            dv == detections@,
            n == dv.len(),
            dets_wf(dv),
            0 <= iou_threshold_ppm <= 1000000,
            processed@.len() == n,
            keep@.len() + count_false(processed@) <= n,
            // every kept detection is an input, at its recorded index
            src_idx.len() == keep@.len(),
            forall|k: int|
                0 <= k < keep@.len() ==> 0 <= #[trigger] src_idx[k] < n && keep@[k] == dv[src_idx[k]],
            // kept detections are sorted by descending confidence
            forall|k1: int, k2: int|
                0 <= k1 < k2 < keep@.len() ==> (#[trigger] keep@[k1]).confidence_ppm >= (
                #[trigger] keep@[k2]).confidence_ppm,
            // kept detections pairwise do not overlap past the threshold
            forall|k1: int, k2: int|
                0 <= k1 < keep@.len() && 0 <= k2 < keep@.len() && k1 != k2 ==> !iou_exceeds(
                    #[trigger] keep@[k1],
                    #[trigger] keep@[k2],
                    iou_threshold_ppm,
                ),
            // kept detections dominate every unprocessed detection and do not
            // overlap it
            forall|k: int, i: int|
                0 <= k < keep@.len() && 0 <= i < n && !processed@[i] ==> (
                #[trigger] keep@[k]).confidence_ppm >= (#[trigger] dv[i]).confidence_ppm
                    && !iou_exceeds(keep@[k], dv[i], iou_threshold_ppm),
            // every processed detection is covered by the kept ones
            forall|i: int| 0 <= i < n && processed@[i] ==> covered_by(
                #[trigger] dv[i],
                keep@,
                iou_threshold_ppm,
            ),
        ensures
            dv == detections@,
            n == dv.len(),
            keep@.len() <= n,
            forall|k1: int, k2: int|
                0 <= k1 < k2 < keep@.len() ==> (#[trigger] keep@[k1]).confidence_ppm >= (
                #[trigger] keep@[k2]).confidence_ppm,
            forall|k1: int, k2: int|
                0 <= k1 < keep@.len() && 0 <= k2 < keep@.len() && k1 != k2 ==> !iou_exceeds(
                    #[trigger] keep@[k1],
                    #[trigger] keep@[k2],
                    iou_threshold_ppm,
                ),
            forall|i: int| 0 <= i < n ==> covered_by(#[trigger] dv[i], keep@, iou_threshold_ppm),
            src_idx.len() == keep@.len(),
            forall|k: int|
                0 <= k < keep@.len() ==> 0 <= #[trigger] src_idx[k] < n && keep@[k] == dv[src_idx[k]],
        decreases count_false(processed@),
    {
        // find the most confident unprocessed detection
        let mut best: usize = 0;
        let mut found: bool = false;
        let mut j: usize = 0;
        while j < n
            invariant
                n == dv.len(),
                dv == detections@,
                processed@.len() == n,
                j <= n,
                found ==> best < j && !processed@[best as int],
                found ==> forall|i: int|
                    0 <= i < j && !processed@[i] ==> (#[trigger] dv[i]).confidence_ppm <= dv[
                        best as int
                    ].confidence_ppm,
                !found ==> forall|i: int| 0 <= i < j ==> #[trigger] processed@[i],
            decreases n - j,
        {
            if !processed[j] {
                if !found || detections[j].confidence_ppm > detections[best].confidence_ppm {
                    best = j;
                    found = true;
                }
            }
            j = j + 1;
        }
        if !found {
            break ;
        }
        // keep it and mark it processed
        let ghost keep_start = keep@;
        let ghost before_pick = processed@;
        let chosen: Detection = detections[best];
        keep.push(chosen);
        proof {
            src_idx = src_idx.push(best as int);
        }
        processed.set(best, true);
        proof {
            lemma_count_false_update(before_pick, best as int);
            assert(processed@ =~= before_pick.update(best as int, true));
        }
        let ghost after_pick = processed@;
        let ghost kept_now = keep@;
        // drop every unprocessed detection overlapping it past the threshold
        let mut s: usize = 0;
        while s < n
            invariant
                n == dv.len(),
                dv == detections@,
                dets_wf(dv),
                0 <= iou_threshold_ppm <= 1000000,
                s <= n,
                processed@.len() == n,
                after_pick.len() == n,
                keep@ == kept_now,
                keep@.len() >= 1,
                keep@[keep@.len() - 1] == chosen,
                det_wf(chosen),
                // flags only turn on, and only for overlapping detections
                forall|i: int| 0 <= i < n && after_pick[i] ==> #[trigger] processed@[i],
                forall|i: int|
                    0 <= i < n && #[trigger] processed@[i] && !after_pick[i] ==> iou_exceeds(
                        chosen,
                        dv[i],
                        iou_threshold_ppm,
                    ) && chosen.confidence_ppm >= dv[i].confidence_ppm,
                // scanned prefix: unprocessed entries do not overlap the chosen
                forall|i: int|
                    0 <= i < s && !(#[trigger] processed@[i]) ==> !iou_exceeds(
                        chosen,
                        dv[i],
                        iou_threshold_ppm,
                    ),
                // chosen dominates everything unprocessed
                forall|i: int|
                    0 <= i < n && !(#[trigger] processed@[i]) ==> chosen.confidence_ppm >= dv[
                        i
                    ].confidence_ppm,
            decreases n - s,
        {
            if !processed[s] {
                if iou_exceeds_check(&chosen, &detections[s], iou_threshold_ppm) {
                    processed.set(s, true);
                }
            }
            s = s + 1;
        }
        proof {
            lemma_count_false_monotone(after_pick, processed@);
            // every kept detection is an input
            assert(keep@ == keep_start.push(chosen));
            assert(chosen == dv[best as int]);
            // sortedness and dominance of the extended keep
            assert forall|k1: int, k2: int| 0 <= k1 < k2 < keep@.len() implies (
            #[trigger] keep@[k1]).confidence_ppm >= (#[trigger] keep@[k2]).confidence_ppm by {
                if k2 == keep@.len() - 1 {
                    assert(keep@[k1] == keep_start[k1]);
                    assert(!before_pick[best as int]);
                }
            }
            // pairwise non-overlap of the extended keep
            assert forall|k1: int, k2: int|
                0 <= k1 < keep@.len() && 0 <= k2 < keep@.len() && k1 != k2 implies !iou_exceeds(
                #[trigger] keep@[k1],
                #[trigger] keep@[k2],
                iou_threshold_ppm,
            ) by {
                if k1 < keep@.len() - 1 && k2 < keep@.len() - 1 {
                    assert(keep@[k1] == keep_start[k1] && keep@[k2] == keep_start[k2]);
                } else if k2 == keep@.len() - 1 {
                    assert(keep@[k1] == keep_start[k1]);
                    assert(!before_pick[best as int]);
                    assert(!iou_exceeds(keep@[k1], chosen, iou_threshold_ppm));
                } else {
                    assert(keep@[k2] == keep_start[k2]);
                    assert(!before_pick[best as int]);
                    assert(!iou_exceeds(keep@[k2], chosen, iou_threshold_ppm));
                    lemma_iou_symmetric(chosen, keep@[k2], iou_threshold_ppm);
                }
            }
            // the extended keep still dominates everything unprocessed
            assert forall|k: int, i: int|
                0 <= k < keep@.len() && 0 <= i < n && !processed@[i] implies (
            #[trigger] keep@[k]).confidence_ppm >= (#[trigger] dv[i]).confidence_ppm
                && !iou_exceeds(keep@[k], dv[i], iou_threshold_ppm) by {
                assert(!before_pick[i]);
                if k < keep@.len() - 1 {
                    assert(keep@[k] == keep_start[k]);
                }
            }
            // every processed detection is covered by the extended keep
            assert forall|i: int| 0 <= i < n && processed@[i] implies covered_by(
                #[trigger] dv[i],
                keep@,
                iou_threshold_ppm,
            ) by {
                if before_pick[i] {
                    let k = choose|k: int|
                        0 <= k < keep_start.len() && ((#[trigger] keep_start[k]) == dv[i] || (
                        iou_exceeds(keep_start[k], dv[i], iou_threshold_ppm)
                            && keep_start[k].confidence_ppm >= dv[i].confidence_ppm));
                    assert(keep@[k] == keep_start[k]);
                } else if i == best as int {
                    assert(keep@[keep@.len() - 1] == dv[i]);
                } else {
                    assert(after_pick[i] == before_pick[i]);
                    assert(processed@[i] && !after_pick[i]);
                    assert(keep@[keep@.len() - 1] == chosen);
                }
            }
        }
    }
    proof {
        assert forall|k: int| #![trigger keep@[k]] 0 <= k < keep@.len() implies dv.contains(
            keep@[k],
        ) by {
            assert(0 <= src_idx[k] < n && keep@[k] == dv[src_idx[k]]);
        }
        assert(all_from(keep@, dv));
        assert(all_from(keep@, detections@));
    }
    keep
}

/// Suppression of nothing is nothing: with no input detections, the
/// suppressed result is empty.
pub proof fn lemma_nms_empty(dv: Seq<Detection>, rv: Seq<Detection>)
    requires
        dv.len() == 0,
        all_from(rv, dv),
    ensures
        rv.len() == 0,
{
    if rv.len() > 0 {
        assert(dv.contains(rv[0]));
    }
}

/// Suppression keeps pairwise non-overlapping detections all: when no two
/// distinct input detections exceed the overlap threshold, the result of
/// suppression holds every input detection and has the same length.
pub proof fn lemma_nms_disjoint_keeps_all(dv: Seq<Detection>, rv: Seq<Detection>, thr_ppm: i64)
    requires
        dv.no_duplicates(),
        forall|i: int, j: int|
            0 <= i < dv.len() && 0 <= j < dv.len() && i != j ==> !iou_exceeds(
                #[trigger] dv[i],
                #[trigger] dv[j],
                thr_ppm,
            ),
        rv.len() <= dv.len(),
        forall|i: int| 0 <= i < dv.len() ==> covered_by(#[trigger] dv[i], rv, thr_ppm),
        all_from(rv, dv),
    ensures
        rv.len() == dv.len(),
        forall|i: int| 0 <= i < dv.len() ==> rv.contains(#[trigger] dv[i]),
{
    assert forall|i: int| 0 <= i < dv.len() implies rv.contains(#[trigger] dv[i]) by {
        let k = choose|k: int|
            0 <= k < rv.len() && ((#[trigger] rv[k]) == dv[i] || (iou_exceeds(rv[k], dv[i], thr_ppm)
                && rv[k].confidence_ppm >= dv[i].confidence_ppm));
        if rv[k] == dv[i] {
            assert(rv.contains(dv[i]));
        } else {
            assert(dv.contains(rv[k]));
            let j = choose|j: int| 0 <= j < dv.len() && dv[j] == rv[k];
            assert(j != i ==> !iou_exceeds(dv[j], dv[i], thr_ppm));
            assert(j == i);
            assert(rv.contains(dv[i]));
        }
    }
    broadcast use vstd::seq_lib::seq_to_set_is_finite;

    dv.unique_seq_to_set();
    rv.lemma_cardinality_of_set();
    assert(dv.to_set().subset_of(rv.to_set()));
    vstd::set_lib::lemma_len_subset(dv.to_set(), rv.to_set());
}

/// Of two detections overlapping past the threshold, suppression keeps only
/// the more confident one.
pub proof fn lemma_nms_two_overlapping(a: Detection, b: Detection, rv: Seq<Detection>, thr_ppm: i64)
    requires
        a.width > 0,
        a.height > 0,
        0 <= thr_ppm < 1000000,
        iou_exceeds(a, b, thr_ppm),
        a.confidence_ppm > b.confidence_ppm,
        covered_by(a, rv, thr_ppm),
        forall|k1: int, k2: int|
            0 <= k1 < rv.len() && 0 <= k2 < rv.len() && k1 != k2 ==> !iou_exceeds(
                #[trigger] rv[k1],
                #[trigger] rv[k2],
                thr_ppm,
            ),
        all_from(rv, seq![a, b]),
    ensures
        rv =~= seq![a],
{
    let dv = seq![a, b];
    let ka = choose|k: int|
        0 <= k < rv.len() && ((#[trigger] rv[k]) == a || (iou_exceeds(rv[k], a, thr_ppm)
            && rv[k].confidence_ppm >= a.confidence_ppm));
    assert(dv.contains(rv[ka]));
    assert(rv[ka] == a || rv[ka] == b);
    assert(rv[ka] == a);
    assert forall|k: int| 0 <= k < rv.len() implies rv[k] == a by {
        assert(dv.contains(rv[k]));
        assert(rv[k] == a || rv[k] == b);
        if rv[k] == b {
            assert(k != ka);
            lemma_iou_symmetric(a, b, thr_ppm);
            assert(iou_exceeds(rv[ka], rv[k], thr_ppm));
            assert(false);
        }
    }
    if rv.len() >= 2 {
        lemma_iou_self(a, thr_ppm);
        assert(rv[0] == a && rv[1] == a);
        assert(false);
    }
    assert(rv.len() == 1);
}

} // verus!
