//! Embeddings, gallery records and the cosine matcher.
//!
//! Embedding components and similarity scores are fixed-point values in
//! parts per million: a component of a unit vector lies in
//! [-SIM_SCALE_PPM, SIM_SCALE_PPM], and a cosine similarity of 1 is
//! SIM_SCALE_PPM.

use vstd::prelude::*;
use vstd::arithmetic::div_mod::lemma_div_is_ordered;
use vstd::arithmetic::div_mod::lemma_div_by_multiple;

verus! {

/// One unit of similarity: 1.0 in parts per million.
pub const SIM_SCALE_PPM: i64 = 1000000;

/// Dimension of the embeddings the recognition model produces.
pub const EMBEDDING_DIM: usize = 512;

/// Largest embedding length the matcher accepts; keeps every intermediate
/// product inside the machine integer types.
pub const MAX_EMBEDDING_LEN: usize = 8192;

/// Face embedding vector in fixed-point parts per million.
pub struct Embedding {
    /// Components, each in [-SIM_SCALE_PPM, SIM_SCALE_PPM] for a vector
    /// treated as L2-normalized.
    pub values: Vec<i32>,
    /// Model version that produced this embedding (e.g., "w600k_r50").
    pub model_version: Option<String>,
}

/// Well-formed embedding components: bounded length, components of a vector
/// whose norm is at most 1.
pub open spec fn embedding_values_wf(v: Seq<i32>) -> bool {
    &&& v.len() <= MAX_EMBEDDING_LEN
    &&& forall|i: int| 0 <= i < v.len() ==> -SIM_SCALE_PPM <= #[trigger] v[i] <= SIM_SCALE_PPM
}

impl Embedding {
    /// A well-formed embedding: bounded length, components of a vector whose
    /// norm is at most 1.
    pub open spec fn wf(&self) -> bool {
        embedding_values_wf(self.values@)
    }
}

impl Clone for Embedding {
    /// Clones keep the exact components and version tag.
    fn clone(&self) -> (r: Self)
        ensures
            r.values@ == self.values@,
            r.model_version == self.model_version,
    {
        Embedding { values: self.values.clone(), model_version: self.model_version.clone() }
    }
}

/// Sum of `a[i] * b[i]` over the first `n` index pairs.
pub open spec fn dot_prefix(a: Seq<i32>, b: Seq<i32>, n: int) -> int
    decreases n,
{
    if n <= 0 {
        0
    } else {
        dot_prefix(a, b, n - 1) + (a[n - 1] as int) * (b[n - 1] as int)
    }
}

/// Number of index pairs two zipped vectors produce.
pub open spec fn zip_len(a: Seq<i32>, b: Seq<i32>) -> int {
    if a.len() <= b.len() {
        a.len() as int
    } else {
        b.len() as int
    }
}

/// Inner product of two embeddings over their zipped components.
pub open spec fn dot_spec(a: Seq<i32>, b: Seq<i32>) -> int {
    dot_prefix(a, b, zip_len(a, b))
}

/// `r` is the integer square root of `n`.
pub open spec fn is_isqrt(r: int, n: int) -> bool {
    &&& 0 <= r
    &&& r * r <= n
    &&& n < (r + 1) * (r + 1)
}

/// The integer square root of `n`.
pub open spec fn isqrt_spec(n: int) -> int {
    choose|r: int| #[trigger] is_isqrt(r, n)
}

/// Cosine similarity in parts per million: the inner product divided by the
/// integer square root of the product of the squared norms, rounded toward
/// zero. Zero when either vector has norm zero.
pub open spec fn similarity_spec(a: Seq<i32>, b: Seq<i32>) -> int {
    let n = zip_len(a, b);
    let dot = dot_prefix(a, b, n);
    let na = dot_prefix(a, a, n);
    let nb = dot_prefix(b, b, n);
    if na * nb <= 0 {
        0
    } else {
        let r = isqrt_spec(na * nb);
        if dot >= 0 {
            dot * (SIM_SCALE_PPM as int) / r
        } else {
            -((-dot) * (SIM_SCALE_PPM as int) / r)
        }
    }
}

/// A squared norm is never negative.
pub proof fn lemma_norm_sq_nonneg(a: Seq<i32>, n: int)
    ensures
        dot_prefix(a, a, n) >= 0,
    decreases n,
{
    if n > 0 {
        lemma_norm_sq_nonneg(a, n - 1);
        assert((a[n - 1] as int) * (a[n - 1] as int) >= 0) by (nonlinear_arith);
    }
}

/// Cauchy-Schwarz: the square of an inner product is at most the product of
/// the squared norms.
#[verifier::rlimit(60)]
pub proof fn lemma_cauchy_schwarz(a: Seq<i32>, b: Seq<i32>, n: int)
    ensures
        dot_prefix(a, b, n) * dot_prefix(a, b, n) <= dot_prefix(a, a, n) * dot_prefix(b, b, n),
    decreases n,
{
    if n <= 0 {
        assert(dot_prefix(a, b, n) * dot_prefix(a, b, n) <= dot_prefix(a, a, n) * dot_prefix(
            b,
            b,
            n,
        ));
    } else {
        lemma_cauchy_schwarz(a, b, n - 1);
        lemma_norm_sq_nonneg(a, n - 1);
        lemma_norm_sq_nonneg(b, n - 1);
        let d = dot_prefix(a, b, n - 1);
        let na = dot_prefix(a, a, n - 1);
        let nb = dot_prefix(b, b, n - 1);
        let x = a[n - 1] as int;
        let y = b[n - 1] as int;
        assert((2 * x * y * d) * (2 * x * y * d) <= (na * y * y + nb * x * x) * (na * y * y + nb * x
            * x)) by (nonlinear_arith)
            requires
                d * d <= na * nb,
                na >= 0,
                nb >= 0,
        ;
        assert(na * y * y + nb * x * x >= 0) by (nonlinear_arith)
            requires
                na >= 0,
                nb >= 0,
        ;
        assert(2 * x * y * d <= na * y * y + nb * x * x) by (nonlinear_arith)
            requires
                (2 * x * y * d) * (2 * x * y * d) <= (na * y * y + nb * x * x) * (na * y * y + nb
                    * x * x),
                na * y * y + nb * x * x >= 0,
        ;
        assert((d + x * y) * (d + x * y) == d * d + 2 * x * y * d + (x * x) * (y * y))
            by (nonlinear_arith);
        assert((na + x * x) * (nb + y * y) == na * nb + na * y * y + nb * x * x + (x * x) * (y
            * y)) by (nonlinear_arith);
        assert((d + x * y) * (d + x * y) <= (na + x * x) * (nb + y * y));
    }
}

/// Integer square roots exist for every natural number.
proof fn lemma_isqrt_exists(n: nat)
    ensures
        exists|r: int| #[trigger] is_isqrt(r, n as int),
    decreases n,
{
    if n == 0 {
        assert(is_isqrt(0, 0)) by (nonlinear_arith);
    } else {
        lemma_isqrt_exists((n - 1) as nat);
        let r = choose|r: int| #[trigger] is_isqrt(r, (n - 1) as int);
        if n < (r + 1) * (r + 1) {
            assert(is_isqrt(r, n as int));
        } else {
            assert(is_isqrt(r + 1, n as int)) by (nonlinear_arith)
                requires
                    r * r <= n - 1,
                    n >= (r + 1) * (r + 1),
                    n - 1 < (r + 1) * (r + 1),
            ;
        }
    }
}

/// Integer square roots are unique.
proof fn lemma_isqrt_unique(r1: int, r2: int, n: int)
    requires
        is_isqrt(r1, n),
        is_isqrt(r2, n),
    ensures
        r1 == r2,
{
    assert(r1 == r2) by (nonlinear_arith)
        requires
            0 <= r1 && r1 * r1 <= n < (r1 + 1) * (r1 + 1),
            0 <= r2 && r2 * r2 <= n < (r2 + 1) * (r2 + 1),
    ;
}

/// `isqrt_spec(n)` satisfies the square-root bounds.
pub proof fn lemma_isqrt_spec(n: int)
    requires
        n >= 0,
    ensures
        is_isqrt(isqrt_spec(n), n),
{
    lemma_isqrt_exists(n as nat);
}

/// Bound on a product of two bounded factors.
proof fn lemma_abs_mul_bound(x: int, y: int, m: int)
    requires
        -m <= x <= m,
        -m <= y <= m,
        0 <= m,
    ensures
        -(m * m) <= x * y <= m * m,
{
    assert(-(m * m) <= x * y <= m * m) by (nonlinear_arith)
        requires
            -m <= x <= m,
            -m <= y <= m,
            0 <= m,
    ;
}

/// Integer square root by binary search.
fn isqrt128(n: u128) -> (r: u128)
    ensures
        is_isqrt(r as int, n as int),
{
    let mut lo: u128 = 0;
    let mut hi: u128 = 0x1_0000_0000_0000_0000;
    proof {
        assert((0x1_0000_0000_0000_0000 as int) * (0x1_0000_0000_0000_0000 as int) > u128::MAX)
            by (nonlinear_arith);
    }
    while lo + 1 < hi
        invariant
            0 <= lo < hi <= 0x1_0000_0000_0000_0000,
            (lo as int) * (lo as int) <= n as int,
            (n as int) < (hi as int) * (hi as int),
        decreases hi - lo,
    {
        let mid = lo + (hi - lo) / 2;
        proof {
            assert(lo < mid < hi);
            assert((mid as int) * (mid as int) <= (0xFFFF_FFFF_FFFF_FFFF as int) * (
            0xFFFF_FFFF_FFFF_FFFF as int)) by (nonlinear_arith)
                requires
                    0 <= mid as int <= 0xFFFF_FFFF_FFFF_FFFF as int,
            ;
        }
        if mid * mid <= n {
            lo = mid;
        } else {
            hi = mid;
        }
    }
    lo
}

impl Embedding {
    /// Cosine similarity between two embeddings, in parts per million.
    ///
    /// Returns a value in [-SIM_SCALE_PPM, SIM_SCALE_PPM]; higher means more
    /// similar. Constant-time: every zipped component pair is visited, with
    /// no early exit. Zero when either vector has norm zero.
    pub fn similarity(&self, other: &Embedding) -> (r: i64)
        requires
            self.wf(),
            other.wf(),
        ensures
            r == similarity_spec(self.values@, other.values@),
            -SIM_SCALE_PPM <= r <= SIM_SCALE_PPM,
    {
        let ghost av = self.values@;
        let ghost bv = other.values@;
        let n: usize = if self.values.len() <= other.values.len() {
            self.values.len()
        } else {
            other.values.len()
        };
        let mut dot: i64 = 0;
        let mut na: i64 = 0;
        let mut nb: i64 = 0;
        let mut i: usize = 0;
        while i < n
            invariant
                i <= n,
                n == zip_len(av, bv),
                n <= MAX_EMBEDDING_LEN,
                self.wf(),
                other.wf(),
                av == self.values@,
                bv == other.values@,
                dot == dot_prefix(av, bv, i as int),
                na == dot_prefix(av, av, i as int),
                nb == dot_prefix(bv, bv, i as int),
                -(i as int) * 1000000000000 <= dot as int <= (i as int) * 1000000000000,
                0 <= na as int <= (i as int) * 1000000000000,
                0 <= nb as int <= (i as int) * 1000000000000,
            decreases n - i,
        {
            let x = self.values[i] as i64;
            let y = other.values[i] as i64;
            proof {
                lemma_abs_mul_bound(x as int, y as int, SIM_SCALE_PPM as int);
                lemma_abs_mul_bound(x as int, x as int, SIM_SCALE_PPM as int);
                lemma_abs_mul_bound(y as int, y as int, SIM_SCALE_PPM as int);
                assert((x as int) * (x as int) >= 0) by (nonlinear_arith);
                assert((y as int) * (y as int) >= 0) by (nonlinear_arith);
            }
            dot = dot + x * y;
            na = na + x * x;
            nb = nb + y * y;
            i = i + 1;
        }
        if na == 0 || nb == 0 {
            proof {
                assert((na as int) * (nb as int) == 0) by (nonlinear_arith)
                    requires
                        na == 0 || nb == 0,
                ;
            }
            return 0;
        }
        proof {
            assert((na as int) * (nb as int) > 0) by (nonlinear_arith)
                requires
                    na as int > 0,
                    nb as int > 0,
            ;
        }
        proof {
            lemma_abs_mul_bound(na as int, nb as int, 8192int * 1000000000000int);
        }
        let prod: u128 = (na as u128) * (nb as u128);
        let root = isqrt128(prod);
        proof {
            lemma_isqrt_spec((na as int) * (nb as int));
            lemma_isqrt_unique(root as int, isqrt_spec((na as int) * (nb as int)), prod as int);
            lemma_cauchy_schwarz(av, bv, n as int);
            assert(root as int >= 1) by (nonlinear_arith)
                requires
                    is_isqrt(root as int, prod as int),
                    prod as int >= 1,
            ;
            assert(-(root as int) <= dot as int <= root as int) by (nonlinear_arith)
                requires
                    (dot as int) * (dot as int) <= prod as int,
                    (prod as int) < (root as int + 1) * (root as int + 1),
                    root as int >= 0,
            ;
        }
        let dabs: u128 = if dot >= 0 {
            dot as u128
        } else {
            (-dot) as u128
        };
        let q: u128 = dabs * 1000000u128 / root;
        proof {
            lemma_div_is_ordered(
                (dabs as int) * 1000000,
                (root as int) * 1000000,
                root as int,
            );
            lemma_div_by_multiple(1000000, root as int);
        }
        let qi: i64 = q as i64;
        if dot >= 0 {
            qi
        } else {
            -qi
        }
    }

    /// Cosine similarity, under the historical name.
    pub fn cosine_similarity(&self, other: &Embedding) -> (r: i64)
        requires
            self.wf(),
            other.wf(),
        ensures
            r == similarity_spec(self.values@, other.values@),
            -SIM_SCALE_PPM <= r <= SIM_SCALE_PPM,
    {
        self.similarity(other)
    }
}

/// Sum of squared component differences over the first `n` index pairs.
pub open spec fn dist_sq_prefix(a: Seq<i32>, b: Seq<i32>, n: int) -> int
    decreases n,
{
    if n <= 0 {
        0
    } else {
        dist_sq_prefix(a, b, n - 1) + ((a[n - 1] as int) - (b[n - 1] as int)) * ((a[n - 1] as int)
            - (b[n - 1] as int))
    }
}

impl Embedding {
    /// Euclidean distance between two embeddings, in parts per million:
    /// the integer square root of the summed squared component differences.
    pub fn euclidean_distance(&self, other: &Embedding) -> (r: i64)
        requires
            self.wf(),
            other.wf(),
        ensures
            is_isqrt(r as int, dist_sq_prefix(self.values@, other.values@, zip_len(self.values@, other.values@))),
    {
        let ghost av = self.values@;
        let ghost bv = other.values@;
        let n: usize = if self.values.len() <= other.values.len() {
            self.values.len()
        } else {
            other.values.len()
        };
        let mut sum: i64 = 0;
        let mut i: usize = 0;
        while i < n
            invariant
                i <= n,
                n == zip_len(av, bv),
                n <= MAX_EMBEDDING_LEN,
                self.wf(),
                other.wf(),
                av == self.values@,
                bv == other.values@,
                sum == dist_sq_prefix(av, bv, i as int),
                0 <= sum as int <= (i as int) * 4000000000000,
            decreases n - i,
        {
            let x = self.values[i] as i64;
            let y = other.values[i] as i64;
            let d = x - y;
            proof {
                lemma_abs_mul_bound(d as int, d as int, 2 * SIM_SCALE_PPM as int);
                assert((d as int) * (d as int) >= 0) by (nonlinear_arith);
            }
            sum = sum + d * d;
            i = i + 1;
        }
        let root = isqrt128(sum as u128);
        proof {
            assert(root as int <= 1000000000) by (nonlinear_arith)
                requires
                    is_isqrt(root as int, sum as int),
                    0 <= sum as int <= 8192 * 4000000000000,
            ;
        }
        root as i64
    }
}

/// When a vector has positive norm, its similarity with itself is exactly 1.
pub proof fn lemma_similarity_self(a: Seq<i32>)
    requires
        dot_prefix(a, a, a.len() as int) > 0,
    ensures
        similarity_spec(a, a) == SIM_SCALE_PPM,
{
    let n = a.len() as int;
    let na = dot_prefix(a, a, n);
    assert(na * na > 0) by (nonlinear_arith)
        requires
            na > 0,
    ;
    assert(is_isqrt(na, na * na)) by (nonlinear_arith)
        requires
            na > 0,
    ;
    lemma_isqrt_spec(na * na);
    lemma_isqrt_unique(na, isqrt_spec(na * na), na * na);
    lemma_div_by_multiple(SIM_SCALE_PPM as int, na);
    assert(na * (SIM_SCALE_PPM as int) == (SIM_SCALE_PPM as int) * na) by (nonlinear_arith);
}

/// Orthogonal vectors have similarity exactly 0.
pub proof fn lemma_similarity_orthogonal(a: Seq<i32>, b: Seq<i32>)
    requires
        dot_spec(a, b) == 0,
    ensures
        similarity_spec(a, b) == 0,
{
    let n = zip_len(a, b);
    let na = dot_prefix(a, a, n);
    let nb = dot_prefix(b, b, n);
    if na * nb > 0 {
        let r = isqrt_spec(na * nb);
        lemma_isqrt_spec(na * nb);
        assert(r >= 1) by (nonlinear_arith)
            requires
                is_isqrt(r, na * nb),
                na * nb >= 1,
        ;
        vstd::arithmetic::div_mod::lemma_div_of0(r);
    }
}

proof fn lemma_dot_negated(a: Seq<i32>, b: Seq<i32>, n: int)
    requires
        n <= a.len(),
        n <= b.len(),
        forall|i: int| 0 <= i < n ==> (#[trigger] b[i]) as int == -((a[i]) as int),
    ensures
        dot_prefix(a, b, n) == -dot_prefix(a, a, n),
        dot_prefix(b, b, n) == dot_prefix(a, a, n),
    decreases n,
{
    if n > 0 {
        lemma_dot_negated(a, b, n - 1);
        let x = a[n - 1] as int;
        let y = b[n - 1] as int;
        assert(x * y == -(x * x) && y * y == x * x) by (nonlinear_arith)
            requires
                y == -x,
        ;
    }
}

/// Antipodal vectors of positive norm have similarity exactly -1.
pub proof fn lemma_similarity_antipodal(a: Seq<i32>, b: Seq<i32>)
    requires
        a.len() == b.len(),
        forall|i: int| 0 <= i < a.len() ==> (#[trigger] b[i]) as int == -((a[i]) as int),
        dot_prefix(a, a, a.len() as int) > 0,
    ensures
        similarity_spec(a, b) == -SIM_SCALE_PPM,
{
    let n = a.len() as int;
    lemma_dot_negated(a, b, n);
    let na = dot_prefix(a, a, n);
    assert(na * na > 0) by (nonlinear_arith)
        requires
            na > 0,
    ;
    assert(is_isqrt(na, na * na)) by (nonlinear_arith)
        requires
            na > 0,
    ;
    lemma_isqrt_spec(na * na);
    lemma_isqrt_unique(na, isqrt_spec(na * na), na * na);
    lemma_div_by_multiple(SIM_SCALE_PPM as int, na);
    assert(na * (SIM_SCALE_PPM as int) == (SIM_SCALE_PPM as int) * na) by (nonlinear_arith);
}

/// A zero vector has similarity 0 with everything.
pub proof fn lemma_similarity_zero_vector(a: Seq<i32>, b: Seq<i32>)
    requires
        dot_prefix(a, a, zip_len(a, b)) == 0,
    ensures
        similarity_spec(a, b) == 0,
{
    let n = zip_len(a, b);
    let nb = dot_prefix(b, b, n);
    assert(dot_prefix(a, a, n) * nb == 0) by (nonlinear_arith)
        requires
            dot_prefix(a, a, n) == 0,
    ;
}

/// Abstract value of a stored face model.
pub struct FaceModelView {
    pub id: Seq<char>,
    pub user: Seq<char>,
    pub label: Seq<char>,
    pub embedding: Seq<i32>,
    pub model_version: Option<String>,
    pub quality_ppm: i64,
    pub created_at: Seq<char>,
}

/// A stored face model with metadata.
pub struct FaceModel {
    /// Stable opaque identifier.
    pub id: String,
    /// Owning username.
    pub user: String,
    /// Human-readable label.
    pub label: String,
    pub embedding: Embedding,
    /// Detector confidence at enrollment, in parts per million.
    pub quality_ppm: i64,
    /// ISO-8601 creation timestamp.
    pub created_at: String,
}

impl View for FaceModel {
    type V = FaceModelView;

    open spec fn view(&self) -> FaceModelView {
        FaceModelView {
            id: self.id@,
            user: self.user@,
            label: self.label@,
            embedding: self.embedding.values@,
            model_version: self.embedding.model_version,
            quality_ppm: self.quality_ppm,
            created_at: self.created_at@,
        }
    }
}

impl Clone for FaceModel {
    /// Clones keep the abstract value.
    fn clone(&self) -> (r: Self)
        ensures
            r@ == self@,
    {
        FaceModel {
            id: self.id.clone(),
            user: self.user.clone(),
            label: self.label.clone(),
            embedding: self.embedding.clone(),
            quality_ppm: self.quality_ppm,
            created_at: self.created_at.clone(),
        }
    }
}

/// Result of matching a probe embedding against a gallery.
pub struct MatchResult {
    pub matched: bool,
    /// Cosine similarity of the best match, in parts per million.
    pub similarity_ppm: i64,
    /// Identifier of the matched model (only on a match).
    pub model_id: Option<String>,
    /// Label of the matched model (only on a match).
    pub model_label: Option<String>,
}

/// Every embedding in the gallery is well-formed.
pub open spec fn gallery_wf(g: Seq<FaceModel>) -> bool {
    forall|i: int| 0 <= i < g.len() ==> (#[trigger] g[i]).embedding.wf()
}

/// Index of the best match among the first `n` gallery entries: the first
/// index achieving the maximal similarity (a later entry replaces the best
/// only when strictly more similar).
pub open spec fn best_match_idx(probe: Seq<i32>, g: Seq<FaceModel>, n: int) -> int
    decreases n,
{
    if n <= 1 {
        0
    } else {
        let b = best_match_idx(probe, g, n - 1);
        if similarity_spec(probe, g[n - 1].embedding.values@) > similarity_spec(
            probe,
            g[b].embedding.values@,
        ) {
            n - 1
        } else {
            b
        }
    }
}

/// Strategy for comparing a probe embedding against a gallery of enrolled
/// faces.
pub trait Matcher {
    /// Compare `probe` against every entry of `gallery`.
    ///
    /// On an empty gallery: no match, similarity 0. Otherwise the result
    /// carries the maximal similarity over the whole gallery (earliest entry
    /// on ties), and reports a match exactly when it reaches `threshold_ppm`,
    /// naming the matched model.
    fn compare(&self, probe: &Embedding, gallery: &Vec<FaceModel>, threshold_ppm: i64) -> (r:
        MatchResult)
        requires
            probe.wf(),
            gallery_wf(gallery@),
        ensures
            gallery@.len() == 0 ==> r.matched == false && r.similarity_ppm == 0 && r.model_id
                is None && r.model_label is None,
            gallery@.len() > 0 ==> {
                let b = best_match_idx(probe.values@, gallery@, gallery@.len() as int);
                let s = similarity_spec(probe.values@, gallery@[b].embedding.values@);
                &&& r.similarity_ppm == s
                &&& r.matched == (s >= threshold_ppm)
                &&& r.matched ==> r.model_id == Some(gallery@[b].id) && r.model_label == Some(
                    gallery@[b].label,
                )
                &&& !r.matched ==> r.model_id is None && r.model_label is None
            },
    ;
}

/// Cosine-similarity matcher with constant-time gallery traversal.
///
/// Always visits every gallery entry, computing one inner product per entry,
/// with no early exit, so that timing does not leak gallery size or match
/// position.
pub struct CosineMatcher;

/// Compute the similarity of `probe` against every gallery entry: exactly
/// one inner product per entry, whatever the values.
pub fn gallery_similarities(probe: &Embedding, gallery: &Vec<FaceModel>) -> (r: Vec<i64>)
    requires
        probe.wf(),
        gallery_wf(gallery@),
    ensures
        r@.len() == gallery@.len(),
        forall|i: int|
            0 <= i < gallery@.len() ==> r@[i] == similarity_spec(
                probe.values@,
                (#[trigger] gallery@[i]).embedding.values@,
            ),
{
    let mut sims: Vec<i64> = Vec::new();
    let mut i: usize = 0;
    while i < gallery.len()
        invariant
            i <= gallery@.len(),
            probe.wf(),
            gallery_wf(gallery@),
            sims@.len() == i,
            forall|j: int|
                0 <= j < i ==> sims@[j] == similarity_spec(
                    probe.values@,
                    (#[trigger] gallery@[j]).embedding.values@,
                ),
        decreases gallery@.len() - i,
    {
        let s = probe.similarity(&gallery[i].embedding);
        sims.push(s);
        i = i + 1;
    }
    sims
}

impl Matcher for CosineMatcher {
    fn compare(&self, probe: &Embedding, gallery: &Vec<FaceModel>, threshold_ppm: i64) -> (r:
        MatchResult) {
        let sims = gallery_similarities(probe, gallery);
        if gallery.len() == 0 {
            return MatchResult {
                matched: false,
                similarity_ppm: 0,
                model_id: None,
                model_label: None,
            };
        }
        let mut best_idx: usize = 0;
        let mut best_sim: i64 = sims[0];
        let mut i: usize = 1;
        while i < gallery.len()
            invariant
                1 <= i <= gallery@.len(),
                sims@.len() == gallery@.len(),
                forall|j: int|
                    0 <= j < gallery@.len() ==> sims@[j] == similarity_spec(
                        probe.values@,
                        (#[trigger] gallery@[j]).embedding.values@,
                    ),
                best_idx == best_match_idx(probe.values@, gallery@, i as int),
                0 <= best_idx < i,
                best_sim == sims@[best_idx as int],
            decreases gallery@.len() - i,
        {
            if sims[i] > best_sim {
                best_sim = sims[i];
                best_idx = i;
            }
            i = i + 1;
        }
        if best_sim >= threshold_ppm {
            MatchResult {
                matched: true,
                similarity_ppm: best_sim,
                model_id: Some(gallery[best_idx].id.clone()),
                model_label: Some(gallery[best_idx].label.clone()),
            }
        } else {
            MatchResult {
                matched: false,
                similarity_ppm: best_sim,
                model_id: None,
                model_label: None,
            }
        }
    }
}

} // verus!
