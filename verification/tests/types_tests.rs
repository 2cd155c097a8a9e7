use visage::types::gallery_similarities;
use visage::types::CosineMatcher;
use visage::types::Embedding;
use visage::types::FaceModel;
use visage::types::Matcher;
use visage::types::SIM_SCALE_PPM;

fn emb(values: Vec<i32>) -> Embedding {
    Embedding { values, model_version: None }
}

fn model(id: &str, label: &str, values: Vec<i32>) -> FaceModel {
    FaceModel {
        id: id.to_string(),
        user: "u".to_string(),
        label: label.to_string(),
        embedding: emb(values),
        quality_ppm: 0,
        created_at: "".to_string(),
    }
}

#[test]
fn test_cosine_similarity_identical() {
    let a = emb(vec![1000000, 0, 0]);
    let b = emb(vec![1000000, 0, 0]);
    assert_eq!(a.similarity(&b), SIM_SCALE_PPM);
}

#[test]
fn test_cosine_similarity_orthogonal() {
    let a = emb(vec![1000000, 0]);
    let b = emb(vec![0, 1000000]);
    assert_eq!(a.similarity(&b), 0);
}

#[test]
fn test_cosine_similarity_opposite() {
    let a = emb(vec![1000000, 0]);
    let b = emb(vec![-1000000, 0]);
    assert_eq!(a.similarity(&b), -SIM_SCALE_PPM);
}

#[test]
fn test_cosine_similarity_zero_vector() {
    let a = emb(vec![0, 0]);
    let b = emb(vec![1000000, 0]);
    assert_eq!(a.similarity(&b), 0);
}

#[test]
fn test_cosine_similarity_diagonal() {
    // unit vector at 45 degrees against an axis: cos = 1/sqrt(2)
    let c = 707107; // 1/sqrt(2) in millionths
    let a = emb(vec![c, c]);
    let b = emb(vec![1000000, 0]);
    let sim = a.similarity(&b);
    assert!((sim - 707107).abs() < 10, "sim = {sim}");
}

#[test]
fn test_euclidean_distance() {
    let a = emb(vec![1000000, 0]);
    let b = emb(vec![0, 1000000]);
    // distance sqrt(2) in millionths
    let d = a.euclidean_distance(&b);
    assert!((d - 1414214).abs() < 2, "d = {d}");
    assert_eq!(a.euclidean_distance(&a), 0);
}

#[test]
fn test_cosine_matcher_constant_time() {
    // Verify all gallery entries are compared (best match is last entry)
    let probe = emb(vec![1000000, 0, 0]);
    let gallery = vec![
        model("1", "decoy1", vec![0, 1000000, 0]),
        model("2", "decoy2", vec![0, 0, 1000000]),
        model("3", "match", vec![1000000, 0, 0]),
    ];

    let sims = gallery_similarities(&probe, &gallery);
    assert_eq!(sims.len(), gallery.len());

    let result = CosineMatcher.compare(&probe, &gallery, 500000);
    assert!(result.matched);
    assert_eq!(result.model_id.as_deref(), Some("3"));
    assert_eq!(result.model_label.as_deref(), Some("match"));
    assert_eq!(result.similarity_ppm, SIM_SCALE_PPM);
}

#[test]
fn test_cosine_matcher_no_match() {
    let probe = emb(vec![1000000, 0, 0]);
    let gallery = vec![model("1", "other", vec![0, 1000000, 0])];

    let result = CosineMatcher.compare(&probe, &gallery, 500000);
    assert!(!result.matched);
    assert_eq!(result.similarity_ppm, 0);
    assert!(result.model_id.is_none());
}

#[test]
fn test_cosine_matcher_empty_gallery() {
    let probe = emb(vec![1000000, 0]);
    let result = CosineMatcher.compare(&probe, &vec![], 500000);
    assert!(!result.matched);
    assert_eq!(result.similarity_ppm, 0);
}

#[test]
fn test_cosine_matcher_earliest_tie_wins() {
    let probe = emb(vec![1000000, 0]);
    let gallery = vec![
        model("first", "a", vec![1000000, 0]),
        model("second", "b", vec![1000000, 0]),
    ];
    let result = CosineMatcher.compare(&probe, &gallery, 400000);
    assert!(result.matched);
    assert_eq!(result.model_id.as_deref(), Some("first"));
}
