use visage::store::FaceModelStore;
use visage::store::StoreError;
use visage::types::Embedding;
use visage::types::FaceModel;

fn record(id: &str, user: &str, label: &str) -> FaceModel {
    FaceModel {
        id: id.to_string(),
        user: user.to_string(),
        label: label.to_string(),
        embedding: Embedding { values: vec![1000000, 0], model_version: None },
        quality_ppm: 900000,
        created_at: "2025-01-01T00:00:00Z".to_string(),
    }
}

#[test]
fn test_insert_then_list_contains_id() {
    let mut store = FaceModelStore::new();
    store.insert(record("id-1", "alice", "normal")).unwrap();
    let listed = store.list_by_user("alice");
    assert_eq!(listed.len(), 1);
    assert_eq!(listed[0].id, "id-1");
    assert_eq!(listed[0].label, "normal");
    assert_eq!(listed[0].quality_ppm, 900000);
}

#[test]
fn test_insert_duplicate_id_rejected() {
    let mut store = FaceModelStore::new();
    store.insert(record("id-1", "alice", "normal")).unwrap();
    let r = store.insert(record("id-1", "alice", "glasses"));
    assert!(matches!(r, Err(StoreError::DuplicateId)));
    assert_eq!(store.count_all(), 1);
}

#[test]
fn test_gallery_filters_by_user() {
    let mut store = FaceModelStore::new();
    store.insert(record("a1", "alice", "normal")).unwrap();
    store.insert(record("b1", "bob", "normal")).unwrap();
    store.insert(record("a2", "alice", "glasses")).unwrap();
    let gallery = store.get_gallery_for_user("alice");
    assert_eq!(gallery.len(), 2);
    assert_eq!(gallery[0].id, "a1");
    assert_eq!(gallery[1].id, "a2");
    assert!(store.get_gallery_for_user("carol").is_empty());
}

#[test]
fn test_remove_true_exactly_once() {
    let mut store = FaceModelStore::new();
    store.insert(record("id-1", "alice", "normal")).unwrap();
    assert!(store.remove("alice", "id-1"));
    assert!(!store.remove("alice", "id-1"));
    assert_eq!(store.count_all(), 0);
}

#[test]
fn test_remove_wrong_user_leaves_record() {
    let mut store = FaceModelStore::new();
    store.insert(record("id-1", "alice", "normal")).unwrap();
    assert!(!store.remove("bob", "id-1"));
    assert_eq!(store.count_all(), 1);
    let listed = store.list_by_user("alice");
    assert_eq!(listed.len(), 1);
    assert_eq!(listed[0].id, "id-1");
}

#[test]
fn test_open_from_records_validates() {
    let good = vec![record("a", "alice", "x"), record("b", "bob", "y")];
    let store = FaceModelStore::open_from_records(good).unwrap();
    assert_eq!(store.count_all(), 2);

    let dup = vec![record("a", "alice", "x"), record("a", "bob", "y")];
    assert!(matches!(
        FaceModelStore::open_from_records(dup),
        Err(StoreError::DuplicateId)
    ));

    let mut bad = record("a", "alice", "x");
    bad.embedding.values = vec![2000000];
    assert!(matches!(
        FaceModelStore::open_from_records(vec![bad]),
        Err(StoreError::MalformedEmbedding)
    ));
}
