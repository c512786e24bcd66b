use rag_core::embedding::Embedding;
use rag_core::errors::RagError;
use rag_core::store::{Document, VectorDB};

fn emb(coords: Vec<i64>) -> Embedding {
    Embedding::new(coords).expect("coordinates within fixed-point range")
}

fn doc(id: &str, content: &str) -> Document {
    Document { id: id.to_string(), content: content.to_string() }
}

fn three_document_store() -> VectorDB {
    let mut db = VectorDB::new();
    db.add_document("a".to_string(), emb(vec![1, 0]), doc("a", "alpha")).unwrap();
    db.add_document("b".to_string(), emb(vec![0, 1]), doc("b", "beta")).unwrap();
    db.add_document("c".to_string(), emb(vec![1, 1]), doc("c", "gamma")).unwrap();
    db
}

#[test]
fn query_length_is_min_of_k_and_size() {
    let db = three_document_store();
    let q = emb(vec![1, 0]);
    assert_eq!(db.query(&q, 0).unwrap().len(), 0);
    assert_eq!(db.query(&q, 2).unwrap().len(), 2);
    assert_eq!(db.query(&q, 3).unwrap().len(), 3);
    assert_eq!(db.query(&q, 100).unwrap().len(), 3);
}

#[test]
fn empty_store_returns_empty_sequence() {
    let db = VectorDB::new();
    let q = emb(vec![1, 0]);
    let docs = db.query(&q, 5).expect("empty store must not fail");
    assert!(docs.is_empty());
    // Even a zero-norm query succeeds on an empty store.
    let z = emb(vec![0, 0]);
    assert!(db.query(&z, 5).expect("empty store must not fail").is_empty());
}

#[test]
fn reinserting_an_id_replaces_the_entry() {
    let mut db = VectorDB::new();
    db.add_document("a".to_string(), emb(vec![1, 0]), doc("a", "first")).unwrap();
    assert_eq!(db.len(), 1);
    db.add_document("a".to_string(), emb(vec![1, 0]), doc("a", "second")).unwrap();
    assert_eq!(db.len(), 1);
    let q = emb(vec![1, 0]);
    let docs = db.query(&q, 1).unwrap();
    assert_eq!(docs.len(), 1);
    assert_eq!(docs[0].content, "second");
}

#[test]
fn repeated_queries_return_identical_results() {
    let db = three_document_store();
    let q = emb(vec![3, 2]);
    let first = db.query(&q, 3).unwrap();
    let second = db.query(&q, 3).unwrap();
    assert_eq!(first, second);
    let third = db.query(&q, 3).unwrap();
    assert_eq!(first, third);
}

#[test]
fn top_two_are_ranked_by_descending_similarity() {
    let db = three_document_store();
    let q = emb(vec![1, 0]);
    let docs = db.query(&q, 2).unwrap();
    assert_eq!(docs.len(), 2);
    assert_eq!(docs[0].id, "a");
    assert_eq!(docs[0].content, "alpha");
    assert_eq!(docs[1].id, "c");
    assert_eq!(docs[1].content, "gamma");
}

#[test]
fn equal_similarities_keep_insertion_order() {
    let mut db = VectorDB::new();
    // Same direction, different magnitudes: identical cosine similarity.
    db.add_document("x".to_string(), emb(vec![2, 0]), doc("x", "ex")).unwrap();
    db.add_document("y".to_string(), emb(vec![5, 0]), doc("y", "why")).unwrap();
    db.add_document("z".to_string(), emb(vec![1, 0]), doc("z", "zed")).unwrap();
    let q = emb(vec![1, 0]);
    let docs = db.query(&q, 3).unwrap();
    assert_eq!(docs[0].id, "x");
    assert_eq!(docs[1].id, "y");
    assert_eq!(docs[2].id, "z");
}

#[test]
fn mismatched_dimension_insert_fails_and_leaves_store_unchanged() {
    let mut db = VectorDB::new();
    db.add_document("a".to_string(), emb(vec![1, 0]), doc("a", "alpha")).unwrap();
    let r = db.add_document("b".to_string(), emb(vec![1, 0, 0]), doc("b", "beta"));
    assert_eq!(r, Err(RagError::DimensionMismatch));
    assert_eq!(db.len(), 1);
    let q = emb(vec![1, 0]);
    let docs = db.query(&q, 5).unwrap();
    assert_eq!(docs.len(), 1);
    assert_eq!(docs[0].id, "a");
    assert_eq!(docs[0].content, "alpha");
}

#[test]
fn mismatched_dimension_query_fails() {
    let db = three_document_store();
    let q = emb(vec![1, 0, 0]);
    assert_eq!(db.query(&q, 2), Err(RagError::DimensionMismatch));
}

#[test]
fn zero_norm_query_fails_on_nonempty_store() {
    let db = three_document_store();
    let z = emb(vec![0, 0]);
    assert_eq!(db.query(&z, 2), Err(RagError::DegenerateVector));
}

#[test]
fn zero_norm_stored_entry_fails_the_query() {
    let mut db = VectorDB::new();
    db.add_document("a".to_string(), emb(vec![1, 0]), doc("a", "alpha")).unwrap();
    db.add_document("z".to_string(), emb(vec![0, 0]), doc("z", "zero")).unwrap();
    let q = emb(vec![1, 0]);
    assert_eq!(db.query(&q, 2), Err(RagError::DegenerateVector));
}

#[test]
fn negative_similarities_rank_below_positive_ones() {
    let mut db = VectorDB::new();
    db.add_document("n".to_string(), emb(vec![-1, 0]), doc("n", "negative")).unwrap();
    db.add_document("p".to_string(), emb(vec![1, 1]), doc("p", "positive")).unwrap();
    let q = emb(vec![1, 0]);
    let docs = db.query(&q, 2).unwrap();
    assert_eq!(docs[0].id, "p");
    assert_eq!(docs[1].id, "n");
}

#[test]
fn embedding_rejects_out_of_range_coordinates() {
    assert!(Embedding::new(vec![32769]).is_none());
    assert!(Embedding::new(vec![-32769]).is_none());
    assert!(Embedding::new(vec![32768, -32768]).is_some());
    assert!(Embedding::new(vec![0i64; 4097]).is_none());
    assert!(Embedding::new(vec![0i64; 4096]).is_some());
}

#[test]
fn embedding_reports_its_dimension() {
    let e = emb(vec![1, 2, 3, 4]);
    assert_eq!(e.dim(), 4);
    let d = e.duplicate();
    assert_eq!(d.dim(), 4);
}
