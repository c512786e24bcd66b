use rag_core::embedding::Embedding;
use rag_core::errors::RagError;
use rag_core::similarity::{cosine_similarity, Similarity};

fn emb(coords: Vec<i64>) -> Embedding {
    Embedding::new(coords).expect("coordinates within fixed-point range")
}

fn value(s: &Similarity) -> f64 {
    (s.dot as f64) / ((s.norm_a_sq as f64) * (s.norm_b_sq as f64)).sqrt()
}

#[test]
fn self_similarity_is_one() {
    let v = emb(vec![3, 4]);
    let s = cosine_similarity(&v, &v).expect("non-degenerate");
    assert!(s.is_exactly_one());
    assert!((value(&s) - 1.0).abs() < 1e-12);
}

#[test]
fn self_similarity_is_one_for_longer_vector() {
    let v = emb(vec![-7, 2, 9, 0, 1]);
    let s = cosine_similarity(&v, &v).expect("non-degenerate");
    assert!(s.is_exactly_one());
    assert!((value(&s) - 1.0).abs() < 1e-12);
}

#[test]
fn similarity_is_symmetric() {
    let a = emb(vec![1, 2, 3]);
    let b = emb(vec![4, -5, 6]);
    let ab = cosine_similarity(&a, &b).expect("non-degenerate");
    let ba = cosine_similarity(&b, &a).expect("non-degenerate");
    assert_eq!(ab.dot, ba.dot);
    assert_eq!(ab.norm_a_sq, ba.norm_b_sq);
    assert_eq!(ab.norm_b_sq, ba.norm_a_sq);
    assert!((value(&ab) - value(&ba)).abs() < 1e-12);
}

#[test]
fn mismatched_lengths_fail() {
    let a = emb(vec![1, 0]);
    let b = emb(vec![1, 0, 0]);
    assert_eq!(cosine_similarity(&a, &b), Err(RagError::DimensionMismatch));
    assert_eq!(cosine_similarity(&b, &a), Err(RagError::DimensionMismatch));
}

#[test]
fn zero_norm_vector_fails() {
    let z = emb(vec![0, 0]);
    let v = emb(vec![1, 0]);
    assert_eq!(cosine_similarity(&z, &v), Err(RagError::DegenerateVector));
    assert_eq!(cosine_similarity(&v, &z), Err(RagError::DegenerateVector));
    assert_eq!(cosine_similarity(&z, &z), Err(RagError::DegenerateVector));
}

#[test]
fn known_similarity_values() {
    let q = emb(vec![1, 0]);
    let a = emb(vec![1, 0]);
    let c = emb(vec![1, 1]);
    let qa = cosine_similarity(&q, &a).expect("non-degenerate");
    assert!((value(&qa) - 1.0).abs() < 1e-12);
    let qc = cosine_similarity(&q, &c).expect("non-degenerate");
    assert!((value(&qc) - 0.7071067811865475).abs() < 1e-9);
}

#[test]
fn opposite_vectors_have_similarity_minus_one() {
    let a = emb(vec![2, -3]);
    let b = emb(vec![-2, 3]);
    let s = cosine_similarity(&a, &b).expect("non-degenerate");
    assert!(!s.is_exactly_one());
    assert!((value(&s) + 1.0).abs() < 1e-12);
}
