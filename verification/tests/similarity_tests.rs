use word_vectorizer::error::SifError;
use word_vectorizer::similarity::cosine_similarity;
use word_vectorizer::vector::{EmbeddingVector, NUM_DIMS};

fn dense(head: &[f32]) -> EmbeddingVector {
    let mut bits: Vec<u32> = Vec::new();
    for v in head {
        bits.push(v.to_bits());
    }
    while bits.len() < NUM_DIMS {
        bits.push(0.0f32.to_bits());
    }
    EmbeddingVector::new(bits)
}

fn score(a: &EmbeddingVector, b: &EmbeddingVector) -> f32 {
    f32::from_bits(cosine_similarity(a, b).unwrap())
}

#[test]
fn self_similarity_is_one() {
    let v = dense(&[3.0, 4.0, -1.5, 0.25]);
    assert!((score(&v, &v) - 1.0).abs() < 1e-4);
    let w = dense(&[-0.75, 120.0, 3.0e-3]);
    assert!((score(&w, &w) - 1.0).abs() < 1e-4);
}

#[test]
fn similarity_is_symmetric() {
    let a = dense(&[1.0, -2.5, 3.0, 0.125, 9.75]);
    let b = dense(&[-4.0, 0.5, 2.25, 7.0, -0.875]);
    assert_eq!(
        cosine_similarity(&a, &b).unwrap(),
        cosine_similarity(&b, &a).unwrap()
    );
}

#[test]
fn dimension_mismatch_is_invalid_input() {
    let short = EmbeddingVector::new(vec![1.0f32.to_bits(); 3]);
    let full = dense(&[1.0, 2.0]);
    assert_eq!(
        cosine_similarity(&short, &full).unwrap_err(),
        SifError::InvalidInput
    );
    assert_eq!(
        cosine_similarity(&full, &short).unwrap_err(),
        SifError::InvalidInput
    );
    let also_short = EmbeddingVector::new(vec![1.0f32.to_bits(); 3]);
    assert_eq!(
        cosine_similarity(&short, &also_short).unwrap_err(),
        SifError::InvalidInput
    );
}

#[test]
fn zero_magnitude_is_degenerate() {
    let zero = EmbeddingVector::zero();
    let full = dense(&[1.0, 2.0]);
    assert_eq!(
        cosine_similarity(&zero, &full).unwrap_err(),
        SifError::DegenerateResult
    );
    assert_eq!(
        cosine_similarity(&full, &zero).unwrap_err(),
        SifError::DegenerateResult
    );
    assert_eq!(
        cosine_similarity(&zero, &zero).unwrap_err(),
        SifError::DegenerateResult
    );
}

#[test]
fn orthogonal_vectors_score_zero() {
    let a = dense(&[1.0, 0.0]);
    let b = dense(&[0.0, 1.0]);
    assert!(score(&a, &b).abs() < 1e-6);
}

#[test]
fn opposite_vectors_score_minus_one() {
    let a = dense(&[2.0, -1.0, 0.5]);
    let b = dense(&[-2.0, 1.0, -0.5]);
    assert!((score(&a, &b) + 1.0).abs() < 1e-4);
}

#[test]
fn known_angle_scores_inverse_root_two() {
    let a = dense(&[1.0]);
    let b = dense(&[1.0, 1.0]);
    assert!((score(&a, &b) - 1.0 / 2.0f32.sqrt()).abs() < 1e-4);
}
