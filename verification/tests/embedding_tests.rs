use word_vectorizer::error::SifError;
use word_vectorizer::sif::SIFVectorizer;
use word_vectorizer::table::{FrequencyTable, VectorTable};
use word_vectorizer::vector::{EmbeddingVector, NUM_DIMS};

fn dense(head: &[f32]) -> EmbeddingVector {
    let mut bits: Vec<u32> = Vec::new();
    for v in head {
        bits.push(v.to_bits());
    }
    while bits.len() < NUM_DIMS {
        bits.push(0.0f32.to_bits());
    }
    EmbeddingVector::new(bits)
}

/// A vocabulary of "cat" and "dog"; only "cat" has a recorded frequency.
fn build(correct_empty: bool, pc: EmbeddingVector) -> SIFVectorizer {
    let mut vecs = VectorTable::new();
    vecs.insert(b"cat".to_vec(), dense(&[2.0, 0.0])).unwrap();
    vecs.insert(b"dog".to_vec(), dense(&[0.0, 1.0])).unwrap();
    let mut freqs = FrequencyTable::new();
    freqs.insert(b"cat".to_vec(), 0.5f32.to_bits()).unwrap();
    SIFVectorizer::new_from_compiled(vecs, freqs, pc, 1.0f32.to_bits(), correct_empty)
}

fn as_floats(v: &EmbeddingVector) -> Vec<f32> {
    v.bits.iter().map(|b| f32::from_bits(*b)).collect()
}

#[test]
fn embed_empty_returns_zero() {
    let sif = build(false, dense(&[5.0, -3.0]));
    let v = sif.vectorize_sentence("");
    assert_eq!(v.bits, vec![0u32; NUM_DIMS]);
}

#[test]
fn embed_empty_with_correction_policy() {
    let pc = dense(&[5.0, -3.0]);
    let sif = build(true, dense(&[5.0, -3.0]));
    let v = sif.vectorize_sentence("");
    for i in 0..NUM_DIMS {
        let expected = 0.0f32 - f32::from_bits(pc.bits[i]);
        assert_eq!(v.bits[i], expected.to_bits());
    }
}

#[test]
fn out_of_vocabulary_words_are_skipped() {
    let sif = build(false, EmbeddingVector::zero());
    let nothing = sif.vectorize_sentence("unicorn banana spaceship");
    assert_eq!(nothing.bits, vec![0u32; NUM_DIMS]);
    let with_noise = sif.vectorize_sentence("the unicorn saw a cat");
    let alone = sif.vectorize_sentence("cat");
    assert_eq!(with_noise.bits, alone.bits);
}

#[test]
fn weighting_follows_recorded_frequency() {
    let sif = build(false, EmbeddingVector::zero());
    let v = sif.vectorize_sentence("cat");
    let w = 1.0f32 / (1.0f32 + 0.5f32);
    assert_eq!(v.bits[0], (0.0f32 + w * 2.0f32).to_bits());
    assert_eq!(v.bits[1], (0.0f32 + w * 0.0f32).to_bits());
}

#[test]
fn unseen_frequency_defaults_to_one() {
    let sif = build(false, EmbeddingVector::zero());
    let v = sif.vectorize_sentence("dog");
    let w = 1.0f32 / (1.0f32 + 1.0f32);
    assert_eq!(v.bits[1], (0.0f32 + w * 1.0f32).to_bits());
}

#[test]
fn embedding_averages_weighted_vectors() {
    let sif = build(false, EmbeddingVector::zero());
    let v = sif.vectorize_sentence("cat dog");
    let wc = 1.0f32 / (1.0f32 + 0.5f32);
    let wd = 1.0f32 / (1.0f32 + 1.0f32);
    let expected0 = (0.0f32 + wc * 2.0f32 + wd * 0.0f32) / 2.0f32;
    let expected1 = (0.0f32 + wc * 0.0f32 + wd * 1.0f32) / 2.0f32;
    assert_eq!(v.bits[0], expected0.to_bits());
    assert_eq!(v.bits[1], expected1.to_bits());
}

#[test]
fn component_subtraction_applies_to_sentences() {
    let pc = dense(&[0.25, -0.5]);
    let sif = build(false, dense(&[0.25, -0.5]));
    let plain = build(false, EmbeddingVector::zero());
    let with_pc = sif.vectorize_sentence("cat dog");
    let without_pc = plain.vectorize_sentence("cat dog");
    for i in 0..NUM_DIMS {
        let expected = f32::from_bits(without_pc.bits[i]) - f32::from_bits(pc.bits[i]);
        assert_eq!(with_pc.bits[i], expected.to_bits());
    }
}

#[test]
fn normalized_variants_embed_alike() {
    let sif = build(false, EmbeddingVector::zero());
    let base = sif.vectorize_sentence("cat");
    assert!(as_floats(&base).iter().any(|x| *x != 0.0));
    for variant in ["Cat", "CAT!", "  cat."] {
        let v = sif.vectorize_sentence(variant);
        assert_eq!(v.bits, base.bits, "variant {:?}", variant);
    }
}

#[test]
fn vectorize_word_and_membership() {
    let sif = build(false, EmbeddingVector::zero());
    assert!(sif.word_in_vocabulary(b"cat"));
    assert!(!sif.word_in_vocabulary(b"emu"));
    let v = sif.vectorize_word(b"cat").unwrap();
    assert_eq!(v.bits[0], 2.0f32.to_bits());
    assert_eq!(sif.vectorize_word(b"emu").unwrap_err(), SifError::NotFound);
}

#[test]
fn score_texts_scores_embeddings_and_absorbs_degenerate() {
    let sif = build(false, EmbeddingVector::zero());
    let v1 = sif.vectorize_sentence("the cat");
    let v2 = sif.vectorize_sentence("a dog");
    let direct = word_vectorizer::similarity::cosine_similarity(&v1, &v2).unwrap();
    assert_eq!(sif.score_texts("the cat", "a dog"), direct);
    assert_eq!(sif.score_texts("the cat", "a dog"), sif.score_texts("a dog", "the cat"));
    assert_eq!(sif.score_texts("unicorn banana", "the cat"), 0.0f32.to_bits());
    assert_eq!(sif.score_texts("", ""), 0.0f32.to_bits());
}

#[test]
fn uncorrected_embedding_ignores_component() {
    let sif = build(false, dense(&[9.0, 9.0]));
    let plain = build(false, EmbeddingVector::zero());
    let raw = sif.vectorize_sentence_uncorrected("cat dog");
    let corrected_with_zero = plain.vectorize_sentence("cat dog");
    assert_eq!(raw.bits, corrected_with_zero.bits);
}
