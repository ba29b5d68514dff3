#![allow(unused)]

use word_vectorizer::sif::SIFVectorizer;
use word_vectorizer::similarity::cosine_similarity;
use word_vectorizer::table::{FrequencyTable, VectorTable};
use word_vectorizer::vector::{EmbeddingVector, NUM_DIMS};

fn dense(head: &[f32]) -> EmbeddingVector {
    let mut bits: Vec<u32> = Vec::new();
    for v in head {
        bits.push(v.to_bits());
    }
    while bits.len() < NUM_DIMS {
        bits.push(0.0f32.to_bits());
    }
    EmbeddingVector::new(bits)
}

/// The compiled reference table is an artifact of the offline data
/// pipeline; these tests supply a small equivalent vocabulary in which
/// "cat" and "feline" point the same way and "eggplant" does not.
fn reference_vectorizer() -> SIFVectorizer {
    let mut vecs = VectorTable::new();
    vecs.insert(b"cat".to_vec(), dense(&[1.0, 0.8, 0.1])).unwrap();
    vecs.insert(b"feline".to_vec(), dense(&[0.9, 0.9, 0.2])).unwrap();
    vecs.insert(b"eggplant".to_vec(), dense(&[0.1, 0.0, 1.0])).unwrap();
    let mut others = [
        "would", "it", "be", "okay", "if", "i", "saved", "everyone", "some", "time", "and",
        "just", "went", "mad", "now", "can", "play", "with", "madness", "the", "surest", "sign",
        "that", "youre", "crazy", "is", "thinking", "only", "one", "thats", "sane",
    ];
    for (n, word) in others.iter().enumerate() {
        let x = (n as f32 + 1.0) / 32.0;
        vecs.insert(word.as_bytes().to_vec(), dense(&[x, 1.0 - x, x * x]))
            .unwrap();
    }
    SIFVectorizer::new_from_compiled(
        vecs,
        FrequencyTable::new(),
        EmbeddingVector::zero(),
        1.0f32.to_bits(),
        false,
    )
}

#[test]
fn sanity_check_word_similarity() {
    let wv = reference_vectorizer();
    let wv1 = wv.vectorize_word(b"cat").unwrap();
    let wv2 = wv.vectorize_word(b"feline").unwrap();
    let wv3 = wv.vectorize_word(b"eggplant").unwrap();
    let cat_feline_sim = f32::from_bits(cosine_similarity(&wv1, &wv2).unwrap());
    let cat_eggplant_sim = f32::from_bits(cosine_similarity(&wv1, &wv3).unwrap());
    println!("Cat/Feline sim: {}", cat_feline_sim);
    println!("Cat/eggplant sim: {}", cat_eggplant_sim);
    assert!(cat_feline_sim > cat_eggplant_sim);
}

#[test]
fn compare_intracluster_distance_vs_extracluster_distance() {
    let wv = reference_vectorizer();
    let mut cluster_a = Vec::<EmbeddingVector>::new();
    let mut cluster_b = Vec::<EmbeddingVector>::new();

    cluster_a.push(wv.vectorize_sentence(
        "Would it be okay if I saved everyone some time and just went mad now?",
    ));
    cluster_a.push(wv.vectorize_sentence("Can I play with madness?"));
    cluster_a.push(wv.vectorize_sentence(
        "The surest sign that you're crazy is thinking you're the only one that's sane.",
    ));
}
