use word_vectorizer::error::SifError;
use word_vectorizer::table::{FrequencyTable, VectorTable};
use word_vectorizer::vector::{EmbeddingVector, NUM_DIMS};

fn dense(head: &[f32]) -> EmbeddingVector {
    let mut bits: Vec<u32> = Vec::new();
    for v in head {
        bits.push(v.to_bits());
    }
    while bits.len() < NUM_DIMS {
        bits.push(0.0f32.to_bits());
    }
    EmbeddingVector::new(bits)
}

#[test]
fn vector_table_insert_and_lookup() {
    let mut table = VectorTable::new();
    assert!(table.insert(b"cat".to_vec(), dense(&[1.0, 2.0])).is_ok());
    assert!(table.contains(b"cat"));
    assert!(!table.contains(b"dog"));
    let v = table.lookup(b"cat").unwrap();
    assert_eq!(v.bits[0], 1.0f32.to_bits());
    assert_eq!(v.bits[1], 2.0f32.to_bits());
    assert_eq!(table.lookup(b"dog").unwrap_err(), SifError::NotFound);
}

#[test]
fn vector_table_rejects_bad_keys() {
    let mut table = VectorTable::new();
    assert_eq!(
        table.insert(b"Cat".to_vec(), dense(&[1.0])).unwrap_err(),
        SifError::InvalidInput
    );
    assert_eq!(
        table.insert(b"".to_vec(), dense(&[1.0])).unwrap_err(),
        SifError::InvalidInput
    );
    assert_eq!(
        table.insert(b"two words".to_vec(), dense(&[1.0])).unwrap_err(),
        SifError::InvalidInput
    );
}

#[test]
fn vector_table_rejects_wrong_dimension_and_duplicates() {
    let mut table = VectorTable::new();
    let short = EmbeddingVector::new(vec![1.0f32.to_bits(); 3]);
    assert_eq!(
        table.insert(b"cat".to_vec(), short).unwrap_err(),
        SifError::InvalidInput
    );
    assert!(table.insert(b"cat".to_vec(), dense(&[1.0])).is_ok());
    assert_eq!(
        table.insert(b"cat".to_vec(), dense(&[2.0])).unwrap_err(),
        SifError::InvalidInput
    );
}

#[test]
fn frequency_table_defaults_to_one() {
    let mut table = FrequencyTable::new();
    assert_eq!(table.get_or_default(b"cat"), 1.0f32.to_bits());
    assert!(table.insert(b"cat".to_vec(), 0.25f32.to_bits()).is_ok());
    assert_eq!(table.get_or_default(b"cat"), 0.25f32.to_bits());
    assert_eq!(table.get_or_default(b"dog"), 1.0f32.to_bits());
}

#[test]
fn frequency_table_rejects_out_of_range_scores() {
    let mut table = FrequencyTable::new();
    assert_eq!(
        table.insert(b"cat".to_vec(), 0.0f32.to_bits()).unwrap_err(),
        SifError::InvalidInput
    );
    assert_eq!(
        table.insert(b"cat".to_vec(), 1.5f32.to_bits()).unwrap_err(),
        SifError::InvalidInput
    );
    assert_eq!(
        table.insert(b"cat".to_vec(), (-0.5f32).to_bits()).unwrap_err(),
        SifError::InvalidInput
    );
    assert!(table.insert(b"cat".to_vec(), 1.0f32.to_bits()).is_ok());
}
