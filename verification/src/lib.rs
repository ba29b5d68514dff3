//! A verified sentence-embedding core: tokenization, word-vector lookup,
//! frequency-weighted (SIF) aggregation with principal-component correction,
//! and cosine similarity scoring.
//!
//! Every numeric value is carried as the bit pattern of an IEEE-754
//! single-precision float, and the arithmetic itself is delegated, one
//! operation at a time, to a software floating-point library behind trusted
//! declarations.  Everything else — what is tokenized, what is looked up,
//! which words contribute, in what order the operations fold, and exactly
//! when each error is reported — is stated in the contracts and proved.
//! Hosts convert between native floats and bit patterns at the boundary.

pub mod error;
pub mod ieee;
pub mod sif;
pub mod similarity;
pub mod table;
pub mod tokenize;
pub mod vector;
