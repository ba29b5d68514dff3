use vstd::prelude::*;

verus! {

/// The error kinds the embedding engine reports.
///
/// `NotFound`: a word was looked up in the vector table and is absent;
/// callers are expected to check membership first or treat absence as
/// "skip this word".
///
/// `InvalidInput`: mismatched vector dimensions in similarity scoring, a
/// malformed table entry, or an empty document set handed to the
/// principal-component estimation.
///
/// `DegenerateResult`: a zero-magnitude vector reached similarity scoring,
/// the expected outcome of a text with no recognizable words; hosts map it
/// to a neutral score rather than a fault.
#[derive(Clone, Copy, Debug, PartialEq, Eq)]
pub enum SifError {
    NotFound,
    InvalidInput,
    DegenerateResult,
}

} // verus!
