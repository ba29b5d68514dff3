use vstd::prelude::*;

verus! {

/// Number of dimensions of every embedding vector.  The reference data is
/// 50-dimensional; algorithms treat this as an opaque configured constant.
pub const NUM_DIMS: usize = 50;

/// A fixed-length embedding vector, held as the IEEE-754 single-precision
/// bit patterns of its elements.  The verified core manipulates bit
/// patterns only; hosts convert to and from native floating point at the
/// boundary.
#[derive(Debug)]
pub struct EmbeddingVector {
    pub bits: Vec<u32>,
}

/// The all-zero vector of length `n`: the bit pattern of +0.0 everywhere.
pub open spec fn zero_seq(n: nat) -> Seq<u32> {
    Seq::new(n, |i: int| 0u32)
}

impl View for EmbeddingVector {
    type V = Seq<u32>;

    open spec fn view(&self) -> Seq<u32> {
        self.bits@
    }
}

impl EmbeddingVector {
    /// A well-formed vector carries exactly `NUM_DIMS` elements.
    pub open spec fn wf(&self) -> bool {
        self@.len() == NUM_DIMS
    }

    pub fn new(bits: Vec<u32>) -> (r: Self)
        ensures
            r@ == bits@,
    {
        EmbeddingVector { bits }
    }

    pub fn len(&self) -> (r: usize)
        ensures
            r == self@.len(),
    {
        self.bits.len()
    }

    /// The all-zero embedding vector: the defined result for a text with no
    /// recognizable words.
    pub fn zero() -> (r: Self)
        ensures
            r@ == zero_seq(NUM_DIMS as nat),
            r.wf(),
    {
        let mut bits: Vec<u32> = Vec::new();
        let mut i: usize = 0;
        while i < NUM_DIMS
            invariant
                i <= NUM_DIMS,
                bits@.len() == i,
                forall|k: int| 0 <= k < i ==> bits@[k] == 0u32,
            decreases NUM_DIMS - i,
        {
            bits.push(0u32);
            i += 1;
        }
        proof {
            assert(bits@ =~= zero_seq(NUM_DIMS as nat));
        }
        EmbeddingVector { bits }
    }
}

/// Whether every element of every vector in the batch is the +0.0 bit
/// pattern: the degenerate document sample for which component estimation
/// must fall back to a zero component rather than decompose noise.
pub fn all_zero_vectors(rows: &Vec<EmbeddingVector>) -> (r: bool)
    ensures
        r == (forall|i: int, k: int|
            0 <= i < rows@.len() && 0 <= k < rows@[i]@.len() ==> #[trigger] rows@[i]@[k] == 0u32),
{
    let mut i: usize = 0;
    while i < rows.len()
        invariant
            i <= rows@.len(),
            forall|a: int, k: int|
                0 <= a < i && 0 <= k < rows@[a]@.len() ==> #[trigger] rows@[a]@[k] == 0u32,
        decreases rows@.len() - i,
    {
        let row = &rows[i];
        let mut k: usize = 0;
        while k < row.bits.len()
            invariant
                k <= row@.len(),
                row == rows@[i as int],
                i < rows@.len(),
                forall|a: int, b: int|
                    0 <= a < i && 0 <= b < rows@[a]@.len() ==> #[trigger] rows@[a]@[b] == 0u32,
                forall|b: int| 0 <= b < k ==> row@[b] == 0u32,
            decreases row@.len() - k,
        {
            if row.bits[k] != 0 {
                return false;
            }
            k += 1;
        }
        i += 1;
    }
    true
}

} // verus!
