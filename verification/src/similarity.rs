use vstd::prelude::*;
use crate::error::SifError;
use crate::ieee::{add_bits, div_bits, mul_bits, ieee_add, ieee_div, ieee_mul};
use crate::vector::{EmbeddingVector, NUM_DIMS};

verus! {

/// The bit pattern of 0.5.
pub const HALF_BITS: u32 = 0x3F00_0000;

/// The two factors multiplied in a fixed order of their bit patterns.
/// IEEE-754 multiplication is commutative in value, and ordering the
/// operands makes the product symmetric by construction, which carries the
/// symmetry of the similarity score.
pub open spec fn prod_bits(x: u32, y: u32) -> u32 {
    if x <= y {
        mul_bits(x, y)
    } else {
        mul_bits(y, x)
    }
}

/// Multiplies two elements in the fixed operand order of `prod_bits`.
fn sym_mul(x: u32, y: u32) -> (r: u32)
    ensures
        r == prod_bits(x, y),
        x == 0u32 && y == 0u32 ==> r == 0u32,
{
    if x <= y {
        ieee_mul(x, y)
    } else {
        ieee_mul(y, x)
    }
}

/// One Newton step toward the square root of `m`: g ← (g + m/g) / 2.
pub open spec fn newton_step(m: u32, g: u32) -> u32 {
    mul_bits(HALF_BITS, add_bits(g, div_bits(m, g)))
}

/// `k` Newton steps from the guess `g`.
pub open spec fn newton_iter(m: u32, g: u32, k: nat) -> u32
    decreases k,
{
    if k == 0 {
        g
    } else {
        newton_iter(m, newton_step(m, g), (k - 1) as nat)
    }
}

/// The library's square root of a magnitude: five Newton steps from a seed
/// obtained by halving the exponent field of the bit pattern, and exactly
/// zero for the zero pattern.  For magnitudes in the normal range the seed
/// starts within a few percent and the iteration lands within an ulp of
/// the real root; for a subnormal magnitude the seed is off by orders of
/// magnitude and five steps do not recover, so scores of vectors that
/// close to zero are degraded.  The similarity score treats this as the
/// Euclidean norm's root.
pub open spec fn sqrt_bits(m: u32) -> u32 {
    if m == 0u32 {
        0u32
    } else {
        newton_iter(m, (((m >> 1u32) + 0x1FC0_0000) as u32), 5)
    }
}

/// Computes `sqrt_bits`.
#[verifier::loop_isolation(false)]
pub fn norm_sqrt(m: u32) -> (r: u32)
    ensures
        r == sqrt_bits(m),
{
    if m == 0 {
        return 0;
    }
    proof {
        assert(m >> 1u32 <= 0x7FFF_FFFFu32) by (bit_vector);
    }
    let mut g: u32 = (m >> 1u32) + 0x1FC0_0000;
    let mut k: usize = 0;
    while k < 5
        invariant
            k <= 5,
            sqrt_bits(m) == newton_iter(m, g, (5 - k) as nat),
        decreases 5 - k,
    {
        g = ieee_mul(HALF_BITS, ieee_add(g, ieee_div(m, g)));
        k += 1;
    }
    g
}

/// The IEEE-754 running sum of the products of elements `i..` of `x` and
/// `y`, starting from `acc`: the dot product as single-precision code
/// accumulates it, left to right.
pub open spec fn dot_from(x: Seq<u32>, y: Seq<u32>, i: int, acc: u32) -> u32
    decreases x.len() - i,
{
    if i < 0 || i >= x.len() {
        acc
    } else {
        dot_from(x, y, i + 1, add_bits(acc, prod_bits(x[i], y[i])))
    }
}

/// The accumulated dot product of two vectors.
pub open spec fn dot_spec(x: Seq<u32>, y: Seq<u32>) -> u32 {
    dot_from(x, y, 0, 0u32)
}

/// The accumulated squared magnitude of a vector.
pub open spec fn mag_sq_spec(x: Seq<u32>) -> u32 {
    dot_spec(x, x)
}

/// Cosine similarity of two vectors over bit patterns: the dot product
/// divided by the product of the magnitudes' roots.
pub open spec fn cosine_spec(x: Seq<u32>, y: Seq<u32>) -> u32 {
    div_bits(dot_spec(x, y), prod_bits(sqrt_bits(mag_sq_spec(x)), sqrt_bits(mag_sq_spec(y))))
}

/// The running dot product does not depend on the order of the two
/// vectors.
proof fn lemma_dot_from_symmetric(x: Seq<u32>, y: Seq<u32>, i: int, acc: u32)
    requires
        x.len() == y.len(),
    ensures
        dot_from(x, y, i, acc) == dot_from(y, x, i, acc),
    decreases x.len() - i,
{
    if i < 0 || i >= x.len() {
    } else {
        lemma_dot_from_symmetric(x, y, i + 1, add_bits(acc, prod_bits(x[i], y[i])));
    }
}

/// Cosine similarity is symmetric: scoring `(x, y)` and scoring `(y, x)`
/// give the same bit pattern.
pub proof fn lemma_cosine_symmetric(x: Seq<u32>, y: Seq<u32>)
    requires
        x.len() == y.len(),
    ensures
        cosine_spec(x, y) == cosine_spec(y, x),
{
    lemma_dot_from_symmetric(x, y, 0, 0u32);
}

/// Cosine similarity of two embedding vectors.
///
/// Both vectors must carry `NUM_DIMS` elements; anything else is
/// `InvalidInput`, never a silent truncation.  A vector whose accumulated
/// squared magnitude is exactly zero — the natural outcome of a text with
/// no recognizable words — gives `DegenerateResult`, which hosts map to a
/// neutral score rather than dividing by zero.
#[verifier::loop_isolation(false)]
pub fn cosine_similarity(va: &EmbeddingVector, vb: &EmbeddingVector) -> (r: Result<u32, SifError>)
    ensures
        r is Ok <==> (va@.len() == NUM_DIMS && vb@.len() == NUM_DIMS && mag_sq_spec(va@) != 0u32
            && mag_sq_spec(vb@) != 0u32),
        r == Err::<u32, SifError>(SifError::InvalidInput) <==> (va@.len() != NUM_DIMS || vb@.len()
            != NUM_DIMS),
        r == Err::<u32, SifError>(SifError::DegenerateResult) <==> (va@.len() == NUM_DIMS
            && vb@.len() == NUM_DIMS && (mag_sq_spec(va@) == 0u32 || mag_sq_spec(vb@) == 0u32)),
        r is Ok ==> r == Ok::<u32, SifError>(cosine_spec(va@, vb@)) && r == Ok::<u32, SifError>(
            cosine_spec(vb@, va@),
        ),
        (va@.len() == NUM_DIMS && vb@.len() == NUM_DIMS && ((forall|i: int|
            0 <= i < va@.len() ==> va@[i] == 0u32) || (forall|i: int|
            0 <= i < vb@.len() ==> vb@[i] == 0u32))) ==> r == Err::<u32, SifError>(
            SifError::DegenerateResult,
        ),
{
    if va.len() != NUM_DIMS || vb.len() != NUM_DIMS {
        return Err(SifError::InvalidInput);
    }
    let mut dot: u32 = 0;
    let mut ma: u32 = 0;
    let mut mb: u32 = 0;
    let mut i: usize = 0;
    while i < NUM_DIMS
        invariant
            i <= NUM_DIMS,
            dot_spec(va@, vb@) == dot_from(va@, vb@, i as int, dot),
            mag_sq_spec(va@) == dot_from(va@, va@, i as int, ma),
            mag_sq_spec(vb@) == dot_from(vb@, vb@, i as int, mb),
            (forall|k: int| 0 <= k < va@.len() ==> va@[k] == 0u32) ==> ma == 0u32,
            (forall|k: int| 0 <= k < vb@.len() ==> vb@[k] == 0u32) ==> mb == 0u32,
        decreases NUM_DIMS - i,
    {
        let ea = va.bits[i];
        let eb = vb.bits[i];
        let p = sym_mul(ea, eb);
        dot = ieee_add(dot, p);
        let pa = sym_mul(ea, ea);
        ma = ieee_add(ma, pa);
        let pb = sym_mul(eb, eb);
        mb = ieee_add(mb, pb);
        i += 1;
    }
    if ma == 0 || mb == 0 {
        return Err(SifError::DegenerateResult);
    }
    let sa = norm_sqrt(ma);
    let sb = norm_sqrt(mb);
    let denom = sym_mul(sa, sb);
    let c = ieee_div(dot, denom);
    proof {
        lemma_cosine_symmetric(va@, vb@);
    }
    Ok(c)
}

} // verus!
