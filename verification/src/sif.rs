use vstd::prelude::*;
use crate::error::SifError;
use crate::ieee::{
    add_bits, div_bits, float_of_usize, ieee_add, ieee_div, ieee_mul, ieee_of_usize, ieee_sub,
    is_positive_finite_bits, mul_bits, sub_bits,
};
use crate::similarity::{cosine_similarity, cosine_spec, mag_sq_spec};
use crate::table::{FrequencyTable, VectorTable, ONE_BITS};
use crate::tokenize::{cleaned, lemma_single_word_tokens, space_prefix_len, split_sentence, tokens, views_of};
use crate::vector::{zero_seq, EmbeddingVector, NUM_DIMS};

verus! {

use vstd::string::StringSliceAdditionalSpecFns;
use vstd::utf8::encode_utf8;

/// The mathematical state of a vectorizer: the two lookup tables, the
/// correction component, the smoothing factor's bit pattern, and the policy
/// for the no-token case.
pub struct SifModel {
    pub vecs: Map<Seq<u8>, Seq<u32>>,
    pub freqs: Map<Seq<u8>, u32>,
    pub pc: Seq<u32>,
    pub a: u32,
    pub correct_empty: bool,
}

/// The SIF weight of a word: a / (a + f), over bit patterns, with `a` the
/// smoothing factor and `f` the word's document frequency.
pub open spec fn weight_bits(a: u32, f: u32) -> u32 {
    div_bits(a, add_bits(a, f))
}

/// One aggregation step: add w·v elementwise into the accumulator.
pub open spec fn accum_step(acc: Seq<u32>, w: u32, v: Seq<u32>) -> Seq<u32> {
    Seq::new(acc.len(), |i: int| add_bits(acc[i], mul_bits(w, v[i])))
}

/// Folds the token list into the accumulator, left to right: a token in the
/// vocabulary contributes its vector scaled by its SIF weight and counts
/// once; its frequency defaults to 1.0 when the frequency table does not
/// hold it; any other token is skipped entirely.
pub open spec fn accum_from(m: SifModel, toks: Seq<Seq<u8>>, acc: Seq<u32>, count: nat) -> (
    Seq<u32>,
    nat,
)
    decreases toks.len(),
{
    if toks.len() == 0 {
        (acc, count)
    } else {
        let t = toks[0];
        if m.vecs.dom().contains(t) {
            let f = if m.freqs.dom().contains(t) {
                m.freqs[t]
            } else {
                ONE_BITS
            };
            accum_from(m, toks.drop_first(), accum_step(acc, weight_bits(m.a, f), m.vecs[t]), count + 1)
        } else {
            accum_from(m, toks.drop_first(), acc, count)
        }
    }
}

/// How many tokens of the list the vocabulary holds.
pub open spec fn token_count(m: SifModel, toks: Seq<Seq<u8>>) -> nat {
    accum_from(m, toks, zero_seq(NUM_DIMS as nat), 0).1
}

/// The uncorrected sentence vector: the weighted sum of the in-vocabulary
/// tokens' vectors divided by their number, and the all-zero vector when
/// there are none.
pub open spec fn raw_embedding(m: SifModel, toks: Seq<Seq<u8>>) -> Seq<u32> {
    let folded = accum_from(m, toks, zero_seq(NUM_DIMS as nat), 0);
    if folded.1 == 0 {
        zero_seq(NUM_DIMS as nat)
    } else {
        Seq::new(folded.0.len(), |i: int| div_bits(folded.0[i], float_of_usize(folded.1 as usize)))
    }
}

/// The elementwise difference of a vector and the correction component.
pub open spec fn subtract_pc(v: Seq<u32>, pc: Seq<u32>) -> Seq<u32> {
    Seq::new(v.len(), |i: int| sub_bits(v[i], pc[i]))
}

/// The corrected sentence embedding: the principal component is subtracted
/// from the uncorrected vector; when no token was in the vocabulary the
/// all-zero vector is returned as is, unless the model's `correct_empty`
/// policy asks for the subtraction even then.
pub open spec fn embedding(m: SifModel, toks: Seq<Seq<u8>>) -> Seq<u32> {
    if token_count(m, toks) == 0 && !m.correct_empty {
        zero_seq(NUM_DIMS as nat)
    } else {
        subtract_pc(raw_embedding(m, toks), m.pc)
    }
}

/// A word the vocabulary holds under its normalized key is always found:
/// tokenizing any casing or punctuation variant that cleans to the key
/// yields exactly that key, and the aggregation counts it once.
pub proof fn lemma_vocabulary_word_found(m: SifModel, w: Seq<u8>)
    requires
        forall|i: int| 0 <= i < w.len() ==> space_prefix_len(#[trigger] w.skip(i)) == 0,
        cleaned(w).len() > 0,
        m.vecs.dom().contains(cleaned(w)),
    ensures
        tokens(w) == seq![cleaned(w)],
        m.vecs.dom().contains(tokens(w)[0]),
        token_count(m, tokens(w)) == 1,
{
    lemma_single_word_tokens(w);
    let k = cleaned(w);
    assert(seq![k].drop_first() =~= Seq::<Seq<u8>>::empty());
    let f = if m.freqs.dom().contains(k) {
        m.freqs[k]
    } else {
        ONE_BITS
    };
    let stepped = accum_step(zero_seq(NUM_DIMS as nat), weight_bits(m.a, f), m.vecs[k]);
    assert(accum_from(m, Seq::<Seq<u8>>::empty(), stepped, 1).1 == 1);
    assert(accum_from(m, seq![k], zero_seq(NUM_DIMS as nat), 0).1 == 1);
}

/// The sentence-embedding engine: an immutable word-vector table, an
/// immutable document-frequency table, the principal correction component,
/// and the SIF smoothing factor.  The component may be replaced wholesale
/// after an offline estimation pass; everything else is fixed at
/// construction.
pub struct SIFVectorizer {
    word_to_vec: VectorTable,
    word_to_doc_frequency: FrequencyTable,
    principal_component: EmbeddingVector,
    smoothing_factor: u32,
    correct_empty: bool,
}

impl View for SIFVectorizer {
    type V = SifModel;

    closed spec fn view(&self) -> SifModel {
        SifModel {
            vecs: self.word_to_vec@,
            freqs: self.word_to_doc_frequency@,
            pc: self.principal_component@,
            a: self.smoothing_factor,
            correct_empty: self.correct_empty,
        }
    }
}

impl SIFVectorizer {
    pub closed spec fn wf(&self) -> bool {
        &&& self.word_to_vec.wf()
        &&& self.word_to_doc_frequency.wf()
        &&& self.principal_component@.len() == NUM_DIMS
        &&& is_positive_finite_bits(self.smoothing_factor)
    }

    /// Builds the engine from the two offline-prepared tables, an initial
    /// principal component, and the smoothing factor's bit pattern, which
    /// must be a positive finite float.  `correct_empty` settles the open
    /// policy question of whether the component is subtracted even from the
    /// degenerate no-token embedding.
    pub fn new_from_compiled(
        word_to_vec: VectorTable,
        word_to_doc_frequency: FrequencyTable,
        principal_component: EmbeddingVector,
        smoothing_factor: u32,
        correct_empty: bool,
    ) -> (r: Self)
        requires
            word_to_vec.wf(),
            word_to_doc_frequency.wf(),
            principal_component@.len() == NUM_DIMS,
            is_positive_finite_bits(smoothing_factor),
        ensures
            r.wf(),
            r@ == (SifModel {
                vecs: word_to_vec@,
                freqs: word_to_doc_frequency@,
                pc: principal_component@,
                a: smoothing_factor,
                correct_empty,
            }),
    {
        SIFVectorizer {
            word_to_vec,
            word_to_doc_frequency,
            principal_component,
            smoothing_factor,
            correct_empty,
        }
    }

    /// Whether the vocabulary holds the given normalized word.
    pub fn word_in_vocabulary(&self, word: &[u8]) -> (r: bool)
        ensures
            r == self@.vecs.dom().contains(word@),
    {
        self.word_to_vec.contains(word)
    }

    /// The embedding vector of a normalized word, or `NotFound` when the
    /// vocabulary does not hold it; absence is the caller's to absorb, not
    /// a sentence-level fault.
    pub fn vectorize_word(&self, word: &[u8]) -> (r: Result<&EmbeddingVector, SifError>)
        requires
            self.wf(),
        ensures
            match r {
                Ok(v) => self@.vecs.dom().contains(word@) && v@ == self@.vecs[word@],
                Err(e) => e == SifError::NotFound && !self@.vecs.dom().contains(word@),
            },
    {
        self.word_to_vec.lookup(word)
    }

    /// The current principal component.
    pub fn principal_component(&self) -> (r: &EmbeddingVector)
        ensures
            r@ == self@.pc,
    {
        &self.principal_component
    }

    /// Replaces the principal component wholesale, as the offline
    /// estimation pass produces it; a component of the wrong length is
    /// `InvalidInput` and leaves the engine unchanged.
    pub fn set_principal_component(&mut self, component: EmbeddingVector) -> (r: Result<
        (),
        SifError,
    >)
        requires
            old(self).wf(),
        ensures
            final(self).wf(),
            r is Ok <==> component@.len() == NUM_DIMS,
            r is Ok ==> final(self)@ == (SifModel { pc: component@, ..old(self)@ }),
            r is Err ==> r == Err::<(), SifError>(SifError::InvalidInput) && final(self)@ == old(
                self,
            )@,
    {
        if component.len() != NUM_DIMS {
            return Err(SifError::InvalidInput);
        }
        self.principal_component = component;
        Ok(())
    }

    /// Steps 1–5 of the aggregation: tokenize, weight and sum the known
    /// words' vectors, and average; also reports how many tokens the
    /// vocabulary held.
    #[verifier::loop_isolation(false)]
    fn weighted_average(&self, sent: &str) -> (r: (EmbeddingVector, usize))
        requires
            self.wf(),
        ensures
            r.0@ == raw_embedding(self@, tokens(sent.spec_bytes())),
            r.1 == token_count(self@, tokens(sent.spec_bytes())),
            r.0@.len() == NUM_DIMS,
    {
        let toks: Vec<Vec<u8>> = split_sentence(sent);
        let ghost tv = views_of(toks@);
        let mut acc: Vec<u32> = EmbeddingVector::zero().bits;
        let mut count: usize = 0;
        let mut j: usize = 0;
        proof {
            assert(tv.skip(0) =~= tv);
        }
        while j < toks.len()
            invariant
                j <= toks@.len(),
                count <= j,
                acc@.len() == NUM_DIMS,
                accum_from(self@, tv.skip(j as int), acc@, count as nat) == accum_from(
                    self@,
                    tv,
                    zero_seq(NUM_DIMS as nat),
                    0,
                ),
            decreases toks@.len() - j,
        {
            proof {
                assert(tv.skip(j as int).drop_first() =~= tv.skip(j as int + 1));
                assert(tv.skip(j as int)[0] == toks@[j as int]@);
            }
            let word = toks[j].as_slice();
            match self.word_to_vec.lookup(word) {
                Ok(v) => {
                    let f = self.word_to_doc_frequency.get_or_default(word);
                    let w = ieee_div(self.smoothing_factor, ieee_add(self.smoothing_factor, f));
                    let mut next: Vec<u32> = Vec::new();
                    let mut i: usize = 0;
                    while i < NUM_DIMS
                        invariant
                            i <= NUM_DIMS,
                            next@.len() == i,
                            acc@.len() == NUM_DIMS,
                            v@.len() == NUM_DIMS,
                            forall|k: int|
                                0 <= k < i ==> next@[k] == add_bits(acc@[k], mul_bits(w, v@[k])),
                        decreases NUM_DIMS - i,
                    {
                        next.push(ieee_add(acc[i], ieee_mul(w, v.bits[i])));
                        i += 1;
                    }
                    proof {
                        assert(next@ =~= accum_step(acc@, w, v@));
                    }
                    acc = next;
                    count += 1;
                },
                Err(_) => {},
            }
            j += 1;
        }
        proof {
            assert(tv.skip(toks@.len() as int) =~= Seq::<Seq<u8>>::empty());
        }
        if count == 0 {
            (EmbeddingVector::zero(), 0)
        } else {
            let d = ieee_of_usize(count);
            let mut out: Vec<u32> = Vec::new();
            let mut i: usize = 0;
            while i < NUM_DIMS
                invariant
                    i <= NUM_DIMS,
                    out@.len() == i,
                    acc@.len() == NUM_DIMS,
                    d == float_of_usize(count as usize),
                    forall|k: int| 0 <= k < i ==> out@[k] == div_bits(acc@[k], d),
                decreases NUM_DIMS - i,
            {
                out.push(ieee_div(acc[i], d));
                i += 1;
            }
            proof {
                assert(out@ =~= raw_embedding(self@, tokens(sent.spec_bytes())));
            }
            (EmbeddingVector::new(out), count)
        }
    }

    /// The uncorrected sentence vector: steps 1–5 of the aggregation, with
    /// no principal-component subtraction.  This is what the offline
    /// component estimation consumes.
    pub fn vectorize_sentence_uncorrected(&self, sent: &str) -> (r: EmbeddingVector)
        requires
            self.wf(),
        ensures
            r@ == raw_embedding(self@, tokens(sent.spec_bytes())),
            r.wf(),
    {
        self.weighted_average(sent).0
    }

    /// The sentence embedding: tokenize, weight and average the known
    /// words' vectors, and subtract the principal component, honouring the
    /// engine's policy for a sentence with no recognizable words.
    #[verifier::loop_isolation(false)]
    pub fn vectorize_sentence(&self, sent: &str) -> (r: EmbeddingVector)
        requires
            self.wf(),
        ensures
            r@ == embedding(self@, tokens(sent.spec_bytes())),
            r.wf(),
    {
        let (raw, count) = self.weighted_average(sent);
        if count == 0 && !self.correct_empty {
            return raw;
        }
        let mut out: Vec<u32> = Vec::new();
        let mut i: usize = 0;
        while i < NUM_DIMS
            invariant
                i <= NUM_DIMS,
                out@.len() == i,
                forall|k: int|
                    0 <= k < i ==> out@[k] == sub_bits(raw@[k], self.principal_component@[k]),
            decreases NUM_DIMS - i,
        {
            out.push(ieee_sub(raw.bits[i], self.principal_component.bits[i]));
            i += 1;
        }
        proof {
            assert(out@ =~= subtract_pc(raw@, self@.pc));
        }
        EmbeddingVector::new(out)
    }

    /// The similarity the host asks for: both texts embedded and scored by
    /// cosine similarity, with the 0.0 pattern for a text whose embedding
    /// has zero accumulated magnitude — the expected outcome of a text with
    /// no recognizable words, absorbed here rather than surfaced.
    pub fn score_texts(&self, s1: &str, s2: &str) -> (r: u32)
        requires
            self.wf(),
        ensures
            ({
                let v1 = embedding(self@, tokens(s1.spec_bytes()));
                let v2 = embedding(self@, tokens(s2.spec_bytes()));
                if mag_sq_spec(v1) == 0u32 || mag_sq_spec(v2) == 0u32 {
                    r == 0u32
                } else {
                    r == cosine_spec(v1, v2) && r == cosine_spec(v2, v1)
                }
            }),
    {
        let v1 = self.vectorize_sentence(s1);
        let v2 = self.vectorize_sentence(s2);
        match cosine_similarity(&v1, &v2) {
            Ok(bits) => bits,
            Err(_) => 0,
        }
    }

    /// The uncorrected vectors of a batch of documents, in order: the rows
    /// the offline component estimation decomposes.  An empty batch is
    /// `InvalidInput`.
    #[verifier::loop_isolation(false)]
    pub fn vectorize_documents(&self, documents: &Vec<String>) -> (r: Result<
        Vec<EmbeddingVector>,
        SifError,
    >)
        requires
            self.wf(),
        ensures
            r is Err <==> documents@.len() == 0,
            r is Err ==> r == Err::<Vec<EmbeddingVector>, SifError>(SifError::InvalidInput),
            r is Ok ==> (r->Ok_0@.len() == documents@.len() && forall|i: int|
                0 <= i < documents@.len() ==> (#[trigger] r->Ok_0@[i])@ == raw_embedding(
                    self@,
                    tokens(encode_utf8(documents@[i]@)),
                )),
    {
        if documents.len() == 0 {
            return Err(SifError::InvalidInput);
        }
        let mut rows: Vec<EmbeddingVector> = Vec::new();
        let mut j: usize = 0;
        while j < documents.len()
            invariant
                j <= documents@.len(),
                rows@.len() == j,
                forall|i: int|
                    0 <= i < j ==> (#[trigger] rows@[i])@ == raw_embedding(
                        self@,
                        tokens(encode_utf8(documents@[i]@)),
                    ),
            decreases documents@.len() - j,
        {
            let row = self.vectorize_sentence_uncorrected(documents[j].as_str());
            rows.push(row);
            j += 1;
        }
        Ok(rows)
    }
}

} // verus!
