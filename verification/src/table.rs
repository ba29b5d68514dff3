use vstd::prelude::*;
use crate::error::SifError;
use crate::tokenize::is_token_byte;
use crate::vector::{EmbeddingVector, NUM_DIMS};

verus! {

/// The bit pattern of 1.0: the frequency table's upper bound and the
/// default frequency for words the reference corpus never established.
pub const ONE_BITS: u32 = 0x3F80_0000;

/// A table key: a non-empty word of ASCII digits and lowercase letters,
/// the normal form the tokenizer produces.
pub open spec fn valid_key(k: Seq<u8>) -> bool {
    k.len() > 0 && forall|i: int| 0 <= i < k.len() ==> is_token_byte(#[trigger] k[i])
}

/// Exact byte-string equality of two slices.
pub(crate) fn bytes_eq(a: &[u8], b: &[u8]) -> (r: bool)
    ensures
        r == (a@ == b@),
{
    if a.len() != b.len() {
        return false;
    }
    let mut i: usize = 0;
    while i < a.len()
        invariant
            i <= a@.len(),
            a@.len() == b@.len(),
            forall|k: int| 0 <= k < i ==> a@[k] == b@[k],
        decreases a@.len() - i,
    {
        if a[i] != b[i] {
            return false;
        }
        i += 1;
    }
    proof {
        assert(a@ =~= b@);
    }
    true
}

/// Checks that a word is a well-formed table key: non-empty, ASCII digits
/// and lowercase letters only.
pub fn is_valid_key(word: &[u8]) -> (r: bool)
    ensures
        r == valid_key(word@),
{
    if word.len() == 0 {
        return false;
    }
    let mut i: usize = 0;
    while i < word.len()
        invariant
            i <= word@.len(),
            forall|k: int| 0 <= k < i ==> is_token_byte(#[trigger] word@[k]),
        decreases word@.len() - i,
    {
        let b = word[i];
        if !((48 <= b && b <= 57) || (97 <= b && b <= 122)) {
            return false;
        }
        i += 1;
    }
    true
}

/// The mapping an entry list denotes: later entries would shadow earlier
/// ones, though well-formed tables never hold a key twice.
pub open spec fn vec_entries_map(s: Seq<(Vec<u8>, EmbeddingVector)>) -> Map<Seq<u8>, Seq<u32>>
    decreases s.len(),
{
    if s.len() == 0 {
        Map::empty()
    } else {
        vec_entries_map(s.drop_last()).insert(s.last().0@, s.last().1@)
    }
}

/// A key is in the denoted mapping exactly when some entry carries it.
pub proof fn lemma_vec_entries_contains(s: Seq<(Vec<u8>, EmbeddingVector)>, k: Seq<u8>)
    ensures
        vec_entries_map(s).dom().contains(k) <==> exists|i: int|
            0 <= i < s.len() && (#[trigger] s[i]).0@ == k,
    decreases s.len(),
{
    if s.len() == 0 {
    } else {
        lemma_vec_entries_contains(s.drop_last(), k);
        if s.last().0@ == k {
            assert((#[trigger] s[s.len() - 1]).0@ == k);
        } else if exists|i: int| 0 <= i < s.drop_last().len() && (#[trigger] s.drop_last()[i]).0@ == k {
            let i = choose|i: int| 0 <= i < s.drop_last().len() && (#[trigger] s.drop_last()[i]).0@ == k;
            assert((#[trigger] s[i]).0@ == k);
        } else {
            if exists|i: int| 0 <= i < s.len() && (#[trigger] s[i]).0@ == k {
                let i = choose|i: int| 0 <= i < s.len() && (#[trigger] s[i]).0@ == k;
                assert(i < s.len() - 1 ==> (#[trigger] s.drop_last()[i]).0@ == k);
            }
        }
    }
}

/// When exactly one entry carries a key, the denoted mapping sends the key
/// to that entry's vector.
pub proof fn lemma_vec_entries_value(s: Seq<(Vec<u8>, EmbeddingVector)>, k: Seq<u8>, i: int)
    requires
        0 <= i < s.len(),
        s[i].0@ == k,
        forall|j: int| 0 <= j < s.len() && j != i ==> (#[trigger] s[j]).0@ != k,
    ensures
        vec_entries_map(s).dom().contains(k),
        vec_entries_map(s)[k] == s[i].1@,
    decreases s.len(),
{
    if i == s.len() - 1 {
    } else {
        assert(s.drop_last()[i] == s[i]);
        assert forall|j: int| 0 <= j < s.drop_last().len() && j != i implies (#[trigger] s.drop_last()[j]).0@
            != k by {
            assert(s.drop_last()[j] == s[j]);
        }
        lemma_vec_entries_value(s.drop_last(), k, i);
        assert(s.last().0@ != k);
    }
}

/// The immutable mapping from normalized word to its embedding vector.
/// Keys are non-empty lowercase ASCII-alphanumeric words; every vector has
/// `NUM_DIMS` elements; lookups are case-sensitive against this
/// pre-normalized key set.
pub struct VectorTable {
    entries: Vec<(Vec<u8>, EmbeddingVector)>,
}

impl View for VectorTable {
    type V = Map<Seq<u8>, Seq<u32>>;

    closed spec fn view(&self) -> Map<Seq<u8>, Seq<u32>> {
        vec_entries_map(self.entries@)
    }
}

impl VectorTable {
    pub closed spec fn wf(&self) -> bool {
        &&& (forall|i: int|
            0 <= i < self.entries@.len() ==> (#[trigger] self.entries@[i]).1@.len() == NUM_DIMS)
        &&& (forall|i: int|
            0 <= i < self.entries@.len() ==> valid_key((#[trigger] self.entries@[i]).0@))
        &&& (forall|i: int, j: int|
            0 <= i < j < self.entries@.len() ==> (#[trigger] self.entries@[i]).0@ != (
            #[trigger] self.entries@[j]).0@)
    }

    pub fn new() -> (r: Self)
        ensures
            r@ == Map::<Seq<u8>, Seq<u32>>::empty(),
            r.wf(),
    {
        VectorTable { entries: Vec::new() }
    }

    /// Adds one word with its vector.  Rejected with `InvalidInput` when the
    /// key is not a non-empty lowercase alphanumeric word, the vector does
    /// not carry `NUM_DIMS` elements, or the key is already present.
    pub fn insert(&mut self, word: Vec<u8>, vector: EmbeddingVector) -> (r: Result<(), SifError>)
        requires
            old(self).wf(),
        ensures
            final(self).wf(),
            match r {
                Ok(_) => valid_key(word@) && vector@.len() == NUM_DIMS && !old(self)@.dom().contains(
                    word@,
                ) && final(self)@ == old(self)@.insert(word@, vector@),
                Err(e) => e == SifError::InvalidInput && !(valid_key(word@) && vector@.len()
                    == NUM_DIMS && !old(self)@.dom().contains(word@)) && final(self)@ == old(self)@,
            },
    {
        if !is_valid_key(word.as_slice()) || vector.len() != NUM_DIMS || self.contains(
            word.as_slice(),
        ) {
            return Err(SifError::InvalidInput);
        }
        proof {
            lemma_vec_entries_contains(self.entries@, word@);
        }
        let ghost old_entries = self.entries@;
        self.entries.push((word, vector));
        proof {
            assert(self.entries@.drop_last() =~= old_entries);
            assert forall|i: int, j: int|
                0 <= i < j < self.entries@.len() implies (#[trigger] self.entries@[i]).0@ != (
            #[trigger] self.entries@[j]).0@ by {
                if j == self.entries@.len() - 1 {
                    assert(old_entries[i] == self.entries@[i]);
                }
            }
        }
        Ok(())
    }

    /// Whether the table holds the given normalized word.
    #[verifier::loop_isolation(false)]
    pub fn contains(&self, word: &[u8]) -> (r: bool)
        ensures
            r == self@.dom().contains(word@),
    {
        proof {
            lemma_vec_entries_contains(self.entries@, word@);
        }
        let mut i: usize = 0;
        while i < self.entries.len()
            invariant
                i <= self.entries@.len(),
                forall|j: int| 0 <= j < i ==> (#[trigger] self.entries@[j]).0@ != word@,
            decreases self.entries@.len() - i,
        {
            if bytes_eq(self.entries[i].0.as_slice(), word) {
                proof {
                    assert((#[trigger] self.entries@[i as int]).0@ == word@);
                }
                return true;
            }
            i += 1;
        }
        false
    }

    /// The vector of a normalized word, or `NotFound` when the table does
    /// not hold it.
    #[verifier::loop_isolation(false)]
    pub fn lookup(&self, word: &[u8]) -> (r: Result<&EmbeddingVector, SifError>)
        requires
            self.wf(),
        ensures
            match r {
                Ok(v) => self@.dom().contains(word@) && v@ == self@[word@] && v@.len() == NUM_DIMS,
                Err(e) => e == SifError::NotFound && !self@.dom().contains(word@),
            },
    {
        proof {
            lemma_vec_entries_contains(self.entries@, word@);
        }
        let mut i: usize = 0;
        while i < self.entries.len()
            invariant
                i <= self.entries@.len(),
                forall|j: int| 0 <= j < i ==> (#[trigger] self.entries@[j]).0@ != word@,
                self.wf(),
            decreases self.entries@.len() - i,
        {
            if bytes_eq(self.entries[i].0.as_slice(), word) {
                proof {
                    lemma_vec_entries_value(self.entries@, word@, i as int);
                }
                return Ok(&self.entries[i].1);
            }
            i += 1;
        }
        Err(SifError::NotFound)
    }
}

/// The mapping a frequency entry list denotes.
pub open spec fn freq_entries_map(s: Seq<(Vec<u8>, u32)>) -> Map<Seq<u8>, u32>
    decreases s.len(),
{
    if s.len() == 0 {
        Map::empty()
    } else {
        freq_entries_map(s.drop_last()).insert(s.last().0@, s.last().1)
    }
}

/// A key is in the denoted frequency mapping exactly when some entry
/// carries it.
pub proof fn lemma_freq_entries_contains(s: Seq<(Vec<u8>, u32)>, k: Seq<u8>)
    ensures
        freq_entries_map(s).dom().contains(k) <==> exists|i: int|
            0 <= i < s.len() && (#[trigger] s[i]).0@ == k,
    decreases s.len(),
{
    if s.len() == 0 {
    } else {
        lemma_freq_entries_contains(s.drop_last(), k);
        if s.last().0@ == k {
            assert((#[trigger] s[s.len() - 1]).0@ == k);
        } else if exists|i: int| 0 <= i < s.drop_last().len() && (#[trigger] s.drop_last()[i]).0@ == k {
            let i = choose|i: int| 0 <= i < s.drop_last().len() && (#[trigger] s.drop_last()[i]).0@ == k;
            assert((#[trigger] s[i]).0@ == k);
        } else {
            if exists|i: int| 0 <= i < s.len() && (#[trigger] s[i]).0@ == k {
                let i = choose|i: int| 0 <= i < s.len() && (#[trigger] s[i]).0@ == k;
                assert(i < s.len() - 1 ==> (#[trigger] s.drop_last()[i]).0@ == k);
            }
        }
    }
}

/// When exactly one entry carries a key, the denoted frequency mapping
/// sends the key to that entry's score.
pub proof fn lemma_freq_entries_value(s: Seq<(Vec<u8>, u32)>, k: Seq<u8>, i: int)
    requires
        0 <= i < s.len(),
        s[i].0@ == k,
        forall|j: int| 0 <= j < s.len() && j != i ==> (#[trigger] s[j]).0@ != k,
    ensures
        freq_entries_map(s).dom().contains(k),
        freq_entries_map(s)[k] == s[i].1,
    decreases s.len(),
{
    if i == s.len() - 1 {
    } else {
        assert(s.drop_last()[i] == s[i]);
        assert forall|j: int| 0 <= j < s.drop_last().len() && j != i implies (#[trigger] s.drop_last()[j]).0@
            != k by {
            assert(s.drop_last()[j] == s[j]);
        }
        lemma_freq_entries_value(s.drop_last(), k, i);
        assert(s.last().0@ != k);
    }
}

/// The immutable mapping from normalized word to its document-frequency
/// score: the fraction of the reference corpus's documents holding the
/// word, a value in (0, 1] stored as its bit pattern.  Words the corpus
/// never established are absent and read as 1.0, the unseen-word default.
pub struct FrequencyTable {
    entries: Vec<(Vec<u8>, u32)>,
}

impl View for FrequencyTable {
    type V = Map<Seq<u8>, u32>;

    closed spec fn view(&self) -> Map<Seq<u8>, u32> {
        freq_entries_map(self.entries@)
    }
}

impl FrequencyTable {
    pub closed spec fn wf(&self) -> bool {
        &&& (forall|i: int|
            0 <= i < self.entries@.len() ==> 1 <= (#[trigger] self.entries@[i]).1 <= ONE_BITS)
        &&& (forall|i: int|
            0 <= i < self.entries@.len() ==> valid_key((#[trigger] self.entries@[i]).0@))
        &&& (forall|i: int, j: int|
            0 <= i < j < self.entries@.len() ==> (#[trigger] self.entries@[i]).0@ != (
            #[trigger] self.entries@[j]).0@)
    }

    pub fn new() -> (r: Self)
        ensures
            r@ == Map::<Seq<u8>, u32>::empty(),
            r.wf(),
    {
        FrequencyTable { entries: Vec::new() }
    }

    /// Adds one word with its frequency score.  Rejected with
    /// `InvalidInput` when the key is not a non-empty lowercase
    /// alphanumeric word, the score's bit pattern is not a float in
    /// (0, 1] — positive floats order like their bit patterns, so the
    /// range check is `1 ..= ONE_BITS` — or the key is already present.
    pub fn insert(&mut self, word: Vec<u8>, frequency: u32) -> (r: Result<(), SifError>)
        requires
            old(self).wf(),
        ensures
            final(self).wf(),
            match r {
                Ok(_) => valid_key(word@) && 1 <= frequency <= ONE_BITS && !old(
                    self,
                )@.dom().contains(word@) && final(self)@ == old(self)@.insert(word@, frequency),
                Err(e) => e == SifError::InvalidInput && !(valid_key(word@) && 1 <= frequency
                    <= ONE_BITS && !old(self)@.dom().contains(word@)) && final(self)@ == old(self)@,
            },
    {
        if !is_valid_key(word.as_slice()) || frequency < 1 || frequency > ONE_BITS || self.contains(
            word.as_slice(),
        ) {
            return Err(SifError::InvalidInput);
        }
        proof {
            lemma_freq_entries_contains(self.entries@, word@);
        }
        let ghost old_entries = self.entries@;
        self.entries.push((word, frequency));
        proof {
            assert(self.entries@.drop_last() =~= old_entries);
            assert forall|i: int, j: int|
                0 <= i < j < self.entries@.len() implies (#[trigger] self.entries@[i]).0@ != (
            #[trigger] self.entries@[j]).0@ by {
                if j == self.entries@.len() - 1 {
                    assert(old_entries[i] == self.entries@[i]);
                }
            }
        }
        Ok(())
    }

    /// Whether the table holds the given normalized word.
    #[verifier::loop_isolation(false)]
    pub fn contains(&self, word: &[u8]) -> (r: bool)
        ensures
            r == self@.dom().contains(word@),
    {
        proof {
            lemma_freq_entries_contains(self.entries@, word@);
        }
        let mut i: usize = 0;
        while i < self.entries.len()
            invariant
                i <= self.entries@.len(),
                forall|j: int| 0 <= j < i ==> (#[trigger] self.entries@[j]).0@ != word@,
            decreases self.entries@.len() - i,
        {
            if bytes_eq(self.entries[i].0.as_slice(), word) {
                proof {
                    assert((#[trigger] self.entries@[i as int]).0@ == word@);
                }
                return true;
            }
            i += 1;
        }
        false
    }

    /// The frequency score of a normalized word, or the 1.0 unseen-word
    /// default when the table does not hold it.
    #[verifier::loop_isolation(false)]
    pub fn get_or_default(&self, word: &[u8]) -> (r: u32)
        requires
            self.wf(),
        ensures
            r == (if self@.dom().contains(word@) {
                self@[word@]
            } else {
                ONE_BITS
            }),
    {
        proof {
            lemma_freq_entries_contains(self.entries@, word@);
        }
        let mut i: usize = 0;
        while i < self.entries.len()
            invariant
                i <= self.entries@.len(),
                forall|j: int| 0 <= j < i ==> (#[trigger] self.entries@[j]).0@ != word@,
                self.wf(),
            decreases self.entries@.len() - i,
        {
            if bytes_eq(self.entries[i].0.as_slice(), word) {
                proof {
                    lemma_freq_entries_value(self.entries@, word@, i as int);
                }
                return self.entries[i].1;
            }
            i += 1;
        }
        ONE_BITS
    }
}

} // verus!
