use vstd::prelude::*;

verus! {

use vstd::string::StringSliceAdditionalSpecFns;

/// The ASCII whitespace bytes: space and the control characters HT, LF,
/// VT, FF, CR.
pub open spec fn is_space(b: u8) -> bool {
    b == 32u8 || (9u8 <= b && b <= 13u8)
}

/// The length of the whitespace character the byte string starts with:
/// 1 for an ASCII whitespace byte; 2 or 3 for the UTF-8 encoding of one of
/// the other Unicode White_Space characters (NEL, NO-BREAK SPACE, OGHAM
/// SPACE MARK, the EN QUAD through HAIR SPACE range, LINE SEPARATOR,
/// PARAGRAPH SEPARATOR, NARROW NO-BREAK SPACE, MEDIUM MATHEMATICAL SPACE,
/// IDEOGRAPHIC SPACE); 0 when the string does not start with whitespace.
/// In valid UTF-8 none of these sequences can begin inside another
/// character, so scanning bytes with this prefix test separates candidate
/// words exactly where Unicode whitespace stands.
pub open spec fn space_prefix_len(s: Seq<u8>) -> nat {
    if s.len() >= 1 && is_space(s[0]) {
        1
    } else if s.len() >= 2 && s[0] == 0xC2u8 && (s[1] == 0x85u8 || s[1] == 0xA0u8) {
        2
    } else if s.len() >= 3 && s[0] == 0xE1u8 && s[1] == 0x9Au8 && s[2] == 0x80u8 {
        3
    } else if s.len() >= 3 && s[0] == 0xE2u8 && s[1] == 0x80u8 && ((0x80u8 <= s[2] && s[2]
        <= 0x8Au8) || s[2] == 0xA8u8 || s[2] == 0xA9u8 || s[2] == 0xAFu8) {
        3
    } else if s.len() >= 3 && s[0] == 0xE2u8 && s[1] == 0x81u8 && s[2] == 0x9Fu8 {
        3
    } else if s.len() >= 3 && s[0] == 0xE3u8 && s[1] == 0x80u8 && s[2] == 0x80u8 {
        3
    } else {
        0
    }
}

/// ASCII lowercase folding of one byte; bytes outside `A`..=`Z` pass
/// through unchanged.
pub open spec fn fold_byte(b: u8) -> u8 {
    if 65u8 <= b && b <= 90u8 {
        (b + 32) as u8
    } else {
        b
    }
}

/// The bytes a finished token may hold: ASCII digits and lowercase
/// letters.
pub open spec fn is_token_byte(b: u8) -> bool {
    (48u8 <= b && b <= 57u8) || (97u8 <= b && b <= 122u8)
}

/// The bytes `erase_nonascii` keeps: ASCII digits and letters of either
/// case.
pub open spec fn is_alnum_byte(b: u8) -> bool {
    (48u8 <= b && b <= 57u8) || (65u8 <= b && b <= 90u8) || (97u8 <= b && b <= 122u8)
}

/// What one input byte contributes to a cleaned token: its lowercase form
/// when that is a letter or digit, nothing otherwise.
pub open spec fn cleaned_byte(b: u8) -> Seq<u8> {
    if is_token_byte(fold_byte(b)) {
        seq![fold_byte(b)]
    } else {
        Seq::empty()
    }
}

/// What one input byte contributes to a stripped word: itself when it is
/// an ASCII letter or digit, nothing otherwise.
pub open spec fn kept_byte(b: u8) -> Seq<u8> {
    if is_alnum_byte(b) {
        seq![b]
    } else {
        Seq::empty()
    }
}

/// Lowercases a candidate word with ASCII case rules and strips every byte
/// that is not an ASCII letter or digit: the normal form the sentence
/// pipeline produces.
pub open spec fn cleaned(w: Seq<u8>) -> Seq<u8>
    decreases w.len(),
{
    if w.len() == 0 {
        Seq::empty()
    } else {
        cleaned_byte(w[0]) + cleaned(w.drop_first())
    }
}

/// The word with every byte that is not an ASCII letter or digit stripped,
/// case kept.
pub open spec fn stripped(w: Seq<u8>) -> Seq<u8>
    decreases w.len(),
{
    if w.len() == 0 {
        Seq::empty()
    } else {
        kept_byte(w[0]) + stripped(w.drop_first())
    }
}

/// One left-to-right scan over the text: `cur` holds the cleaned bytes of
/// the candidate word being read.  A whitespace character — recognized by
/// its byte encoding, see `space_prefix_len` — finishes the candidate,
/// which is kept only when something survived cleaning; any other byte
/// contributes its cleaned form to the candidate.
pub open spec fn tokens_from(s: Seq<u8>, cur: Seq<u8>) -> Seq<Seq<u8>>
    decreases s.len(),
{
    if s.len() == 0 {
        if cur.len() > 0 {
            seq![cur]
        } else {
            Seq::empty()
        }
    } else if space_prefix_len(s) > 0 {
        (if cur.len() > 0 {
            seq![cur]
        } else {
            Seq::empty()
        }) + tokens_from(s.skip(space_prefix_len(s) as int), Seq::empty())
    } else {
        tokens_from(s.drop_first(), cur + cleaned_byte(s[0]))
    }
}

/// The token sequence of a text: lowercase it with ASCII case rules, split
/// it on Unicode whitespace, strip non-alphanumeric bytes from each
/// candidate word, and drop candidates with nothing left, keeping input
/// order.
pub open spec fn tokens(s: Seq<u8>) -> Seq<Seq<u8>> {
    tokens_from(s, Seq::empty())
}

/// The views of a vector of byte tokens.
pub open spec fn views_of(ts: Seq<Vec<u8>>) -> Seq<Seq<u8>> {
    ts.map_values(|t: Vec<u8>| t@)
}

/// Strips every byte that is not an ASCII letter or digit from a candidate
/// word, keeping its case; a word with nothing left yields `None`.  The
/// sentence pipeline lowercases before it strips; that folding is the
/// caller's job, not this helper's.
pub fn erase_nonascii(word: &str) -> (r: Option<Vec<u8>>)
    ensures
        match r {
            Some(t) => t@ == stripped(word.spec_bytes()) && t@.len() > 0,
            None => stripped(word.spec_bytes()).len() == 0,
        },
{
    let bytes: &[u8] = word.as_bytes();
    let mut out: Vec<u8> = Vec::new();
    let mut i: usize = 0;
    proof {
        assert(bytes@.skip(0) =~= bytes@);
        assert(out@ + stripped(bytes@) =~= stripped(bytes@));
    }
    while i < bytes.len()
        invariant
            i <= bytes@.len(),
            out@ + stripped(bytes@.skip(i as int)) == stripped(bytes@),
        decreases bytes@.len() - i,
    {
        let ghost s = bytes@;
        let b = bytes[i];
        proof {
            assert(s.skip(i as int).drop_first() =~= s.skip(i as int + 1));
            assert(s.skip(i as int)[0] == s[i as int]);
        }
        if (48 <= b && b <= 57) || (65 <= b && b <= 90) || (97 <= b && b <= 122) {
            let ghost old_out = out@;
            out.push(b);
            proof {
                assert(out@ =~= old_out + kept_byte(b));
                assert(
                    (old_out + kept_byte(b)) + stripped(s.skip(i as int + 1)) =~= old_out + (
                    kept_byte(b) + stripped(s.skip(i as int + 1)))
                );
            }
        } else {
            proof {
                assert(kept_byte(b) =~= Seq::<u8>::empty());
                assert(kept_byte(b) + stripped(s.skip(i as int + 1)) =~= stripped(
                    s.skip(i as int + 1),
                ));
            }
        }
        i += 1;
    }
    proof {
        assert(bytes@.skip(i as int) =~= Seq::<u8>::empty());
        assert(out@ + stripped(bytes@.skip(i as int)) =~= out@);
        assert(bytes@ == word.spec_bytes());
    }
    if out.len() > 0 {
        Some(out)
    } else {
        None
    }
}

/// The length of the whitespace character at position `i` of the byte
/// string, 0 when none stands there.
fn space_prefix(bytes: &[u8], i: usize) -> (r: usize)
    requires
        i <= bytes@.len(),
    ensures
        r == space_prefix_len(bytes@.skip(i as int)),
        i + r <= bytes@.len(),
{
    let ghost s = bytes@.skip(i as int);
    let n = bytes.len();
    if i < n {
        proof {
            assert(s[0] == bytes@[i as int]);
        }
        let b0 = bytes[i];
        if b0 == 32 || (9 <= b0 && b0 <= 13) {
            return 1;
        }
        if i + 1 < n {
            proof {
                assert(s[1] == bytes@[i as int + 1]);
            }
            let b1 = bytes[i + 1];
            if b0 == 0xC2 && (b1 == 0x85 || b1 == 0xA0) {
                return 2;
            }
            if i + 2 < n {
                proof {
                    assert(s[2] == bytes@[i as int + 2]);
                }
                let b2 = bytes[i + 2];
                if b0 == 0xE1 && b1 == 0x9A && b2 == 0x80 {
                    return 3;
                }
                if b0 == 0xE2 && b1 == 0x80 && ((0x80 <= b2 && b2 <= 0x8A) || b2 == 0xA8 || b2
                    == 0xA9 || b2 == 0xAF) {
                    return 3;
                }
                if b0 == 0xE2 && b1 == 0x81 && b2 == 0x9F {
                    return 3;
                }
                if b0 == 0xE3 && b1 == 0x80 && b2 == 0x80 {
                    return 3;
                }
            }
        }
    }
    0
}

/// Splits a text on Unicode whitespace and cleans each candidate word,
/// keeping the non-empty cleaned tokens in input order.
#[verifier::loop_isolation(false)]
pub fn split_sentence(sentence: &str) -> (r: Vec<Vec<u8>>)
    ensures
        views_of(r@) == tokens(sentence.spec_bytes()),
{
    let bytes: &[u8] = sentence.as_bytes();
    let mut out: Vec<Vec<u8>> = Vec::new();
    let mut cur: Vec<u8> = Vec::new();
    let mut i: usize = 0;
    proof {
        assert(bytes@.skip(0) =~= bytes@);
        assert(cur@ =~= Seq::<u8>::empty());
        assert(views_of(out@) =~= Seq::<Seq<u8>>::empty());
        assert(views_of(out@) + tokens_from(bytes@, cur@) =~= tokens_from(bytes@, cur@));
    }
    while i < bytes.len()
        invariant
            i <= bytes@.len(),
            views_of(out@) + tokens_from(bytes@.skip(i as int), cur@) == tokens(bytes@),
        decreases bytes@.len() - i,
    {
        let ghost s = bytes@;
        let k = space_prefix(bytes, i);
        if k > 0 {
            proof {
                assert(s.skip(i as int).skip(k as int) =~= s.skip(i as int + k as int));
            }
            if cur.len() > 0 {
                let ghost old_out = views_of(out@);
                let ghost finished = cur@;
                let done = cur;
                cur = Vec::new();
                out.push(done);
                proof {
                    assert(views_of(out@) =~= old_out + seq![finished]);
                    assert(
                        (old_out + seq![finished]) + tokens_from(
                            s.skip(i as int + k as int),
                            Seq::empty(),
                        ) =~= old_out + (seq![finished] + tokens_from(
                            s.skip(i as int + k as int),
                            Seq::empty(),
                        ))
                    );
                    assert(cur@ =~= Seq::<u8>::empty());
                }
            } else {
                proof {
                    assert(cur@ =~= Seq::<u8>::empty());
                    assert(Seq::<Seq<u8>>::empty() + tokens_from(
                        s.skip(i as int + k as int),
                        Seq::empty(),
                    ) =~= tokens_from(s.skip(i as int + k as int), Seq::empty()));
                }
            }
            i += k;
        } else {
            proof {
                assert(s.skip(i as int).drop_first() =~= s.skip(i as int + 1));
                assert(s.skip(i as int)[0] == s[i as int]);
            }
            let b = bytes[i];
            let f = if 65 <= b && b <= 90 {
                b + 32
            } else {
                b
            };
            proof {
                assert(f == fold_byte(b));
            }
            if (48 <= f && f <= 57) || (97 <= f && f <= 122) {
                let ghost old_cur = cur@;
                cur.push(f);
                proof {
                    assert(cur@ =~= old_cur + cleaned_byte(b));
                }
            } else {
                proof {
                    assert(cur@ =~= cur@ + cleaned_byte(b));
                }
            }
            i += 1;
        }
    }
    proof {
        assert(bytes@.skip(i as int) =~= Seq::<u8>::empty());
    }
    if cur.len() > 0 {
        out.push(cur);
        proof {
            assert(views_of(out@) =~= views_of(out@.drop_last()) + seq![out@.last()@]);
        }
    }
    proof {
        assert(bytes@ == sentence.spec_bytes());
    }
    out
}

/// Cleaning a candidate word is exactly ASCII lowercasing followed by the
/// stripping `erase_nonascii` performs: the pipeline's tokens are what the
/// helper leaves of each lowercased candidate.
pub proof fn lemma_cleaned_is_stripped_of_folded(w: Seq<u8>)
    ensures
        cleaned(w) == stripped(w.map_values(|b: u8| fold_byte(b))),
    decreases w.len(),
{
    let m = w.map_values(|b: u8| fold_byte(b));
    if w.len() == 0 {
        assert(m =~= Seq::<u8>::empty());
    } else {
        assert(m[0] == fold_byte(w[0]));
        assert(m.drop_first() =~= w.drop_first().map_values(|b: u8| fold_byte(b)));
        lemma_cleaned_is_stripped_of_folded(w.drop_first());
        assert(kept_byte(fold_byte(w[0])) =~= cleaned_byte(w[0]));
    }
}

/// A text in which no byte survives cleaning — only punctuation,
/// whitespace or other non-alphanumeric bytes — has no tokens.
pub proof fn lemma_no_content_no_tokens(s: Seq<u8>)
    requires
        forall|i: int| 0 <= i < s.len() ==> !is_token_byte(fold_byte(#[trigger] s[i])),
    ensures
        tokens(s) == Seq::<Seq<u8>>::empty(),
    decreases s.len(),
{
    if s.len() == 0 {
    } else if space_prefix_len(s) > 0 {
        let k = space_prefix_len(s) as int;
        assert forall|i: int| 0 <= i < s.skip(k).len() implies !is_token_byte(
            fold_byte(#[trigger] s.skip(k)[i]),
        ) by {
            assert(s.skip(k)[i] == s[i + k]);
        }
        lemma_no_content_no_tokens(s.skip(k));
        assert(tokens_from(s, Seq::empty()) =~= Seq::<Seq<u8>>::empty() + tokens(s.skip(k)));
    } else {
        assert forall|i: int| 0 <= i < s.drop_first().len() implies !is_token_byte(
            fold_byte(#[trigger] s.drop_first()[i]),
        ) by {
            assert(s.drop_first()[i] == s[i + 1]);
        }
        lemma_no_content_no_tokens(s.drop_first());
        assert(Seq::<u8>::empty() + cleaned_byte(s[0]) =~= Seq::<u8>::empty());
    }
}

/// A candidate word without whitespace yields exactly its cleaned form as
/// the sole token, or no token at all when nothing survives cleaning: the
/// tokenizer maps every casing or punctuation variant of a vocabulary word
/// onto the same normalized key.
pub proof fn lemma_single_word_tokens(w: Seq<u8>)
    requires
        forall|i: int| 0 <= i < w.len() ==> space_prefix_len(#[trigger] w.skip(i)) == 0,
    ensures
        tokens(w) == if cleaned(w).len() > 0 {
            seq![cleaned(w)]
        } else {
            Seq::<Seq<u8>>::empty()
        },
{
    lemma_scan_of_word(w, Seq::empty());
    assert(Seq::empty() + cleaned(w) =~= cleaned(w));
}

/// Helper for `lemma_single_word_tokens`: scanning a whitespace-free word
/// appends its cleaned form to the pending candidate.
proof fn lemma_scan_of_word(w: Seq<u8>, cur: Seq<u8>)
    requires
        forall|i: int| 0 <= i < w.len() ==> space_prefix_len(#[trigger] w.skip(i)) == 0,
    ensures
        tokens_from(w, cur) == if (cur + cleaned(w)).len() > 0 {
            seq![cur + cleaned(w)]
        } else {
            Seq::<Seq<u8>>::empty()
        },
    decreases w.len(),
{
    if w.len() == 0 {
        assert(cur + cleaned(w) =~= cur);
    } else {
        assert(w.skip(0) =~= w);
        assert(space_prefix_len(w) == 0);
        assert forall|i: int| 0 <= i < w.drop_first().len() implies space_prefix_len(
            #[trigger] w.drop_first().skip(i),
        ) == 0 by {
            assert(w.drop_first().skip(i) =~= w.skip(i + 1));
        }
        lemma_scan_of_word(w.drop_first(), cur + cleaned_byte(w[0]));
        assert(
            (cur + cleaned_byte(w[0])) + cleaned(w.drop_first()) =~= cur + (cleaned_byte(w[0])
                + cleaned(w.drop_first()))
        );
    }
}

} // verus!
