use word_vectorizer::tokenize::{erase_nonascii, split_sentence};

#[test]
fn tokenize_empty_yields_no_tokens() {
    assert_eq!(split_sentence("").len(), 0);
}

#[test]
fn tokenize_punctuation_only_yields_no_tokens() {
    assert_eq!(split_sentence("?!? ... --- !!").len(), 0);
    assert_eq!(split_sentence("\u{00bf}\u{00a1}").len(), 0);
}

#[test]
fn tokenize_madness_sentence() {
    let toks = split_sentence("Can I play with madness?");
    let expected: Vec<Vec<u8>> = vec![
        b"can".to_vec(),
        b"i".to_vec(),
        b"play".to_vec(),
        b"with".to_vec(),
        b"madness".to_vec(),
    ];
    assert_eq!(toks, expected);
}

#[test]
fn erase_nonascii_strips_keeping_case() {
    assert_eq!(erase_nonascii("CAT!"), Some(b"CAT".to_vec()));
    assert_eq!(erase_nonascii("o'Clock"), Some(b"oClock".to_vec()));
    assert_eq!(erase_nonascii("?!?"), None);
    assert_eq!(erase_nonascii(""), None);
}

#[test]
fn tokenize_splits_on_unicode_whitespace() {
    let pair: Vec<Vec<u8>> = vec![b"a".to_vec(), b"b".to_vec()];
    assert_eq!(split_sentence("a\u{A0}b"), pair);
    assert_eq!(split_sentence("a\u{85}b"), pair);
    assert_eq!(split_sentence("a\u{2003}b"), pair);
    assert_eq!(split_sentence("a\u{2028}b"), pair);
    assert_eq!(split_sentence("a\u{3000}b"), pair);
    assert_eq!(split_sentence("\u{1680}\u{202F}\u{205F}").len(), 0);
}

#[test]
fn tokenize_preserves_order_and_drops_empty() {
    let toks = split_sentence("it's  2-4 --- o'clock");
    let expected: Vec<Vec<u8>> = vec![b"its".to_vec(), b"24".to_vec(), b"oclock".to_vec()];
    assert_eq!(toks, expected);
}

#[test]
fn normalization_variants_share_key() {
    for variant in ["cat", "Cat", "CAT!", "  cat  "] {
        let toks = split_sentence(variant);
        assert_eq!(toks, vec![b"cat".to_vec()], "variant {:?}", variant);
    }
}
