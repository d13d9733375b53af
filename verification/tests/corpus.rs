use gen_core::cli::cli;
use gen_core::corpus::Corpus;
use gen_core::data::Data;
use gen_core::{REPEAT_KEY, REPLACEMENT_CHAR, SHIFT_CHAR};

#[test]
fn counts_sit_in_the_cube() {
    let corpus = Corpus::from_str("abab");
    // characters a, b, ' ' ; trigrams aba, bab, ab_, b__
    assert_eq!(corpus.len(), 3);
    assert_eq!(corpus.index((0, 1, 0)), 1);
    assert_eq!(corpus.index((1, 0, 1)), 1);
    assert_eq!(corpus.index((0, 1, 2)), 1);
    assert_eq!(corpus.index((1, 2, 2)), 1);
    assert_eq!(corpus.index((2, 2, 2)), 0);
    assert_eq!(corpus.index((0, 0, 0)), 0);
}

#[test]
fn a_corpus_from_data() {
    let data = Data::from_str("aaaa");
    let corpus = Corpus::from_data(data);
    assert_eq!(corpus.len(), 2);
    assert_eq!(corpus.index((0, 0, 0)), 2);
    assert_eq!(corpus.index((0, 0, 1)), 1);
    assert_eq!(corpus.index((0, 1, 1)), 1);
    assert_eq!(corpus.index((1, 1, 1)), 0);
}

#[test]
fn constants_and_the_command_line() {
    assert_eq!(REPLACEMENT_CHAR, char::REPLACEMENT_CHARACTER);
    assert_eq!(SHIFT_CHAR, '⇑');
    assert_eq!(REPEAT_KEY, '@');
    assert!(cli().is_ok());
}
