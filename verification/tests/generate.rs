use gen_core::data::Data;
use gen_core::generate::Corpus;

#[test]
fn characters_in_order_of_first_occurrence() {
    let data = Data::from_str("abcab");
    let corpus = Corpus::from_data(&data);
    // trigrams abc, bca, cab, ab_, b__
    assert_eq!(corpus.len(), 4);
    assert_eq!(corpus.decode(&[0, 1, 2, 3, 4]), vec![Some('a'), Some('b'), Some('c'), Some(' '), None]);
}

#[test]
fn encode_then_decode() {
    let corpus = Corpus::from_data(&Data::from_str("the quick brown fox"));
    let start = "fox";
    let encoded: Vec<usize> = corpus
        .encode(&start.chars().collect::<Vec<_>>())
        .into_iter()
        .collect::<Option<Vec<_>>>()
        .expect("could not encode");
    let decoded: String = corpus.decode(&encoded).into_iter().flatten().collect();
    assert_eq!(start, decoded);
    assert_eq!(corpus.encode_slice(&['z']), vec![None]);
    assert_eq!(corpus.decode_slice(&encoded), vec![Some('f'), Some('o'), Some('x')]);
}

#[test]
fn trigrams_encode_when_all_three_occur() {
    let corpus = Corpus::from_data(&Data::from_str("abc"));
    assert_eq!(corpus.encode_trigram(['c', 'a', 'b']), Some([2, 0, 1]));
    assert_eq!(corpus.encode_trigram(['c', 'a', 'z']), None);
    assert_eq!(corpus.decode_trigram([2, 0, 1]), Some(['c', 'a', 'b']));
    assert_eq!(corpus.decode_trigram([2, 0, 4]), None);
}

#[test]
fn encode_decode() {
    let corpus = Corpus::from_data(&Data::from_str("a quick brown fox, abc, jumps over the lazy dog"));

    let start = "abc";
    let encoded = corpus
        .encode(&start.chars().collect::<Vec<_>>())
        .into_iter()
        .collect::<Option<Vec<_>>>()
        .expect("could not encode {start}");

    let decoded = corpus.decode(&encoded).into_iter().flatten().collect::<String>();

    assert_eq!(start, decoded)
}
