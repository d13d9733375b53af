use gen_core::corpus::Corpus;
use gen_core::data::{trigram_from_str, trigram_to_string, Data, DataError};

fn trigram(data: &Data, t: &str) -> u32 {
    let t: [char; 3] = t.chars().collect::<Vec<_>>().try_into().unwrap();
    data.get(t).unwrap_or(0)
}

fn entries_of(value: &serde_json::Value) -> (String, Vec<(String, u32)>) {
    let name = value["name"].as_str().unwrap().to_string();
    let pairs = value["trigrams"]
        .as_object()
        .unwrap()
        .iter()
        .map(|(k, v)| (k.clone(), v.as_u64().unwrap() as u32))
        .collect();
    (name, pairs)
}

#[test]
fn from_json() {
    let json: serde_json::Value = serde_json::from_str(
        r#"{
            "name": "test",
            "trigrams": {
                "abc": 0,
                "def": 1
            }
        }"#,
    )
    .unwrap();

    let (name, pairs) = entries_of(&json);
    let data = Data::from_entries(name, &pairs).unwrap();

    assert_eq!(data.name(), "test");
    assert_eq!(data.trigrams(), vec![(['a', 'b', 'c'], 0), (['d', 'e', 'f'], 1)]);
}

#[test]
fn to_json() {
    let json: serde_json::Value = serde_json::from_str(
        r#"{
            "name": "test",
            "trigrams": {
                "abc": 0,
                "def": 1
            }
        }"#,
    )
    .unwrap();

    let pairs = vec![("abc".to_string(), 0u32), ("def".to_string(), 1u32)];
    let data = Data::from_entries("test".to_string(), &pairs).unwrap();

    let (name, entries) = data.to_entries();
    let mut trigrams = serde_json::Map::new();
    for (t, f) in entries {
        trigrams.insert(t, serde_json::Value::from(f));
    }
    let mut object = serde_json::Map::new();
    object.insert("name".to_string(), serde_json::Value::from(name));
    object.insert("trigrams".to_string(), serde_json::Value::Object(trigrams));

    assert_eq!(json, serde_json::Value::Object(object));
}

#[test]
fn err() {
    let json1: serde_json::Value = serde_json::from_str(
        r#"{
            "name": "test",
            "trigrams": {
                "abcd": 0,
                "ghi": 1
            }
        }"#,
    )
    .unwrap();

    let json2: serde_json::Value = serde_json::from_str(
        r#"{
            "name": "test",
            "trigrams": {
                "abc": 0,
                "gh": 1
            }
        }"#,
    )
    .unwrap();

    let (n1, p1) = entries_of(&json1);
    let (n2, p2) = entries_of(&json2);
    assert!(Data::from_entries(n1, &p1).is_err());
    assert!(Data::from_entries(n2, &p2).is_err());
}

#[test]
fn data_from_str() {
    let s = "the will of the people.";

    let data = Data::from_str(s);

    assert_eq!(trigram(&data, "the"), 2);
    assert_eq!(trigram(&data, "peo"), 1);
    assert_eq!(trigram(&data, "e. "), 1);
    assert_eq!(trigram(&data, "dof"), 0);
}

#[test]
fn counts_follow_the_sliding_window() {
    let data = Data::from_str("abab");
    assert_eq!(
        data.trigrams(),
        vec![(['a', 'b', 'a'], 1), (['b', 'a', 'b'], 1), (['a', 'b', ' '], 1), (['b', ' ', ' '], 1)]
    );
    assert_eq!(data.name(), "");
}

#[test]
fn replacement_characters_are_skipped_in_place() {
    let data = Data::from_str("ab\u{FFFD}c");
    assert_eq!(data.trigrams(), vec![(['a', 'b', 'c'], 1), (['b', 'c', ' '], 1), (['c', ' ', ' '], 1)]);
}

#[test]
fn short_texts() {
    assert_eq!(Data::from_str("").trigrams(), vec![]);
    assert_eq!(Data::from_str("a").trigrams(), vec![(['a', ' ', ' '], 1)]);
}

#[test]
fn adding_adds_counts() {
    let a = Data::from_str("aaa");
    let b = Data::from_str("aab");
    let sum = a.add(b);
    assert_eq!(trigram(&sum, "aaa"), 1);
    assert_eq!(trigram(&sum, "aa "), 1);
    assert_eq!(trigram(&sum, "a  "), 1);
    assert_eq!(trigram(&sum, "aab"), 1);
    assert_eq!(trigram(&sum, "ab "), 1);
    assert_eq!(trigram(&sum, "b  "), 1);
    let twice = Data::from_str("xyz").add(Data::from_str("xyz"));
    assert_eq!(trigram(&twice, "xyz"), 2);
    assert_eq!(trigram(&twice, "z  "), 2);
}

#[test]
fn sorting_puts_frequent_first() {
    let data = Data::from_str("aaaa").sorted();
    assert_eq!(
        data.trigrams(),
        vec![(['a', 'a', 'a'], 2), (['a', ' ', ' '], 1), (['a', 'a', ' '], 1)]
    );
}

#[test]
fn saving_needs_a_name() {
    let data = Data::from_str("abc");
    assert!(matches!(data.save_name(), Err(DataError::NamelessDataError)));
    let named = data.with_name("english".to_string());
    assert_eq!(named.save_name().unwrap(), "english");
    assert_eq!(named.into_name(), "english");
}

#[test]
fn trigram_strings() {
    assert_eq!(trigram_from_str("abc").unwrap(), ['a', 'b', 'c']);
    assert!(matches!(trigram_from_str("ab"), Err(DataError::TrigramConversionError)));
    assert!(matches!(trigram_from_str("abcd"), Err(DataError::TrigramConversionError)));
    assert_eq!(trigram_to_string(['x', 'y', 'z']), "xyz");
}

#[test]
fn a_trigram_written_twice_keeps_its_place_and_last_count() {
    let pairs = vec![("abc".to_string(), 1u32), ("def".to_string(), 2u32), ("abc".to_string(), 3u32)];
    let data = Data::from_entries("x".to_string(), &pairs).unwrap();
    assert_eq!(data.trigrams(), vec![(['a', 'b', 'c'], 3), (['d', 'e', 'f'], 2)]);
}

#[test]
fn corpus_to_data_pairs_combinations_with_counts() {
    // characters 'a', ' '; the cube holds "aaa" at 0, "aa " at 4 and "a  " at 6, and the
    // combinations aaa, aa_, a__, ___ take the first four places
    let corpus = Corpus::from_str("aaa");
    let data = Data::from_corpus(&corpus);
    assert_eq!(data.name(), "");
    assert_eq!(data.trigrams(), vec![(['a', 'a', 'a'], 1)]);

    // "ab ": a, b, ' ' at 0 + 3 + 18 and "b  " at 25: both past the ten combinations
    let corpus = Corpus::from_str("ab");
    assert_eq!(Data::from_corpus(&corpus).trigrams(), vec![]);
}

#[test]
fn the_written_form_reads_back() {
    let data = Data::from_str("the will of the people.").sorted().with_name("people".to_string());
    let (name, pairs) = data.to_entries();
    let back = Data::from_entries(name, &pairs).unwrap();
    assert_eq!(back.name(), "people");
    assert_eq!(back.trigrams(), data.trigrams());
}

#[test]
fn chunks_decode_as_utf8() {
    assert_eq!(gen_core::data::decode_chunk("ab⇑".as_bytes()).unwrap(), vec!['a', 'b', '⇑']);
    assert!(matches!(gen_core::data::decode_chunk(&[0x61, 0xff]), Err(DataError::UTF8Error(_))));
}
