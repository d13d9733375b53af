use gen_core::corpus_refiner::CorpusRefiner;

fn refine(refiner: &CorpusRefiner, s: &str) -> String {
    let chars: Vec<char> = s.chars().collect();
    refiner.refine(&chars).into_iter().flatten().collect()
}

#[test]
fn refiner_test() {
    let corpus = "ABBcde abcd";

    let refiner = CorpusRefiner::new()
        .include_chars(&['b', 'c', 'd'], true)
        .convert(&[('A', '0')])
        .include_ascii_whitespace()
        .repeat_key(true)
        .build();

    let refined = refine(&refiner, corpus);

    println!("{refined}");
    assert_eq!(refined, "0⇑b@cd\u{FFFD} \u{FFFD}bcd\u{FFFD}");
}

#[test]
fn without_rules_everything_is_replaced() {
    let refiner = CorpusRefiner::new().build();
    assert_eq!(refine(&refiner, "ab"), "\u{FFFD}\u{FFFD}\u{FFFD}");
}

#[test]
fn repeats_stay_without_the_repeat_key() {
    let refiner = CorpusRefiner::new().include_chars(&['a'], false).build();
    assert_eq!(refine(&refiner, "aa"), "aa\u{FFFD}");
    let refiner = CorpusRefiner::new().include_chars(&['a'], false).repeat_key(true).build();
    assert_eq!(refine(&refiner, "aaa"), "a@@\u{FFFD}");
}

#[test]
fn dead_keys_and_uppercase() {
    let refiner = CorpusRefiner::new()
        .dead_key(&[('é', 'e')], '´')
        .with_uppercase(&[('x', 'X')], true)
        .include_space()
        .build();
    assert_eq!(refine(&refiner, "é xX"), "´e x⇑x\u{FFFD}");
}

#[test]
fn uppercase_versions_come_from_the_standard_library() {
    let refiner = CorpusRefiner::new().include_chars(&['ß', 'é'], true).build();
    assert_eq!(refine(&refiner, "É"), "⇑é\u{FFFD}");
}

#[test]
fn qwerty_punctuation_and_miscellaneous_punctuation() {
    let refiner = CorpusRefiner::new()
        .include_qwerty_punct_casings()
        .normalize_miscellaneous_punct()
        .build();
    assert_eq!(refine(&refiner, "!1"), "⇑11\u{FFFD}");
    assert_eq!(refine(&refiner, "’"), "'\u{FFFD}");
}

#[test]
fn a_built_refiner_empties_its_builder() {
    let mut builder = CorpusRefiner::new();
    builder.include_space();
    let first = builder.build();
    let second = builder.build();
    assert_eq!(refine(&first, " "), " \u{FFFD}");
    assert_eq!(refine(&second, " "), "\u{FFFD}\u{FFFD}");
}

#[test]
fn a_second_build_keeps_the_repeat_key() {
    let mut builder = CorpusRefiner::new();
    builder.include_chars(&['a'], false).repeat_key(true);
    let first = builder.build();
    let second = builder.build();
    assert_eq!(refine(&first, "aa"), "a@\u{FFFD}");
    assert_eq!(refine(&second, "aa"), "\u{FFFD}@\u{FFFD}");
}
