use gen_core::finger::Finger;
use gen_core::finger::Finger::{LI, LM, LP, LR, LT, RI, RM, RP, RR, RT};
use gen_core::keyboard::Keyboard;
use gen_core::trigram_types::default::{Alternation, Inroll, Outroll, Redirect, Sfb, Sfr, Sft};
use gen_core::trigram_types::{DynamicType, TrigramType, TrigramTypes};

const FINGERING: [Finger; 30] = [
    LP, LR, LM, LI, LI,  RI, RI, RM, RR, RP,
    LP, LR, LM, LI, LI,  RI, RI, RM, RR, RP,
    LP, LR, LM, LI, LI,  RI, RI, RM, RR, RP,
];

#[test]
fn default_no_overlap() {
    let keyboard = Keyboard::new(&FINGERING);

    let mut default = TrigramTypes::with_defaults(keyboard);

    assert!(!default.has_overlap());

    assert!(default.add_type(&Sfb).is_none());
}

#[test]
fn each_trigram_has_one_default_type() {
    let keyboard = Keyboard::new(&FINGERING);
    let types = TrigramTypes::with_defaults(keyboard);
    for i in 0..30 {
        for j in 0..30 {
            for k in 0..30 {
                let claiming = types
                    .types()
                    .iter()
                    .filter(|t| t.is_type(types.keyboard(), [i, j, k]))
                    .count();
                assert_eq!(claiming, 1, "[{i}, {j}, {k}]");
            }
        }
    }
    // off the board, no type claims a trigram, and it gets the default type
    assert_eq!(types.type_index([0, 1, 30]), 9);
    assert_eq!(types.get_type([0, 1, 30]).display(), "Unspecified");
    assert_eq!(types.default().display(), "Unspecified");
}

#[test]
fn known_trigram_types() {
    let keyboard = Keyboard::new(&FINGERING);
    let types = TrigramTypes::with_defaults(keyboard);
    let name = |p: [usize; 3]| types.get_type(p).display().to_string();
    // q a z: left pinky three times
    assert_eq!(name([0, 10, 20]), "Sft");
    // q q w: a repeat
    assert_eq!(name([0, 0, 1]), "Sfr");
    // q a s: pinky twice, then ring
    assert_eq!(name([0, 10, 11]), "Sfb");
    // a s j: pinky, ring, right index
    assert_eq!(name([10, 11, 16]), "Inroll");
    // s a j: ring, pinky, right index
    assert_eq!(name([11, 10, 16]), "Outroll");
    // a j s: hands alternate
    assert_eq!(name([10, 16, 11]), "Alternation");
    // s a d: one hand, changing direction
    assert_eq!(name([11, 10, 12]), "Redirect");
    assert!(Sfb.is_type(types.keyboard(), [0, 10, 11]));
    assert!(!Sft.is_type(types.keyboard(), [0, 10, 11]));
    assert!(Sfr.is_type(types.keyboard(), [3, 3, 3]));
    assert!(Inroll.is_type(types.keyboard(), [10, 11, 16]));
    assert!(Outroll.is_type(types.keyboard(), [11, 10, 16]));
    assert!(Alternation.is_type(types.keyboard(), [10, 16, 11]));
    assert!(Redirect.is_type(types.keyboard(), [11, 10, 12]));
}

#[test]
fn overlapping_types_are_refused() {
    let twice: Vec<&dyn TrigramType> = vec![&Sfb, &Sfb];
    assert!(TrigramTypes::new(twice, Keyboard::new(&FINGERING)).is_none());
    let apart: Vec<&dyn TrigramType> = vec![&Sfb, &Sfr];
    assert!(TrigramTypes::new(apart, Keyboard::new(&FINGERING)).is_some());
}

#[test]
fn a_dynamic_type_tests_the_fingers() {
    let same_hand = DynamicType::new(
        |f: [Finger; 3]| {
            let left = |f: Finger| matches!(f, LP | LR | LM | LI | LT);
            left(f[0]) == left(f[1]) && left(f[1]) == left(f[2])
        },
        "Onehand".to_string(),
    );
    let keyboard = Keyboard::new(&FINGERING);
    assert_eq!(same_hand.display(), "Onehand");
    assert!(same_hand.is_type(&keyboard, [0, 1, 2]));
    assert!(!same_hand.is_type(&keyboard, [0, 1, 9]));
    assert!(!same_hand.is_type(&keyboard, [0, 1, 30]));

    let list: Vec<&dyn TrigramType> = vec![&Sfr];
    let mut types = TrigramTypes::new(list, Keyboard::new(&FINGERING)).unwrap();
    assert!(types.add_type(&same_hand).is_none());
}

#[test]
fn adding_a_type_that_fits() {
    let only_pinkies = DynamicType::new(
        |f: [Finger; 3]| f == [LP, LP, RP],
        "PinkyHop".to_string(),
    );
    let list: Vec<&dyn TrigramType> = vec![&Alternation];
    let mut types = TrigramTypes::new(list, Keyboard::new(&FINGERING)).unwrap();
    assert!(types.add_type(&only_pinkies).is_some());

    // positions 0, 10, 9 are pressed by LP, LP, RP: a same-finger bigram as well
    let list: Vec<&dyn TrigramType> = vec![&Sfb];
    let mut types = TrigramTypes::new(list, Keyboard::new(&FINGERING)).unwrap();
    assert!(types.add_type(&only_pinkies).is_none());
}

#[test]
fn names_must_differ_from_the_default() {
    let nothing = DynamicType::new(|_: [Finger; 3]| false, "Unspecified".to_string());
    let list: Vec<&dyn TrigramType> = vec![&nothing];
    assert!(TrigramTypes::new(list, Keyboard::new(&FINGERING)).is_none());

    let also_nothing = DynamicType::new(|_: [Finger; 3]| false, "Nothing".to_string());
    let list: Vec<&dyn TrigramType> = vec![&also_nothing, &nothing];
    assert!(TrigramTypes::new(list, Keyboard::new(&FINGERING)).is_none());

    let list: Vec<&dyn TrigramType> = vec![&also_nothing];
    assert!(TrigramTypes::new(list, Keyboard::new(&FINGERING)).is_some());
}

#[test]
fn the_default_types_by_name() {
    let types = TrigramTypes::with_defaults(Keyboard::new(&[LP, LR, RI]));
    let names: Vec<&str> = types.types().iter().map(|t| t.display()).collect();
    assert_eq!(
        names,
        ["Sfb", "Sfr", "Sft", "Inroll", "Outroll", "Alternation", "Onehand In", "Onehand Out", "Redirect"]
    );
    assert_eq!(types.default().display(), "Unspecified");
    assert_eq!(types.keyboard().fingering(), &[LP, LR, RI]);
    assert_eq!(types.get_type([0, 1, 2]).display(), "Inroll");
    assert_eq!(types.get_type([2, 1, 0]).display(), "Outroll");
    assert_eq!(types.get_type([0, 2, 0]).display(), "Alternation");
    assert_eq!(types.get_type([0, 1, 0]).display(), "Redirect");
    assert_eq!(types.get_type([0, 0, 0]).display(), "Sfr");
}

#[test]
fn the_first_overlap() {
    let keyboard = Keyboard::new(&FINGERING);
    let twice: Vec<&dyn TrigramType> = vec![&Sfb, &Sfb];
    // LP, LR, LR: the first same-finger bigram in lexicographic order
    assert_eq!(TrigramTypes::first_overlap(&twice, &keyboard), Some([0, 1, 11]));
    let apart: Vec<&dyn TrigramType> = vec![&Sfb, &Sfr];
    assert_eq!(TrigramTypes::first_overlap(&apart, &keyboard), None);
}
