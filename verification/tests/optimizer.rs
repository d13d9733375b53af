use gen_core::finger::Finger::{LI, LM, LP, LR, LT, RI, RM, RP, RR, RT};
use gen_core::keyboard::Keyboard;
use gen_core::layout::Layout;
use gen_core::optimizer::{affected_trigrams, layout_to_str, swap_list, trigram_index, trigram_type_table};
use gen_core::trigram_types::TrigramTypes;

#[test]
fn affected_of_a_swap() {
    // every trigram of two positions holds position 0 or 1
    let all = affected_trigrams(2, 0, 1);
    assert_eq!(all.len(), 8);
    assert_eq!(all[0], (0, [0, 0, 0]));
    assert_eq!(all[5], (5, [1, 0, 1]));
    assert_eq!(all[7], (7, [1, 1, 1]));

    // a position swapped with itself touches nothing
    assert!(affected_trigrams(3, 1, 1).is_empty());

    // of three positions, only [0, 0, 0] holds neither 1 nor 2
    let some = affected_trigrams(3, 1, 2);
    assert_eq!(some.len(), 26);
    assert_eq!(some[0], (1, [0, 0, 1]));
    assert_eq!(some[25], (26, [2, 2, 2]));

    // thirty-one positions, as on the keyboards with an extra key
    let many = affected_trigrams(31, 0, 11);
    assert_eq!(many.len(), 31 * 31 * 31 - 29 * 29 * 29);
    assert!(many.iter().all(|(i, t)| {
        (t.contains(&0) || t.contains(&11))
            && *i as usize == trigram_index(31, [t[0] as usize, t[1] as usize, t[2] as usize])
    }));
    assert!(many.windows(2).all(|w| w[0].0 < w[1].0));
}

#[test]
fn trigram_indices_are_lexicographic() {
    assert_eq!(trigram_index(31, [1, 2, 3]), 31 * 31 + 2 * 31 + 3);
    assert_eq!(trigram_index(3, [2, 2, 2]), 26);
    assert_eq!(trigram_index(1, [0, 0, 0]), 0);
}

#[test]
fn swaps_in_order() {
    assert_eq!(
        swap_list(3),
        vec![(0, 0), (0, 1), (0, 2), (1, 0), (1, 1), (1, 2), (2, 0), (2, 1), (2, 2)]
    );
    assert!(swap_list(0).is_empty());
}

#[test]
fn a_table_of_trigram_types() {
    let keyboard = Keyboard::new(&[LP, LR, RP]);
    let types = TrigramTypes::with_defaults(keyboard);
    let table = trigram_type_table(&types);
    assert_eq!(table.len(), 27);
    for i in 0..3 {
        for j in 0..3 {
            for k in 0..3 {
                assert_eq!(table[i * 9 + j * 3 + k], types.type_index([i, j, k]));
            }
        }
    }
    // [0, 0, 0] is a repeat: the second type of the list
    assert_eq!(table[0], 1);
}

#[test]
fn the_printed_layout() {
    let fingering = [
        LP, LR, LM, LI, LI,  RI, RI, RM, RR, RP,
        LP, LR, LM, LI, LI,  RI, RI, RM, RR, RP,
    ];
    let chars: Vec<char> = "qwertyuiopasdfghjkl;".chars().collect();
    let keys: Vec<usize> = (0..20).collect();
    let layout = Layout::new(&keys, &fingering).unwrap();
    assert_eq!(layout_to_str(&chars, &layout), "\nq w e r t  y u i o p\na s d f g  h j k l ;");
}

#[test]
fn a_swap_changes_only_the_affected_trigrams() {
    let keys: Vec<usize> = vec![3, 1, 4, 0, 2];
    let fingers = [LP, LR, LM, LI, RI];
    let mut layout = Layout::new(&keys, &fingers).unwrap();
    let before = layout.clone();
    layout.swap(1, 3);
    let affected = affected_trigrams(5, 1, 3);
    for i in 0..5 {
        for j in 0..5 {
            for k in 0..5 {
                let listed = affected.iter().any(|(_, t)| *t == [i as u8, j as u8, k as u8]);
                if !listed {
                    assert_eq!(layout.kt([i, j, k]), before.kt([i, j, k]));
                }
            }
        }
    }
}
