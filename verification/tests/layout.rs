use gen_core::finger::Finger;
use gen_core::finger::Finger::{LI, LM, LP, LR, LT, RI, RM, RP, RR, RT};
use gen_core::keyboard::Keyboard;
use gen_core::keyboard_types::{Ansi, AnsiAngle, Iso, IsoAngle, KeyboardType, Ortho};
use gen_core::layout::Layout;

#[test]
fn a_layout_needs_a_finger_per_key() {
    assert!(Layout::new(&[0, 1, 2], &[LP, LR]).is_none());
    let layout = Layout::new(&[0, 1, 2], &[LP, LR, LM]).unwrap();
    assert_eq!(layout.len(), 3);
    assert!(!layout.is_empty());
    assert_eq!(layout.keys(), &[0, 1, 2]);
    assert_eq!(layout.fingers(), &[LP, LR, LM]);
    assert!(Layout::from_vecs(vec![], vec![]).unwrap().is_empty());
    assert!(Layout::from_vecs(vec![1], vec![]).is_none());
}

#[test]
fn lookups_on_and_off_the_layout() {
    let layout = Layout::new(&[7, 8, 9], &[LP, LR, LM]).unwrap();
    assert_eq!(layout.key(1), Some(8));
    assert_eq!(layout.key(3), None);
    assert_eq!(layout.finger(2), Some(LM));
    assert_eq!(layout.finger(3), None);
    assert_eq!(layout.key_trigram([2, 0, 1]), Some([9, 7, 8]));
    assert_eq!(layout.key_trigram([2, 0, 3]), None);
    assert_eq!(layout.finger_trigram([0, 0, 2]), Some([LP, LP, LM]));
    assert_eq!(layout.finger_trigram([5, 0, 2]), None);
    assert_eq!(layout.k(0), 7);
    assert_eq!(layout.kt([1, 1, 0]), [8, 8, 7]);
}

#[test]
fn a_swap_undoes_itself() {
    let mut layout = Layout::new(&[0, 1, 2, 3], &[LP, LR, LM, LI]).unwrap();
    let before = layout.clone();
    layout.swap(0, 3);
    assert_eq!(layout.keys(), &[3, 1, 2, 0]);
    assert_eq!(layout.fingers(), &[LP, LR, LM, LI]);
    layout.swap(0, 3);
    assert_eq!(layout, before);
    layout.swap(2, 2);
    assert_eq!(layout, before);
}

#[test]
fn a_random_layout_keeps_its_keys() {
    let keys: Vec<usize> = (0..30).collect();
    let fingers: Vec<Finger> = Ansi::fingerings();
    let layout = Layout::random(keys.clone(), fingers.clone()).unwrap();
    let mut shuffled = layout.keys().to_vec();
    shuffled.sort();
    assert_eq!(shuffled, keys);
    assert_eq!(layout.fingers(), fingers.as_slice());
    assert!(Layout::random(keys, vec![LP]).is_none());
}

#[test]
fn keyboards_and_their_fingerings() {
    let keyboard = Keyboard::new(&[LP, RP]);
    assert_eq!(keyboard.len(), 2);
    assert!(!keyboard.is_empty());
    assert_eq!(keyboard.fingering(), &[LP, RP]);
    assert_eq!(keyboard.get_finger(1), Some(RP));
    assert_eq!(keyboard.get_finger(2), None);
    assert_eq!(keyboard.get_fingers([1, 0, 2]), [Some(RP), Some(LP), None]);

    for kb in [Ansi::keyboard(), Iso::keyboard(), IsoAngle::keyboard(), Ortho::keyboard()] {
        assert_eq!(kb.len(), 30);
        assert_eq!(kb.get_finger(20), Some(LP));
    }
    for kb in [AnsiAngle::keyboard()] {
        assert_eq!(kb.len(), 30);
        assert_eq!(kb.get_finger(20), Some(LR));
        assert_eq!(kb.get_finger(24), Some(LI));
    }
}

#[test]
fn finger_numbers() {
    let all = [LP, LR, LM, LI, LT, RT, RI, RM, RR, RP];
    for (i, f) in all.iter().enumerate() {
        assert_eq!(f.to_u8(), i as u8);
        assert_eq!(Finger::from_u8(i as u8), Some(*f));
    }
    assert_eq!(Finger::from_u8(10), None);
}

#[test]
fn random_layouts_are_shuffled() {
    let keys: Vec<usize> = (0..30).collect();
    let fingers: Vec<Finger> = Ansi::fingerings();
    let moved = (0..5).any(|_| {
        let layout = Layout::random(keys.clone(), fingers.clone()).unwrap();
        layout.keys() != keys.as_slice()
    });
    assert!(moved);
}
