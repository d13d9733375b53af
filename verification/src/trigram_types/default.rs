//! The trigram types that come with the library.
use vstd::prelude::*;

use crate::finger::{finger_number, Finger};
use crate::keyboard::{Keyboard, Pos};
use crate::trigram_types::TrigramType;

verus! {

/// Whether all three positions lie on a keyboard with the given fingering.
pub open spec fn on_board(fingers: Seq<Finger>, positions: [Pos; 3]) -> bool {
    &&& positions[0] < fingers.len()
    &&& positions[1] < fingers.len()
    &&& positions[2] < fingers.len()
}

/// The number of the finger at position `p`.
pub open spec fn fnum(fingers: Seq<Finger>, p: Pos) -> int {
    finger_number(fingers[p as int])
}

/// Whether a finger number belongs to the left hand.
pub open spec fn left(f: int) -> bool {
    f < 5
}

/// A repeat: the same position is pressed twice in a row.
pub open spec fn is_sfr(positions: [Pos; 3]) -> bool {
    positions[0] == positions[1] || positions[1] == positions[2]
}

/// A same-finger bigram inside the trigram: two consecutive keys share a finger, but not all
/// three.
pub open spec fn is_sfb(fingers: Seq<Finger>, positions: [Pos; 3]) -> bool {
    let (f1, f2, f3) = (fnum(fingers, positions[0]), fnum(fingers, positions[1]), fnum(fingers, positions[2]));
    &&& on_board(fingers, positions)
    &&& !is_sfr(positions)
    &&& (f1 == f2 || f2 == f3)
    &&& f1 != f3
}

/// A same-finger trigram: one finger presses all three keys.
pub open spec fn is_sft(fingers: Seq<Finger>, positions: [Pos; 3]) -> bool {
    let (f1, f2, f3) = (fnum(fingers, positions[0]), fnum(fingers, positions[1]), fnum(fingers, positions[2]));
    &&& on_board(fingers, positions)
    &&& !is_sfr(positions)
    &&& f1 == f2 && f2 == f3
}

/// An inward roll on finger numbers: two keys on one hand moving towards the thumb, and one key
/// on the other hand before or after them.
pub open spec fn inroll_fingers(f1: int, f2: int, f3: int) -> bool {
    ||| left(f1) && left(f2) && !left(f3) && f1 < f2
    ||| !left(f1) && left(f2) && left(f3) && f2 < f3
    ||| !left(f1) && !left(f2) && left(f3) && f1 > f2
    ||| left(f1) && !left(f2) && !left(f3) && f2 > f3
}

/// An outward roll on finger numbers: two keys on one hand moving away from the thumb, and one
/// key on the other hand before or after them.
pub open spec fn outroll_fingers(f1: int, f2: int, f3: int) -> bool {
    ||| left(f1) && left(f2) && !left(f3) && f1 > f2
    ||| !left(f1) && left(f2) && left(f3) && f2 > f3
    ||| !left(f1) && !left(f2) && left(f3) && f1 < f2
    ||| left(f1) && !left(f2) && !left(f3) && f2 < f3
}

/// Alternation on finger numbers: the hands change on both steps.
pub open spec fn alternation_fingers(f1: int, f2: int, f3: int) -> bool {
    left(f1) && !left(f2) && left(f3) || !left(f1) && left(f2) && !left(f3)
}

/// A one-handed roll inwards, towards the thumb.
pub open spec fn onehand_in_fingers(f1: int, f2: int, f3: int) -> bool {
    left(f1) && left(f2) && left(f3) && f1 < f2 && f2 < f3
        || !left(f1) && !left(f2) && !left(f3) && f1 > f2 && f2 > f3
}

/// A one-handed roll outwards, away from the thumb.
pub open spec fn onehand_out_fingers(f1: int, f2: int, f3: int) -> bool {
    left(f1) && left(f2) && left(f3) && f1 > f2 && f2 > f3
        || !left(f1) && !left(f2) && !left(f3) && f1 < f2 && f2 < f3
}

/// A redirect: one hand, and the direction changes in the middle.
pub open spec fn redirect_fingers(f1: int, f2: int, f3: int) -> bool {
    &&& left(f1) == left(f2) && left(f2) == left(f3)
    &&& (f1 < f2 && f2 > f3) || (f1 > f2 && f2 < f3)
}

/// A trigram on the board whose finger numbers satisfy `p`.
pub open spec fn fingers_satisfy(
    fingers: Seq<Finger>,
    positions: [Pos; 3],
    p: spec_fn(int, int, int) -> bool,
) -> bool {
    on_board(fingers, positions) && p(
        fnum(fingers, positions[0]),
        fnum(fingers, positions[1]),
        fnum(fingers, positions[2]),
    )
}

/// The fingers at three positions as numbers, if all three lie on the keyboard.
fn finger_numbers(keyboard: &Keyboard, positions: [Pos; 3]) -> (r: Option<(u8, u8, u8)>)
    ensures
        on_board(keyboard@, positions) <==> r is Some,
        r matches Some((f1, f2, f3)) ==> {
            &&& f1 == fnum(keyboard@, positions[0])
            &&& f2 == fnum(keyboard@, positions[1])
            &&& f3 == fnum(keyboard@, positions[2])
            &&& f1 < 10 && f2 < 10 && f3 < 10
        },
{
    let fingerings = keyboard.get_fingers(positions);
    match (fingerings[0], fingerings[1], fingerings[2]) {
        (Some(f1), Some(f2), Some(f3)) => {
            proof {
                crate::finger::lemma_finger_number(f1);
                crate::finger::lemma_finger_number(f2);
                crate::finger::lemma_finger_number(f3);
            }
            Some((f1.to_u8(), f2.to_u8(), f3.to_u8()))
        },
        _ => None,
    }
}

/// How many of the nine default types (all but `Unspecified`) a trigram has.
pub open spec fn default_type_count(fingers: Seq<Finger>, positions: [Pos; 3]) -> int {
    let (f1, f2, f3) = (fnum(fingers, positions[0]), fnum(fingers, positions[1]), fnum(fingers, positions[2]));
    let on = on_board(fingers, positions);
    (if is_sfb(fingers, positions) { 1int } else { 0 })
        + (if is_sfr(positions) { 1int } else { 0 })
        + (if is_sft(fingers, positions) { 1int } else { 0 })
        + (if on && inroll_fingers(f1, f2, f3) { 1int } else { 0 })
        + (if on && outroll_fingers(f1, f2, f3) { 1int } else { 0 })
        + (if on && alternation_fingers(f1, f2, f3) { 1int } else { 0 })
        + (if on && onehand_in_fingers(f1, f2, f3) { 1int } else { 0 })
        + (if on && onehand_out_fingers(f1, f2, f3) { 1int } else { 0 })
        + (if on && redirect_fingers(f1, f2, f3) { 1int } else { 0 })
}

/// The default types divide the trigrams among themselves: on any keyboard a trigram has at
/// most one of the nine default types, and exactly one when its three positions lie on the
/// keyboard.
pub proof fn lemma_default_types_partition(fingers: Seq<Finger>, positions: [Pos; 3])
    ensures
        default_type_count(fingers, positions) <= 1,
        on_board(fingers, positions) ==> default_type_count(fingers, positions) == 1,
{
    if on_board(fingers, positions) {
        crate::finger::lemma_finger_number(fingers[positions[0] as int]);
        crate::finger::lemma_finger_number(fingers[positions[1] as int]);
        crate::finger::lemma_finger_number(fingers[positions[2] as int]);
    }
}

/// Same-finger bigram.
pub struct Sfb;

/// Same-finger repeat.
pub struct Sfr;

/// Same-finger trigram.
pub struct Sft;

/// Inward roll.
pub struct Inroll;

/// Outward roll.
pub struct Outroll;

/// Alternation between the hands.
pub struct Alternation;

/// Redirect on one hand.
pub struct Redirect;

/// One-handed inward roll.
pub struct OnehandIn;

/// One-handed outward roll.
pub struct OnehandOut;

/// The type of trigrams that no other type claims.
pub struct Unspecified;

impl TrigramType for Sfb {
    open spec fn spec_is_type(&self, fingers: Seq<Finger>, positions: [Pos; 3]) -> bool {
        is_sfb(fingers, positions)
    }

    open spec fn spec_display(&self) -> Seq<char> {
        "Sfb"@
    }

    fn is_type(&self, keyboard: &Keyboard, positions: [Pos; 3]) -> (r: bool) {
        let (f1, f2, f3) = match finger_numbers(keyboard, positions) {
            Some(t) => t,
            None => return false,
        };
        !Sfr.is_type(keyboard, positions) && ((f1 == f2 || f2 == f3) && f1 != f3)
    }

    fn display(&self) -> (r: &str) {
        "Sfb"
    }
}

impl TrigramType for Sfr {
    open spec fn spec_is_type(&self, fingers: Seq<Finger>, positions: [Pos; 3]) -> bool {
        is_sfr(positions)
    }

    open spec fn spec_display(&self) -> Seq<char> {
        "Sfr"@
    }

    fn is_type(&self, keyboard: &Keyboard, positions: [Pos; 3]) -> (r: bool) {
        positions[0] == positions[1] || positions[1] == positions[2]
    }

    fn display(&self) -> (r: &str) {
        "Sfr"
    }
}

impl TrigramType for Sft {
    open spec fn spec_is_type(&self, fingers: Seq<Finger>, positions: [Pos; 3]) -> bool {
        is_sft(fingers, positions)
    }

    open spec fn spec_display(&self) -> Seq<char> {
        "Sft"@
    }

    fn is_type(&self, keyboard: &Keyboard, positions: [Pos; 3]) -> (r: bool) {
        let (f1, f2, f3) = match finger_numbers(keyboard, positions) {
            Some(t) => t,
            None => return false,
        };
        !Sfr.is_type(keyboard, positions) && (f1 == f2 && f2 == f3)
    }

    fn display(&self) -> (r: &str) {
        "Sft"
    }
}

impl TrigramType for Inroll {
    open spec fn spec_is_type(&self, fingers: Seq<Finger>, positions: [Pos; 3]) -> bool {
        fingers_satisfy(fingers, positions, |a: int, b: int, c: int| inroll_fingers(a, b, c))
    }

    open spec fn spec_display(&self) -> Seq<char> {
        "Inroll"@
    }

    fn is_type(&self, keyboard: &Keyboard, positions: [Pos; 3]) -> (r: bool) {
        let (f1, f2, f3) = match finger_numbers(keyboard, positions) {
            Some(t) => t,
            None => return false,
        };
        let (lh1, lh2, lh3) = (f1 < 5, f2 < 5, f3 < 5);
        (f2 > f3 || lh3 || lh2) && (f1 > f2 || lh2 || lh1) && (f2 < f3 || !lh2 || lh1) && (f1 < f2
            || lh3 || !lh2) && (lh3 || lh1) && (!lh3 || !lh1)
    }

    fn display(&self) -> (r: &str) {
        "Inroll"
    }
}

impl TrigramType for Outroll {
    open spec fn spec_is_type(&self, fingers: Seq<Finger>, positions: [Pos; 3]) -> bool {
        fingers_satisfy(fingers, positions, |a: int, b: int, c: int| outroll_fingers(a, b, c))
    }

    open spec fn spec_display(&self) -> Seq<char> {
        "Outroll"@
    }

    fn is_type(&self, keyboard: &Keyboard, positions: [Pos; 3]) -> (r: bool) {
        let (f1, f2, f3) = match finger_numbers(keyboard, positions) {
            Some(t) => t,
            None => return false,
        };
        let (lh1, lh2, lh3) = (f1 < 5, f2 < 5, f3 < 5);
        (f2 < f3 || lh3 || lh2) && (f1 < f2 || lh2 || lh1) && (f2 > f3 || !lh2 || lh1) && (f1 > f2
            || lh3 || !lh2) && (lh3 || lh1) && (!lh3 || !lh1)
    }

    fn display(&self) -> (r: &str) {
        "Outroll"
    }
}

impl TrigramType for Alternation {
    open spec fn spec_is_type(&self, fingers: Seq<Finger>, positions: [Pos; 3]) -> bool {
        fingers_satisfy(fingers, positions, |a: int, b: int, c: int| alternation_fingers(a, b, c))
    }

    open spec fn spec_display(&self) -> Seq<char> {
        "Alternation"@
    }

    fn is_type(&self, keyboard: &Keyboard, positions: [Pos; 3]) -> (r: bool) {
        let (f1, f2, f3) = match finger_numbers(keyboard, positions) {
            Some(t) => t,
            None => return false,
        };
        let (lh1, lh2, lh3) = (f1 < 5, f2 < 5, f3 < 5);
        lh1 && !lh2 && lh3 || !lh1 && lh2 && !lh3
    }

    fn display(&self) -> (r: &str) {
        "Alternation"
    }
}

impl TrigramType for OnehandIn {
    open spec fn spec_is_type(&self, fingers: Seq<Finger>, positions: [Pos; 3]) -> bool {
        fingers_satisfy(fingers, positions, |a: int, b: int, c: int| onehand_in_fingers(a, b, c))
    }

    open spec fn spec_display(&self) -> Seq<char> {
        "Onehand In"@
    }

    fn is_type(&self, keyboard: &Keyboard, positions: [Pos; 3]) -> (r: bool) {
        let (f1, f2, f3) = match finger_numbers(keyboard, positions) {
            Some(t) => t,
            None => return false,
        };
        let (lh1, lh2, lh3) = (f1 < 5, f2 < 5, f3 < 5);
        (lh1 && lh2 && lh3) && (f1 < f2 && f2 < f3) || !(lh1 || lh2 || lh3) && (f1 > f2 && f2 > f3)
    }

    fn display(&self) -> (r: &str) {
        "Onehand In"
    }
}

impl TrigramType for OnehandOut {
    open spec fn spec_is_type(&self, fingers: Seq<Finger>, positions: [Pos; 3]) -> bool {
        fingers_satisfy(fingers, positions, |a: int, b: int, c: int| onehand_out_fingers(a, b, c))
    }

    open spec fn spec_display(&self) -> Seq<char> {
        "Onehand Out"@
    }

    fn is_type(&self, keyboard: &Keyboard, positions: [Pos; 3]) -> (r: bool) {
        let (f1, f2, f3) = match finger_numbers(keyboard, positions) {
            Some(t) => t,
            None => return false,
        };
        let (lh1, lh2, lh3) = (f1 < 5, f2 < 5, f3 < 5);
        (lh1 && lh2 && lh3) && (f1 > f2 && f2 > f3) || !(lh1 || lh2 || lh3) && (f1 < f2 && f2 < f3)
    }

    fn display(&self) -> (r: &str) {
        "Onehand Out"
    }
}

impl TrigramType for Redirect {
    open spec fn spec_is_type(&self, fingers: Seq<Finger>, positions: [Pos; 3]) -> bool {
        fingers_satisfy(fingers, positions, |a: int, b: int, c: int| redirect_fingers(a, b, c))
    }

    open spec fn spec_display(&self) -> Seq<char> {
        "Redirect"@
    }

    fn is_type(&self, keyboard: &Keyboard, positions: [Pos; 3]) -> (r: bool) {
        let (f1, f2, f3) = match finger_numbers(keyboard, positions) {
            Some(t) => t,
            None => return false,
        };
        let (lh1, lh2, lh3) = (f1 < 5, f2 < 5, f3 < 5);
        (lh1 == lh2 && lh2 == lh3) && ((f1 < f2 && f2 > f3) || (f1 > f2 && f2 < f3))
    }

    fn display(&self) -> (r: &str) {
        "Redirect"
    }
}

impl TrigramType for Unspecified {
    open spec fn spec_is_type(&self, fingers: Seq<Finger>, positions: [Pos; 3]) -> bool {
        false
    }

    open spec fn spec_display(&self) -> Seq<char> {
        "Unspecified"@
    }

    fn is_type(&self, keyboard: &Keyboard, positions: [Pos; 3]) -> (r: bool) {
        false
    }

    fn display(&self) -> (r: &str) {
        "Unspecified"
    }
}

/// The test of the default type at index `i` of the default list: `Sfb`, `Sfr`, `Sft`,
/// `Inroll`, `Outroll`, `Alternation`, `OnehandIn`, `OnehandOut`, `Redirect`.
pub open spec fn default_type_test(i: int, fingers: Seq<Finger>, positions: [Pos; 3]) -> bool {
    if i == 0 {
        Sfb.spec_is_type(fingers, positions)
    } else if i == 1 {
        Sfr.spec_is_type(fingers, positions)
    } else if i == 2 {
        Sft.spec_is_type(fingers, positions)
    } else if i == 3 {
        Inroll.spec_is_type(fingers, positions)
    } else if i == 4 {
        Outroll.spec_is_type(fingers, positions)
    } else if i == 5 {
        Alternation.spec_is_type(fingers, positions)
    } else if i == 6 {
        OnehandIn.spec_is_type(fingers, positions)
    } else if i == 7 {
        OnehandOut.spec_is_type(fingers, positions)
    } else {
        Redirect.spec_is_type(fingers, positions)
    }
}

/// The names of the default list, in order.
pub open spec fn default_type_names() -> Seq<Seq<char>> {
    seq![
        "Sfb"@,
        "Sfr"@,
        "Sft"@,
        "Inroll"@,
        "Outroll"@,
        "Alternation"@,
        "Onehand In"@,
        "Onehand Out"@,
        "Redirect"@,
    ]
}

/// How many fingers lie between a finger and the thumb of its hand: zero for a thumb, four for
/// a pinky.
pub open spec fn thumb_distance(f: Finger) -> int {
    if finger_number(f) < 5 {
        4 - finger_number(f)
    } else {
        finger_number(f) - 5
    }
}

/// Whether a finger is on the left hand.
pub open spec fn on_left_hand(f: Finger) -> bool {
    finger_number(f) < 5
}

/// One-handed rolls, on either hand: a trigram on the keyboard is a one-handed inward roll
/// exactly when its three fingers are on one hand and each is nearer that hand's thumb than
/// the one before, and a one-handed outward roll exactly when each is farther from it.
pub proof fn lemma_onehand_rolls(fingers: Seq<Finger>, positions: [Pos; 3])
    requires
        on_board(fingers, positions),
    ensures
        ({
            let f1 = fingers[positions[0] as int];
            let f2 = fingers[positions[1] as int];
            let f3 = fingers[positions[2] as int];
            let one_hand = on_left_hand(f1) == on_left_hand(f2) && on_left_hand(f2)
                == on_left_hand(f3);
            &&& OnehandIn.spec_is_type(fingers, positions) <==> one_hand && thumb_distance(f1)
                > thumb_distance(f2) && thumb_distance(f2) > thumb_distance(f3)
            &&& OnehandOut.spec_is_type(fingers, positions) <==> one_hand && thumb_distance(f1)
                < thumb_distance(f2) && thumb_distance(f2) < thumb_distance(f3)
        }),
{
    crate::finger::lemma_finger_number(fingers[positions[0] as int]);
    crate::finger::lemma_finger_number(fingers[positions[1] as int]);
    crate::finger::lemma_finger_number(fingers[positions[2] as int]);
}

} // verus!
