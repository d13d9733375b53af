//! A keyboard as the fingering of its positions.
use vstd::prelude::*;

use crate::finger::Finger;

verus! {

/// A position on the keyboard: an index into its fingering.
pub type Pos = usize;

/// The finger at position `pos` of the fingering `fingers`, if there is such a position.
pub open spec fn finger_at(fingers: Seq<Finger>, pos: int) -> Option<Finger> {
    if 0 <= pos < fingers.len() {
        Some(fingers[pos])
    } else {
        None
    }
}

/// A keyboard: for each position, the finger that presses it.
#[derive(Debug, Clone)]
pub struct Keyboard {
    fingers: Vec<Finger>,
}

impl View for Keyboard {
    type V = Seq<Finger>;

    closed spec fn view(&self) -> Seq<Finger> {
        self.fingers@
    }
}

impl Keyboard {
    /// A keyboard with the given fingering.
    pub fn new(fingers: &[Finger]) -> (kb: Self)
        ensures
            kb@ == fingers@,
    {
        let mut v: Vec<Finger> = Vec::new();
        let mut i: usize = 0;
        while i < fingers.len()
            invariant
                i <= fingers@.len(),
                v@ == fingers@.take(i as int),
            decreases fingers@.len() - i,
        {
            v.push(fingers[i]);
            i = i + 1;
            assert(v@ == fingers@.take(i as int));
        }
        assert(fingers@.take(fingers@.len() as int) == fingers@);
        Keyboard { fingers: v }
    }

    /// The fingering of the whole keyboard.
    pub fn fingering(&self) -> (r: &[Finger])
        ensures
            r@ == self@,
    {
        self.fingers.as_slice()
    }

    /// The finger at position `pos`, if the keyboard has it.
    pub fn get_finger(&self, pos: Pos) -> (r: Option<Finger>)
        ensures
            r == finger_at(self@, pos as int),
    {
        if pos < self.fingers.len() {
            Some(self.fingers[pos])
        } else {
            None
        }
    }

    /// The finger at each of three positions, each if the keyboard has it.
    pub fn get_fingers(&self, positions: [Pos; 3]) -> (r: [Option<Finger>; 3])
        ensures
            r@[0] == finger_at(self@, positions[0] as int),
            r@[1] == finger_at(self@, positions[1] as int),
            r@[2] == finger_at(self@, positions[2] as int),
    {
        [self.get_finger(positions[0]), self.get_finger(positions[1]), self.get_finger(positions[2])]
    }

    /// The finger at each of three positions that all lie on the keyboard.
    pub(crate) fn get_fs(&self, positions: [Pos; 3]) -> (r: [Finger; 3])
        requires
            positions[0] < self@.len(),
            positions[1] < self@.len(),
            positions[2] < self@.len(),
        ensures
            r@[0] == self@[positions[0] as int],
            r@[1] == self@[positions[1] as int],
            r@[2] == self@[positions[2] as int],
    {
        [self.fingers[positions[0]], self.fingers[positions[1]], self.fingers[positions[2]]]
    }

    /// The number of positions.
    pub fn len(&self) -> (n: usize)
        ensures
            n == self@.len(),
    {
        self.fingers.len()
    }

    /// Whether the keyboard has no position.
    pub fn is_empty(&self) -> (b: bool)
        ensures
            b == (self@.len() == 0),
    {
        self.len() == 0
    }
}

} // verus!
