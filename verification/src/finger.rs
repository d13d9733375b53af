//! The ten fingers of a typist, in the order from the left pinky to the right pinky.
use vstd::prelude::*;

verus! {

/// A finger. Its number runs from `LP` = 0 to `RP` = 9; the first five are on the left hand
/// (the left thumb included), the last five on the right.
#[derive(Debug, Clone, Copy, PartialEq, Eq, Hash, Structural)]
pub enum Finger {
    /// Left pinky
    LP,
    /// Left ring
    LR,
    /// Left middle
    LM,
    /// Left index
    LI,
    /// Left thumb
    LT,
    /// Right thumb
    RT,
    /// Right index
    RI,
    /// Right middle
    RM,
    /// Right ring
    RR,
    /// Right pinky
    RP,
}

/// The number of a finger: `LP` = 0 up to `RP` = 9.
pub open spec fn finger_number(f: Finger) -> int {
    match f {
        Finger::LP => 0,
        Finger::LR => 1,
        Finger::LM => 2,
        Finger::LI => 3,
        Finger::LT => 4,
        Finger::RT => 5,
        Finger::RI => 6,
        Finger::RM => 7,
        Finger::RR => 8,
        Finger::RP => 9,
    }
}

/// The finger with a given number, for the numbers 0 to 9.
pub open spec fn finger_with_number(n: int) -> Finger {
    if n <= 0 {
        Finger::LP
    } else if n == 1 {
        Finger::LR
    } else if n == 2 {
        Finger::LM
    } else if n == 3 {
        Finger::LI
    } else if n == 4 {
        Finger::LT
    } else if n == 5 {
        Finger::RT
    } else if n == 6 {
        Finger::RI
    } else if n == 7 {
        Finger::RM
    } else if n == 8 {
        Finger::RR
    } else {
        Finger::RP
    }
}

/// Every finger's number lies in `0..10`, and the number gives the finger back.
pub proof fn lemma_finger_number(f: Finger)
    ensures
        0 <= finger_number(f) < 10,
        finger_with_number(finger_number(f)) == f,
{
}

impl Finger {
    /// The finger's number, `LP` = 0 up to `RP` = 9.
    pub fn to_u8(self) -> (n: u8)
        ensures
            n == finger_number(self),
    {
        match self {
            Finger::LP => 0,
            Finger::LR => 1,
            Finger::LM => 2,
            Finger::LI => 3,
            Finger::LT => 4,
            Finger::RT => 5,
            Finger::RI => 6,
            Finger::RM => 7,
            Finger::RR => 8,
            Finger::RP => 9,
        }
    }

    /// The finger with number `n`, if `n` is below 10.
    pub fn from_u8(n: u8) -> (f: Option<Finger>)
        ensures
            n < 10 ==> f == Some(finger_with_number(n as int)),
            n >= 10 ==> f is None,
    {
        match n {
            0 => Some(Finger::LP),
            1 => Some(Finger::LR),
            2 => Some(Finger::LM),
            3 => Some(Finger::LI),
            4 => Some(Finger::LT),
            5 => Some(Finger::RT),
            6 => Some(Finger::RI),
            7 => Some(Finger::RM),
            8 => Some(Finger::RR),
            9 => Some(Finger::RP),
            _ => None,
        }
    }
}

} // verus!
