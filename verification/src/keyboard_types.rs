//! Named keyboards and their standard fingerings.
use vstd::prelude::*;

use crate::finger::Finger;
use crate::finger::Finger::{LI, LM, LP, LR, RI, RM, RP, RR};
use crate::keyboard::Keyboard;

verus! {

/// The traditional fingering of the thirty main keys, three rows of ten: each row runs
/// `LP, LR, LM, LI, LI, RI, RI, RM, RR, RP`.
pub open spec fn traditional_fingering() -> Seq<Finger> {
    seq![
        LP, LR, LM, LI, LI, RI, RI, RM, RR, RP,
        LP, LR, LM, LI, LI, RI, RI, RM, RR, RP,
        LP, LR, LM, LI, LI, RI, RI, RM, RR, RP,
    ]
}

/// The angle-mod fingering of the thirty main keys: as the traditional one, but the left half
/// of the bottom row shifts one finger towards the thumb.
pub open spec fn angle_fingering() -> Seq<Finger> {
    seq![
        LP, LR, LM, LI, LI, RI, RI, RM, RR, RP,
        LP, LR, LM, LI, LI, RI, RI, RM, RR, RP,
        LR, LM, LI, LI, LI, RI, RI, RM, RR, RP,
    ]
}

/// The traditional fingering.
fn traditional() -> (r: Vec<Finger>)
    ensures
        r@ == traditional_fingering(),
{
    let r = vec![
        LP, LR, LM, LI, LI, RI, RI, RM, RR, RP,
        LP, LR, LM, LI, LI, RI, RI, RM, RR, RP,
        LP, LR, LM, LI, LI, RI, RI, RM, RR, RP,
    ];
    assert(r@ =~= traditional_fingering());
    r
}

/// The angle-mod fingering.
fn angle() -> (r: Vec<Finger>)
    ensures
        r@ == angle_fingering(),
{
    let r = vec![
        LP, LR, LM, LI, LI, RI, RI, RM, RR, RP,
        LP, LR, LM, LI, LI, RI, RI, RM, RR, RP,
        LR, LM, LI, LI, LI, RI, RI, RM, RR, RP,
    ];
    assert(r@ =~= angle_fingering());
    r
}

/// A kind of keyboard, by the fingering of its thirty main keys.
pub trait KeyboardType {
    /// The fingering of this kind of keyboard.
    spec fn spec_fingerings() -> Seq<Finger>;

    /// The fingering of this kind of keyboard.
    fn fingerings() -> (r: Vec<Finger>)
        ensures
            r@ == Self::spec_fingerings(),
    ;

    /// A keyboard of this kind.
    fn keyboard() -> (kb: Keyboard)
        ensures
            kb@ == Self::spec_fingerings(),
    {
        let f = Self::fingerings();
        Keyboard::new(f.as_slice())
    }
}

/// A row-staggered ANSI keyboard.
#[derive(Debug, Copy, Clone)]
pub struct Ansi;

/// A row-staggered ISO keyboard.
#[derive(Debug, Copy, Clone)]
pub struct Iso;

/// An ANSI keyboard typed with the angle mod.
#[derive(Debug, Copy, Clone)]
pub struct AnsiAngle;

/// An ISO keyboard typed with the angle mod.
#[derive(Debug, Copy, Clone)]
pub struct IsoAngle;

/// An ortholinear keyboard.
#[derive(Debug, Copy, Clone)]
pub struct Ortho;

impl KeyboardType for Ansi {
    open spec fn spec_fingerings() -> Seq<Finger> {
        traditional_fingering()
    }

    fn fingerings() -> (r: Vec<Finger>) {
        traditional()
    }
}

impl KeyboardType for Iso {
    open spec fn spec_fingerings() -> Seq<Finger> {
        traditional_fingering()
    }

    fn fingerings() -> (r: Vec<Finger>) {
        traditional()
    }
}

impl KeyboardType for AnsiAngle {
    open spec fn spec_fingerings() -> Seq<Finger> {
        angle_fingering()
    }

    fn fingerings() -> (r: Vec<Finger>) {
        angle()
    }
}

impl KeyboardType for IsoAngle {
    open spec fn spec_fingerings() -> Seq<Finger> {
        traditional_fingering()
    }

    fn fingerings() -> (r: Vec<Finger>) {
        Ansi::fingerings()
    }
}

impl KeyboardType for Ortho {
    open spec fn spec_fingerings() -> Seq<Finger> {
        traditional_fingering()
    }

    fn fingerings() -> (r: Vec<Finger>) {
        Ansi::fingerings()
    }
}

} // verus!
