//! A layout: which key sits at each position, and the finger that presses it.
use vstd::prelude::*;

use crate::finger::Finger;
use crate::keyboard::{finger_at, Pos};
use nanorand::{Rng, WyRand};

verus! {

/// The random number generator of `nanorand` that shuffles layouts.
#[verifier::external_type_specification]
#[verifier::external_body]
pub struct ExWyRand(WyRand);

/// `WyRand::new`: a generator seeded from the machine's entropy; nothing is promised of it.
#[verifier::external_body]
fn new_rng() -> WyRand {
    WyRand::new()
}

/// `Rng::shuffle` of `nanorand`, on the keys: it only swaps elements, so the keys come back in
/// some order, the same ones as many times each. Which order depends on the generator.
#[verifier::external_body]
fn shuffle_keys(rng: &mut WyRand, keys: &mut Vec<usize>)
    ensures
        final(keys)@.to_multiset() == old(keys)@.to_multiset(),
        final(keys)@.len() == old(keys)@.len(),
{
    rng.shuffle(keys.as_mut_slice())
}

/// The key at position `i` of `keys`, if there is one.
pub open spec fn key_at(keys: Seq<usize>, i: int) -> Option<usize> {
    if 0 <= i < keys.len() {
        Some(keys[i])
    } else {
        None
    }
}

/// The keys with those at positions `p1` and `p2` traded.
pub open spec fn swapped(keys: Seq<usize>, p1: Pos, p2: Pos) -> Seq<usize> {
    keys.update(p1 as int, keys[p2 as int]).update(p2 as int, keys[p1 as int])
}

/// A swap undoes itself, a swap of two positions is the swap of the same two in the other
/// order, and a swap keeps the keys, as many times each, and their number.
pub proof fn lemma_swap(keys: Seq<usize>, p1: Pos, p2: Pos)
    requires
        p1 < keys.len(),
        p2 < keys.len(),
    ensures
        swapped(swapped(keys, p1, p2), p1, p2) == keys,
        swapped(keys, p1, p2) == swapped(keys, p2, p1),
        swapped(keys, p1, p2).to_multiset() == keys.to_multiset(),
        swapped(keys, p1, p2).len() == keys.len(),
{
    assert(swapped(swapped(keys, p1, p2), p1, p2) =~= keys);
    assert(swapped(keys, p1, p2) =~= swapped(keys, p2, p1));
    let a = keys[p1 as int];
    let b = keys[p2 as int];
    let once = keys.update(p1 as int, b);
    vstd::seq_lib::to_multiset_update(keys, p1 as int, b);
    vstd::seq_lib::to_multiset_update(once, p2 as int, a);
    assert(once[p2 as int] == b);
    keys.to_multiset_ensures();
    assert(keys.contains(a));
    let m = keys.to_multiset();
    let m1 = m.insert(b).remove(a);
    let m2 = m1.insert(a).remove(b);
    assert(m2 =~= m);
}

/// A layout: for each position the key (by its index in the corpus) and the finger.
#[derive(Debug, Clone, PartialEq, Eq)]
pub struct Layout {
    keys: Vec<usize>,
    fingers: Vec<Finger>,
}

impl Layout {
    /// Keys and fingers cover the same positions.
    pub closed spec fn wf(&self) -> bool {
        self.keys@.len() == self.fingers@.len()
    }

    /// The keys, position by position.
    pub closed spec fn spec_keys(&self) -> Seq<usize> {
        self.keys@
    }

    /// The fingers, position by position.
    pub closed spec fn spec_fingers(&self) -> Seq<Finger> {
        self.fingers@
    }

    /// A layout with the given keys and fingers, when there are as many of each.
    pub fn new(keys: &[usize], fingering: &[Finger]) -> (r: Option<Self>)
        ensures
            r is Some <==> keys@.len() == fingering@.len(),
            r matches Some(l) ==> l.spec_keys() == keys@ && l.spec_fingers() == fingering@ && l.wf(),
    {
        if keys.len() == fingering.len() {
            let mut k: Vec<usize> = Vec::new();
            let mut f: Vec<Finger> = Vec::new();
            let mut i: usize = 0;
            while i < keys.len()
                invariant
                    keys@.len() == fingering@.len(),
                    i <= keys@.len(),
                    k@ == keys@.take(i as int),
                    f@ == fingering@.take(i as int),
                decreases keys@.len() - i,
            {
                k.push(keys[i]);
                f.push(fingering[i]);
                i = i + 1;
                assert(k@ == keys@.take(i as int));
                assert(f@ == fingering@.take(i as int));
            }
            assert(keys@.take(keys@.len() as int) == keys@);
            assert(fingering@.take(fingering@.len() as int) == fingering@);
            Some(Self { keys: k, fingers: f })
        } else {
            None
        }
    }

    /// A layout that takes over the given keys and fingers, when there are as many of each.
    pub fn from_vecs(keys: Vec<usize>, fingering: Vec<Finger>) -> (r: Option<Self>)
        ensures
            r is Some <==> keys@.len() == fingering@.len(),
            r matches Some(l) ==> l.spec_keys() == keys@ && l.spec_fingers() == fingering@ && l.wf(),
    {
        if keys.len() == fingering.len() {
            Some(Self { keys, fingers: fingering })
        } else {
            None
        }
    }

    /// A layout with the given keys in a random order and the given fingers, when there are as
    /// many of each.
    pub fn random(keys: Vec<usize>, fingering: Vec<Finger>) -> (r: Option<Self>)
        ensures
            r is Some <==> keys@.len() == fingering@.len(),
            r matches Some(l) ==> {
                &&& l.spec_keys().to_multiset() == keys@.to_multiset()
                &&& l.spec_keys().len() == keys@.len()
                &&& l.spec_fingers() == fingering@
                &&& l.wf()
            },
    {
        let mut keys = keys;
        let mut rng = new_rng();
        shuffle_keys(&mut rng, &mut keys);
        Self::from_vecs(keys, fingering)
    }

    /// The fingers, position by position.
    pub fn fingers(&self) -> (r: &[Finger])
        ensures
            r@ == self.spec_fingers(),
    {
        self.fingers.as_slice()
    }

    /// The keys, position by position.
    pub fn keys(&self) -> (r: &[usize])
        ensures
            r@ == self.spec_keys(),
    {
        self.keys.as_slice()
    }

    /// The number of positions.
    pub fn len(&self) -> (n: usize)
        ensures
            n == self.spec_keys().len(),
            self.wf() ==> n == self.spec_fingers().len(),
    {
        self.keys.len()
    }

    /// Whether the layout has no position.
    pub fn is_empty(&self) -> (b: bool)
        ensures
            b == (self.spec_keys().len() == 0),
    {
        self.len() == 0
    }

    /// The finger at position `i`, if there is one.
    pub fn finger(&self, i: Pos) -> (r: Option<Finger>)
        ensures
            r == finger_at(self.spec_fingers(), i as int),
    {
        if i < self.fingers.len() {
            Some(self.fingers[i])
        } else {
            None
        }
    }

    /// The key at position `i`, if there is one.
    pub fn key(&self, i: Pos) -> (r: Option<usize>)
        ensures
            r == key_at(self.spec_keys(), i as int),
    {
        if i < self.keys.len() {
            Some(self.keys[i])
        } else {
            None
        }
    }

    /// The fingers at three positions, if all three are on the layout.
    pub fn finger_trigram(&self, positions: [Pos; 3]) -> (r: Option<[Finger; 3]>)
        ensures
            r is Some <==> (positions[0] < self.spec_fingers().len() && positions[1]
                < self.spec_fingers().len() && positions[2] < self.spec_fingers().len()),
            r matches Some(f) ==> {
                &&& f[0] == self.spec_fingers()[positions[0] as int]
                &&& f[1] == self.spec_fingers()[positions[1] as int]
                &&& f[2] == self.spec_fingers()[positions[2] as int]
            },
    {
        match (self.finger(positions[0]), self.finger(positions[1]), self.finger(positions[2])) {
            (Some(f1), Some(f2), Some(f3)) => Some([f1, f2, f3]),
            _ => None,
        }
    }

    /// The keys at three positions, if all three are on the layout.
    pub fn key_trigram(&self, positions: [Pos; 3]) -> (r: Option<[usize; 3]>)
        ensures
            r is Some <==> (positions[0] < self.spec_keys().len() && positions[1]
                < self.spec_keys().len() && positions[2] < self.spec_keys().len()),
            r matches Some(k) ==> {
                &&& k[0] == self.spec_keys()[positions[0] as int]
                &&& k[1] == self.spec_keys()[positions[1] as int]
                &&& k[2] == self.spec_keys()[positions[2] as int]
            },
    {
        match (self.key(positions[0]), self.key(positions[1]), self.key(positions[2])) {
            (Some(k1), Some(k2), Some(k3)) => Some([k1, k2, k3]),
            _ => None,
        }
    }

    /// The key at a position on the layout.
    pub fn k(&self, i: Pos) -> (r: usize)
        requires
            i < self.spec_keys().len(),
        ensures
            r == self.spec_keys()[i as int],
    {
        self.keys[i]
    }

    /// The keys at three positions on the layout.
    pub fn kt(&self, positions: [Pos; 3]) -> (r: [usize; 3])
        requires
            positions[0] < self.spec_keys().len(),
            positions[1] < self.spec_keys().len(),
            positions[2] < self.spec_keys().len(),
        ensures
            r[0] == self.spec_keys()[positions[0] as int],
            r[1] == self.spec_keys()[positions[1] as int],
            r[2] == self.spec_keys()[positions[2] as int],
    {
        [self.k(positions[0]), self.k(positions[1]), self.k(positions[2])]
    }

    /// Exchanges the keys at two positions on the layout; the fingers stay.
    pub fn swap(&mut self, p1: Pos, p2: Pos)
        requires
            p1 < old(self).spec_keys().len(),
            p2 < old(self).spec_keys().len(),
        ensures
            final(self).spec_keys() == swapped(old(self).spec_keys(), p1, p2),
            final(self).spec_fingers() == old(self).spec_fingers(),
            final(self).wf() == old(self).wf(),
    {
        let help = self.keys[p1];
        let other = self.keys[p2];
        self.keys.set(p1, other);
        self.keys.set(p2, help);
    }
}

} // verus!
