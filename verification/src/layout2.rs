//! A layout over several layers of keys, each character found again by its position.
use vstd::prelude::*;

use fxhash::FxHashMap;

verus! {

/// A position on a keyboard with several layers.
pub struct KeyboardPos {}

/// The characters of `L` layers, and for each character the layer and the index in it where
/// it stands.
pub struct Layout<const L: usize> {
    layers: [Vec<char>; L],
    char_to_pos: FxHashMap<char, (usize, usize)>,
}

impl<const L: usize> Layout<L> {
    /// Each character that the table knows stands where the table says.
    pub closed spec fn wf(&self) -> bool {
        forall|c: char|
            #[trigger] self.char_to_pos@.contains_key(c) ==> {
                let (layer, i) = self.char_to_pos@[c];
                &&& layer < L
                &&& i < self.layers[layer as int]@.len()
                &&& self.layers[layer as int]@[i as int] == c
            }
    }
}

} // verus!
