//! Keyboard layout analysis and generation: trigram classification, corpora of trigram
//! frequencies, and layouts.
pub mod cli;
pub mod corpus;
pub mod corpus_refiner;
pub mod data;
pub mod finger;
pub mod generate;
pub mod keyboard;
pub mod keyboard_types;
pub mod layout;
pub mod layout2;
pub mod optimizer;
pub mod trigram_types;

use vstd::prelude::*;

verus! {

/// Stands for a character that the corpus does not keep.
pub const REPLACEMENT_CHAR: char = '\u{FFFD}';

/// Stands for the shift key in a refined corpus.
pub const SHIFT_CHAR: char = '⇑';

/// Stands for a repeat key in a refined corpus.
pub const REPEAT_KEY: char = '@';

} // verus!
