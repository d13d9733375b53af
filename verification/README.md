# gen_core

A keyboard layout analyzer and generator: trigram counts of texts, their refinement, trigram
types on a keyboard's fingering, layouts, and what layout optimization settles before it
scores anything. The library in `src/` is written in Verus and verified; `app/` holds what
stays ordinary Rust around it.

## Layout

- `src/data.rs`: trigram counts of a text in an insertion-ordered map, their sum, sorting and
  written form.
- `src/corpus_refiner.rs`: rule tables that refine a text character by character.
- `src/corpus.rs`: a dense cube of trigram counts over a corpus's characters.
- `src/generate.rs`: encoding characters as indices and back.
- `src/finger.rs`, `src/keyboard.rs`, `src/keyboard_types.rs`: fingers, fingerings and the
  named keyboards.
- `src/trigram_types.rs` and `src/trigram_types/default.rs`: trigram types and the nine
  default ones, which divide the trigrams of any keyboard among themselves.
- `src/layout.rs`, `src/layout2.rs`: layouts and swaps of keys.
- `src/optimizer.rs`: the order of trigrams and swaps, the trigrams a swap touches, the table
  of trigram types and the printed form of a layout.
- `app/`: JSON and file input and output, the error types with messages, `libdof` fingers,
  weights, and the optimizer's floating-point scoring.
