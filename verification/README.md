# bamboo_core

A Vietnamese input method engine (Telex, VNI, VIQR and related layouts),
written in Verus: every function of the library carries a contract. Verus
proves them all, except the five small wrappers in `src/text.rs` around
standard-library calls (Unicode case mapping and `Alphabetic`, lowercasing a
string, pushing a character), whose contracts are trusted.

- `src/engine.rs` — the engine: keystrokes in, composed text out; the DFA
  that caches the compositions keystrokes lead to; the laws (the cache never
  changes a result while in sync, the preedit delta, English pass-through,
  backspace after a letter).
- `src/bamboo_util.rs` — what one keystroke does to a syllable: tone and mark
  targets, undo, spelling validity, words.
- `src/flattener.rs` — rendering a composition as text.
- `src/input_method.rs`, `src/input_method_def.rs` — rules and the built-in
  input methods.
- `src/spelling.rs`, `src/utils.rs`, `src/text.rs` — Vietnamese spelling,
  letters, tones and marks.
- `src/dfa.rs`, `src/transformation.rs`, `src/config.rs`, `src/mode.rs`,
  `src/output_options.rs` — the supporting types.
- `app/` — a C ABI and a wrapper for WebAssembly hosts.

## Notes

- Compositions, DFA states and rule lists are held in `Vec`s: the crate makes
  no claim about heap allocation or about the time a keystroke, a backspace
  or a spelling check takes.
- DFA states are looked up by a linear scan over the states, and the rules of
  a key by filtering the input method's rules: the contracts are stated over
  these sequences, where a hash map keyed by compositions would leave the
  lookup unproved.
- The DFA only caches what the rules give: a transition is followed or
  recorded only while the engine's state holds its composition, a new
  configuration starts a new DFA, and `reset` gives a new engine.
- Conversion of text to legacy Vietnamese charsets is not included: the
  charset tables it needs are not available.
