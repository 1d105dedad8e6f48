# dream_tts

English text to speech, in Verus.

- `src/` is the library. Every function in it states what it returns, and Verus proves it. It
  holds the text frontend (tokens, tags, lexicon, numbers, phonemes), the rules of a speech
  server (requests, batches, streams, narration jobs) and the plans of tensor operations
  (chunks, phases, frames, launches, graphs).
- `tests/` runs the library on concrete values.
- `app/` is the program around it: `serve` answers HTTP, `phonemize` prints phonemes and
  `validate` compares them with a reference. Files, sockets and floating point live here.

What the library takes on trust is small: the case and class tables of the standard library and
of `unicode-normalization` in `src/unicode.rs`, the matches of `fancy-regex` in
`src/pattern.rs`, and `String::push` in `src/text.rs`.

Times in the library are whole microseconds, and stress is counted in half steps, so that
contracts can speak of them exactly.
