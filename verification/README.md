# g2p2-server

HTTP REST service around the g2p2 grapheme-to-phoneme engine: phonemization,
language resolution, calibrated phonetic similarity and similar-name search over
name corpora.

The crate is split in two:

- `src/` — the library `g2p2_server`, verified with Verus. It holds the logic
  that decides things: text trimming, splitting and word joining; corpus file
  parsing, per-language record selection (with the merged, name-sorted and
  de-duplicated fallback) and the onset-bucketed name index; the articulatory
  feature table and the per-segment facts (vowel, nasal, length, tone, feature
  distance) that the substitution cost weighs; syllable-nucleus counting with
  language diphthongs; the word-level facts of a comparison; language
  resolution; the similar-name candidate filters. Every public function carries
  an `ensures` contract over mathematical models (none needs a `requires`), and the properties
  that relate several functions are stated as public proof functions.
- `app/` — the binary: `axum` routing and handlers, file and directory scanning,
  JSON (de)serialisation, language detection, calls into the g2p2 engine, and
  the floating-point parts (calibration profiles, the weighted alignment
  distance and the ranking by similarity).

`tests/` exercises the library on concrete values.
