# charabia

A multilingual tokenizer whose logic is verified with Verus.

A text is cut into runs of one script; each run is cut into pieces by the separators (an
Aho-Corasick automaton) and by the segmenter of its script and language (camel case for Latin,
article and punctuation rules for Arabic, zero-width non-joiners for Persian, a dictionary for
Chinese, a dictionary automaton for custom words); each piece becomes a token that the
normalizers rewrite (compatibility decomposition, control characters, case and character
conversion, nonspacing marks, script-specific foldings) and
classify as a word, a stop word or a separator.

Layout:

- `src/` — the library. Each public function states what it returns in its `ensures`; the
  properties that span functions (the pieces of a text concatenate back to it, token offsets
  follow each other, normalization keeps offsets, runs hold one script) are proof functions.
  Calls into outside crates (`whatlang`, `aho-corasick`, `jieba-rs`, `fst`, `csv`,
  `unicode-segmentation`, `unicode-normalization`, `finl_unicode`, `wana_kana`, `pinyin`) sit
  behind small trusted wrappers whose doc comments say what they claim.
- `tests/` — tests run against the compiled library with the real outside crates.
- `app/` — a command line front end that tokenizes or segments a text and prints the lemmas.
