# soundcheck

SoundCheck levels a DJ library to one loudness and fits every track to a beat grid. This
crate is its core logic in Verus: the functions in `src/` carry contracts that Verus proves,
except the few wrappers around calls into std and `unicode-normalization`, whose contracts
are trusted and say so in their doc comments. The laws the tool promises are proof
functions beside the code: each file listed once; file ids continuing 1, 2, 3, ... over any
run of adds and clears, never reused; every file of a batch ending, and the counts adding up
when each file ends once; a cancelled analysis leaving no cache entry and a cache hit served
without decoding; results leaving in the order given; hops that do not depend on how a stream
is cut; a natural order of names that is reflexive and antisymmetric, and transitive over
names whose characters' lower-case mappings keep ASCII digits apart from other characters
(`all_lower_apart_of` tells); a grid that is green only when every term is; an octave that
stays in the DJ app's range.

- `src/` — the verified library: meters, the settings digest, codecs, natural order and the
  walk of dropped folders, session ids, batch bookkeeping, the stages of one file's analysis, in-order results, hops and chunks of
  streamed audio, the confidence, verdict and octave rules of a grid, plan rules, genre and
  region hints, the labels file of the evaluation.
- `tests/` — tests that run the library on concrete values.
- `app/` — the `sc-cli` program around it: file and model I/O, threads, and the
  floating-point signal processing (loudness, resampling, onsets, meter scores, the grid fit).
