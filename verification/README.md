# mete

Structural metrics for source code: cyclomatic and cognitive complexity,
nesting depth, line counts, imports and exports, structural fingerprints and
duplicate detection, for Rust, TypeScript, JavaScript, Python, Go, Java, C#,
C++ and Elixir, parsed with tree-sitter.

## Layout

- `src/` is the library, written in Verus. Its functions carry contracts
  that Verus proves; the calls into std and tree-sitter in `syntax`, `text`,
  `collect` and the fingerprint hasher are trusted, with contracts that state
  what those libraries document rather than what Verus proved:
  - `walk` — the single-pass syntax walk and its counters (`data::WalkState`);
  - `data` — flat per-file and per-function result arrays and the name interner;
  - `dup` — MinHash signatures, LSH bands, exact and similar duplicate groups;
  - `collect` — gathering results into the flat arrays, the duplicate index,
    skipped directories;
  - `report` — selection, ordering and totals for the command reports;
  - `domain` — the event-based model: positions and spans, structural events
    and their balance, metric value objects, the computation rules, and the
    `SourceCode` aggregate;
  - `infrastructure` — turning a tree-sitter parse into structural events;
  - `application` — the analysis use case: its request and response data,
    and the steps before and after the floating-point maintainability index;
  - `lang`, `metrics`, `text`, `syntax` — language tables, metric thresholds,
    text helpers and the calls into std and tree-sitter.
- `app/` is the `mete` command line around the library: argument handling,
  file access, parallel analysis, floating-point estimates (maintainability
  index, entropy, averages) and output.
- `tests/` exercises the library on concrete inputs.

Ratios that the metrics compare with a threshold are compared exactly in
integers; estimates that need logarithms are computed in `app/`.
