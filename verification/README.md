# g-mesh

The logic of a per-project code-index daemon, written and verified in Verus.

- `src/` is the library. It decides: which plugin claims a file, which folder is a project, what a
  daemon does next while it starts, builds its index, supervises its plugins and leaves. Every
  function states in its contract what it returns; the public proof functions state what holds
  across several of them.
- `tests/` runs the library.
- `app/` is ordinary Rust around it: files, processes, threads, clocks. It does what the library
  asks for and reports back.

What the library does not do itself it asks for. A procedure that alternates decisions and outside
work is a state machine: `hear` takes what happened and gives what is to be done next. Files on disk
are values handed in (`Files`, `StateEntry`, `BuildEntry`), and so are readings of a clock and the
way a platform spells paths (`PathStyle`).

What is believed and not proved are the contracts of the outside calls: SHA-256 (`digest.rs`), glob
patterns and lower-casing (`manifest.rs`), and appending a character to a `String` (`text.rs`).
