# framesage_tray

The tray and window of FrameSage, with everything that can be decided without
a window, a pipe or a file proved in Verus.

- `src/` is the library. What the tray shows, how clicks change it, which
  requests it sends to the engine and how it folds the answers in are functions
  on plain values, each with a contract. `pub proof fn` items state what holds
  across functions: that the process tree shows each process once, that what is
  logged is read back, that the wizard never finishes half answered.
- `app/` draws with egui, talks to the engine over its pipe, reads and writes
  files and calls Win32. It asks the library before it does anything.
- `tests/` runs the library on concrete values.

Two contracts are taken on trust: that of `String::push` (`src/text.rs`) and
that of egui's premultiplication of colours (`src/theme.rs`), of which only the
alpha, the ends and the dark channels are stated. FrameSage's safe list, its
topology and its recorder belong to its other crates; their verdicts come in as
plain values.

Numbers that were floating point and end up as text, such as gibibytes with one
decimal, are stated as exact rounding on integers. Geometry, and colours that
are mixed from two others, stay in `app/`.
