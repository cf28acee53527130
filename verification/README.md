# yazelix_screen

Terminal screen primitives for the Yazelix welcome surfaces and the `anima`
command, written in Verus.

- `src/` is the verified library: the visible-width model of terminal text,
  cell frames and half-block pixel fields, the escape sequences a frame is
  drawn with, the welcome and identity cards, the Matrix rain, style names and
  argument parsing, browsing between animations, the gallery inventory check
  against the help text, the seeded generator, and the
  integer parts of the other animations (counts, palettes, sprites, placement).
  Every public function states its result in `ensures`; the proof functions
  named `lemma_*` with a doc comment state the library's laws (browsing wraps
  around, `random` only picks animations, cards keep their width, wrapping keeps
  every word, frames are drawn without line breaks, shuffling keeps every item,
  a name resolves as its trimmed lower-case form does, the random pool is
  exactly the styles of its rotation slots). Seeded indices scale the sample in
  double precision, modelled exactly with integers.
- `app/` is the `anima` program: terminal I/O, the clock, signals, and the
  floating-point animations, which call the library for everything else.
- `tests/` exercises the library on concrete values.
