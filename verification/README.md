# embolden

A verified library for recording glyph outlines and choosing what a synthetic
bold overlay widens, plus loading fonts for PDF output.

- `src/outline.rs`: `GlyphOutline<P>`, generic over the point type. It records
  every builder command (move, line, quadratic, cubic, close), tracks the
  contours, and hands the closed ones to the overlay. Each operation's contract
  is an exact transition of the abstract state `OutlineView`.
- `src/laws.rs`: properties across operations (the outline emits exactly what
  was drawn, the overlay is stable, only closed subpaths are widened, ...).
- `src/font.rs`: building a krilla font from bytes.
- `app/`: the floating-point side, which is `ttf_parser` outlining, `kurbo`
  stroking and `krilla` drawing.
