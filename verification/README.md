# font_diff

Compares two font files glyph by glyph and renders an HTML report of what
changed: glyphs that kept their character but changed shape, name or both,
glyphs renamed without a change of shape, and glyphs added or removed.

- `src/` is the verified library (Verus). `reader` reads the font tables
  through `read-fonts` and `skrifa`, `hash` fingerprints glyph outlines,
  `diff` classifies the differences, `html` renders the report, `files`
  holds the command line's decisions about its input files, and `text`
  numerals, string order and small string operations.
- `app/` is the command line program: argument parsing, file I/O, timing.
- `tests/` exercises the library, including fonts built byte by byte.
