# gl_editor

A small OpenGL text editor. `src/` is the verified library (Verus):

- `editor` — the line buffer and caret: typing, deleting byte ranges, pasting
  lines, key handling, and checks that tell a caller when a call is allowed.
  Lines are modelled as UTF-8 texts; offsets are byte offsets, as in `str`.
- `laws` — properties relating several editor operations (deleting undoes
  typing, Backspace undoes a one-byte keystroke, navigation keeps the text).
- `text` — UTF-8 byte-level helpers and lemmas.
- `color` — RGBA colours and the `0xAARRGGBB` encoding.
- `glyph` — expansion of coverage bitmaps into RGBA glyph textures.
- `platform`, `shader` — render-driver lookup, shader file names and the
  `ShaderLoader` trait.

`app/` is the SDL2/OpenGL program around it: window, events, GPU uploads,
fontdue rasterisation and all floating-point geometry.
