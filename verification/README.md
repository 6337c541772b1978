# pixel_lens

The verified core of a screen color picker, written in Verus.

- `src/color.rs` — reading and writing `#RRGGBB` codes, and finding the nearest
  dictionary color by distance keys.
- `src/pixels.rs` — turning X11 screen images into RGBA pixels, clipping capture
  rectangles to the screen, pixmap format lookup, red/blue channel swapping.
- `src/capture.rs` — encoding a captured square as base64 PNG with its center color,
  and scaling physical-pixel captures to logical size.
- `src/codec.rs` — the calls into the `image` and `base64` crates, with their contracts.
- `src/cursor.rs`, `src/window.rs`, `src/settings.rs` — pointer position, window and
  shortcut decisions, default settings.
- `app/` — plain Rust around the library: X11 access, the floating-point CIE76 color
  difference, JSON files, logging and the commands the front end calls.
