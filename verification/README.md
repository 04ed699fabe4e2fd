# popone

The verified core of a 3D model viewer (VRM, PMX, PMD, FBX, OBJ, STL and more): the state
and decisions behind texture assignment, the log and text viewers, themes,
UV editing, bloom and render-target layout, model export filtering and the
single-instance hand-over. Everything under `src/` is checked by Verus
against its `requires` / `ensures` contracts; the laws the library keeps are
public proof functions next to the code they speak of.

Layout:

- `src/` — the verified library, one module per concern:
  `texture_mgmt` (thumbnail caches, drag-and-drop preview, package texture
  matching, PSD conversions, assignment history, name-based auto assignment),
  `export_filter` (export of the visible part of a model with all indices
  renumbered), `log_viewer`, `text_viewer`, `theme`, `texture` (pixel
  formats, mip chains, decoding and thumbnails through the `image` crate),
  `mesh` (draw layout, samplers, auxiliary textures, UV morphs), `gpu`,
  `bloom`, `uv_edit`, `single_instance`, and `text` (string helpers).
- `tests/` — tests run against the compiled library.
- `app/` — ordinary Rust around the library: file and process I/O, the
  floating-point camera, grid and bloom-strength math, and the Win32
  single-instance plumbing.

Texture bytes are decoded and thumbnails scaled inside the library (through
the `image` crate). The renderer itself (uploads of decoded pixels, thumbnail
registration, bind groups, and the PSD reader and converter) is reached through
the `TextureBackend` trait, whose records let the contracts state exactly which
pixels each call hands to it.
