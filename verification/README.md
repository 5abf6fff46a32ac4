# Rust Photo

An image editor whose editing core is a library verified with Verus.

## Layout

- `src/` — the verified library (`rust_photo`):
  - `base/raster.rs`: RGBA and gray rasters with a size invariant; crop, resize, paste.
  - `base/selection.rs`: selection masks — magic wand flood fill (the region is
    exactly the pixels connected to the click through similar colors), bounds,
    union/subtraction/intersection, invert, clear, grow and shrink by a disc,
    and the edge pixels that outline a mask.
  - `base/history.rs`: undo/redo stacks with a level limit and per-document
    clearing, over commands whose results and post-states their spec functions
    state; a manager holds one command type (an enum can gather several kinds).
  - `base/layer.rs`, `base/layers.rs`: layer stacks, by position and by id.
  - `base/document.rs`, `base/settings.rs`, `base/canvas.rs`: formats, metadata,
    defaults, canvas selections.
  - `base/curves.rs`: tone curves applied through lookup tables.
  - `filters/`: invert, pixelate, oil painting, box blur, region filtering, strips
    for parallel filtering, downscaling, cartoon helpers.
  - `tools/`: tool names, and the tool manager's switching of tools, handling of
    keys (text typing among them) and choice of cursor.
  - `vector/`: the vector document's layer stack, and the layer tree with
    objects found and selected by id.
  - `raw/`: RAW loading placeholders and development options.
  - `text.rs`: string equality.
- `tests/` — tests of the library on concrete values.
- `app/` — the program: the GTK window, file and settings input/output, the
  floating-point filters and geometry, and conversions to and from the `image` crate.

The public functions of the library state their results in `ensures`; the
properties that relate several calls are proof functions named `lemma_*`.
