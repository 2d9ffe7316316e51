# rote

The editing core of the Rote text editor, verified with Verus, and the
window program around it.

## Layout

- `src/` — the verified library.
  - `buffer`, `cursor`, `editor`, `motion`, `text`: documents held in ropes
    with whole-text undo/redo snapshots, one cursor per buffer, and the
    cursor motions, all specified over a model of text as a sequence of
    chars split into lines.
  - `syntax`: highlight spans (sorted, non-overlapping, later captures win)
    built from tree-sitter captures.
  - `chord`, `keys`: canonical key-chord strings and what a key press means.
  - `picker`: the filterable list plugins open.
  - `layout`: char offsets to and from (line, byte) layout positions, and
    the status line.
  - `lsp`: `Content-Length` framing of JSON-RPC messages and how a message
    is routed.
  - `plugins`: where plugins are looked for and the module names they get.
  - `gutter`: which lines a gutter plugin is asked about, and how its
    answers become the gutter's text.
  - `rope`, `chars`, `ts`, `strings`: the trusted boundary to `ropey`,
    `char` classification, `tree-sitter` and `String` building, each item
    with the contract it is trusted to meet.
  - `laws`: properties of undo, redo, deleting the selection, backspace
    and Delete stated over the buffer and editor models; other laws sit
    beside the functions they are about.
- `tests/` — tests run against the compiled library.
- `app/` — the winit/wgpu/glyphon window, the embedded Python plugin host
  (pyo3), the LSP client (tokio), and file I/O. These do I/O, drive GPU
  rendering in floating point, or hold Python objects, and call the library
  for every decision about text.
