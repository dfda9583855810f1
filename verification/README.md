# kvikk

The logic of a keyboard-first PDF reader, written in Verus and proved against
its contracts.

- `src/` is the verified library: view modes and page groups (`model`),
  page-grid rows and fixed-row column counts (`layout`), keyboard commands,
  command-key shortcuts, go-to-page input and the pacer speed ladder
  (`navigation`), tabs with closed-tab history (`tabs`), search and snippets
  (`search`, `text`), the OCR and text-extraction queues (`indexing`), bitmap
  sizing, render-request bookkeeping and cache eviction (`render`), titles,
  file types and links (`platform`), and the Unicode facts these rest on
  (`unicode`).
- `tests/` runs the library on concrete inputs.
- `app/` is the desktop program around it: the window, input handling,
  painting, the floating-point page geometry (including the column counts of
  the adaptive grids and the overview), the PDF rendering and OCR worker, and
  file dialogs. It hands the
  library plain values and acts on what comes back.
