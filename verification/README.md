# imagesitter

Sparse-pixel image signatures for desktop automation: objects are recognised by a few
reference colours at fixed offsets inside a region, with per-channel tolerances, alpha
policies, exclusion points and `minMatch` thresholds. The library also calibrates
tolerances from sample images, discovers distinctive points, adapts regions to other
frame sizes, searches small position and size changes, and manages project files,
history snapshots and sample images.

Layout:

- `src/` — the library, with its contracts and laws proved by Verus:
  `engine` (matching), `search` (position/size search), `validate` (input checks),
  `calibrate` and `features` (tolerance suggestions and point discovery), `layout`
  (regions and coordinate adaptation), `replay` (headless runs), `codec` (PNG, Base64,
  SHA-256), `capture` (frame reads, client-area crop, sampling), `windows` (window
  listing), `registry` (bound targets), `project` and `samples` (project files, history,
  managed samples), `order` (text order and stable sorting), `text`, `frame`, `model`,
  `clock`.
- `tests/` — tests of the library.
- `app/` — the command-line runner (`validate`, `match`, `test`) and the desktop
  back end's commands: file system, JSON, and the winsitter capture SDK loaded at run time.
