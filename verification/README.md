# mkrp

A runner for Ren'Py visual novels on Linux handheld consoles, with its logic
written in Verus and proved against its contracts.

## Layout

- `src/` — the verified library.
  - `rpa/` — RPA archives: the header line (`header`), the pickled index
    (`archive`), the virtual file system's bookkeeping (`vfs`), writing and
    repairing patch archives (`writer`, `repair`), and name-ordered entries
    (`sorted`).
  - `rpyc/` — compiled scripts: the slot table, inflation and version
    detection.
  - `engine/` — the scene state machine (`scene`) and dialogue extraction
    from script bytecode (`script`).
  - `render/` — decoding and fitting images (`scaler`), AVIF re-encoding
    (`convert`), input events (`input`), window size (`display`) and overlay
    pixel arithmetic (`overlay`).
  - `launcher` — the runner's command line and the decisions of its loop.
  - `text`, `bytes`, `strings`, `zlib` — character and byte helpers, and the
    trusted entry points into `std`, `flate2` and `byteorder`.
- `app/` — the program around the library: file and SDL I/O, fonts and
  layout, the main loop, and the `build-patch-rpa` and `fix-patch-rpa`
  tools (chosen by the first argument).
- `tests/` — tests of the library on concrete values.
