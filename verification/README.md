# v_utils

Utilities for trading tools and command-line programs, with their logic
verified by Verus: every function under `src/` carries a contract, and the
laws that hold across functions are proved as `law_*` proof functions.

Layout:

- `src/` — the verified library:
  - `primitives`, `trades`, `klines`: timeframes in their three readings,
    trading pairs and symbols, order sides, timestamps of unstated unit,
    candle frames' required columns, step and time lookup, compact number
    layout;
  - `text`: the text operations the rest is built on, with their specs;
  - `io`: prompt answers and the inline line editor, editor and git
    commands, `~` expansion, XDG paths, the progress bar's frame;
  - `keys`: pressed-key tracking and modal keybinding trees;
  - `nix`: reading `.nix` configs that are plain data as JSON;
  - `settings`: the NixOS options module of a JSON Schema;
  - `fuzz`: a hash of sources, a finite deterministic RNG, the regression
    corpus format, target selection and the seed scan;
  - `arch`: the component lifecycle machine and its registry bookkeeping;
  - `llm`, `snapshots`, `latency`, `other`: conversations, text plot
    layout, stream arrival order, clock-style durations.
- `tests/` — tests of the library on concrete values.
- `app/` — ordinary Rust around the library: terminal and process I/O,
  the environment, `serde` support, panics and trait objects, and the
  floating-point parts (numbers, plots, random walks).
