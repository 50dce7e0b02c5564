# rtop

A terminal system monitor (CPU, GPU, memory, network, disks and processes)
whose decision logic is a library verified with Verus.

## Layout

- `src/` — the verified library. Every function carries a `requires` /
  `ensures` contract that Verus proves:
  - `theme`, `settings`: colour schemes, the theme cycle and the saved
    `config.toml` text.
  - `keys`, `action`, `app_state`: key bindings, the actions they map to and
    the interface state (quit, sort order, theme, selected interface).
  - `process`, `order`: the process table — filtering, sorting, the tree
    view, the selection, the search field and the terminate dialog.
  - `binary32`: single-precision numbers held as bit patterns — their order
    and their rendering with two decimals (the process CPU column).
  - `history`, `chart`: bounded sample histories (and the set of them that
    each sample updates) and chart windows.
  - `network`, `disks`: per-interface traffic growth, and the merged,
    deduplicated volume list.
  - `gauge`, `status_bar`, `utils`, `text`: bar cells, labels, byte and
    duration formatting, and the text operations they rest on.
  - `gpu`, `intel`, `procfs`, `sampling`: reading `lspci`, `/proc` and
    `/sys` text, naming adapters and choosing which sources to report.
  - `snapshot`: the plain data that a sample is made of.
- `tests/` — unit tests of the library on concrete values.
- `app/` — the program around the library: the terminal UI (`ratatui`,
  `crossterm`), sampling through `sysinfo` and NVML, file reads, the async
  polling loop, and the floating-point parts (rates, smoothing, colour
  gradients).

Laws of the library (what a switch cycles through, what a cancelled search
restores, that histories stay bounded, that deduplicating twice changes
nothing, and others) are stated as public proof functions next to the code
they speak of.
