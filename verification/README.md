# wtop

An htop-inspired system monitor for Windows terminals: live CPU, memory,
commit, network, GPU and process views in a full-screen table that can be
filtered, sorted and navigated from the keyboard.

## Layout

- `src/` is the verified library. Every function carries a contract that
  Verus proves:
  - `model` — snapshots, metrics that remember whether they are fresh or
    stale, and the bounded CPU history;
  - `app` — the process-table state machine: filtering, sorting, selection,
    scrolling and key handling, with the laws that the table shows exactly
    the matching processes, in table order, and keeps the selection visible;
  - `text` — terminal-cell widths and the scrolling command-line viewport,
    which never splits a grapheme;
  - `theme` — the built-in palettes, theme cycling and the theme menu's
    keys (open, preview, apply, cancel);
  - `collector` — turning raw readings (process lists, service accounts,
    performance-counter names, UTF-16 buffers, page counts) into snapshots;
  - `ui` — layout arithmetic, titles, footers, the theme menu's lines and
    placement, and the formatting of bytes,
    rates and percentages (floating-point readings are held by their bit
    patterns and formatted exactly as one-decimal float formatting would);
  - `worker` — the refresh cadence;
  - `process_control` — which processes wtop refuses to terminate.
- `app/` is the program around it: the terminal session, the collector
  thread, the Windows and sysinfo queries, the ratatui drawing, and the
  floating-point arithmetic on readings (rates, CPU normalisation, bars).
- `tests/` exercises the library on concrete values.
