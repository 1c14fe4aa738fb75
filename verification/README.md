# sdit_core

The core of a terminal emulator, written in Verus: the functions in `src/`
carry contracts that Verus proves, except the small wrappers marked
`#[verifier::external_body]` around calls into std, `regex` and
`unicode-width`, whose contracts are trusted as those libraries document
them.

- `src/grid` — the ring-buffer row storage, rows, cells and the grid with its
  cursor, scrolling, clearing and resizing.
- `src/terminal` — the VT state machine: C0 controls, ESC and CSI dispatch,
  SGR, OSC handling (titles, hyperlinks, notifications, clipboard, colour
  queries, shell-integration markers), the kitty keyboard flag stack, search,
  vi-mode motions and link / quick-select detection.
- `src/selection.rs` — selections and the text they cover.
- `src/config` — settings values, defaults and clamping rules, key bindings,
  colour themes, code-point ranges and the commented settings template.
- `src/render` — glyph-atlas allocation and pixels, the column map of a shaped
  line, selection hit tests and background-image checks.
- `src/session`, `src/pty.rs` — session records and pty parameters.
- `src/text.rs` — text and byte helpers shared by the modules above.

`app/` holds what talks to the outside world: the `vte` parser driving a
terminal, the serde forms of the settings with loading and saving, the pty and
its session threads, session persistence, and floating-point geometry and
colour arithmetic.
