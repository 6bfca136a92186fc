# tgt

The sign-in screen of a terminal Telegram client, and the pass that keeps
right-to-left text of neighbouring panes apart, verified with Verus.

- `src/bidi_isolate.rs`, `src/bidi_laws.rs`: which part of each row shows which
  region, where LRI and PDI go, and what the pass keeps on every frame.
- `src/login_model.rs`, `src/login_laws.rs`: the sign-in as a state machine, and
  what it keeps whatever the user does.
- `src/login_window.rs`, `src/login_screen.rs`, `src/qr.rs`: the window that runs
  it, its lines, its QR code and where they go.
- `src/tui.rs`: sign-in window or chat shell, and the rows of the shell.
- `src/action.rs`, `src/app_context.rs`, `src/login_phase.rs`, `src/buffer.rs`,
  `src/geometry.rs`, `src/style.rs`, `src/text.rs`: what these are built of.
- `app/`: events from crossterm, frames through ratatui, and the parts of the chat
  shell, which are plugged in.
- `tests/`: the library on real buffers, codes and layouts.
