# rift

The decision logic of a tiling window manager for macOS, written in Rust and
verified with Verus.

`src/` is the library. Everything the manager decides from what the system
reports is here, as functions on plain values with contracts that Verus proves:

- `reactor`, `workflows`, `events`, `commands`, `outcome`: what is done about each
  event, and in which order.
- `desktop_match`, `departure`, `settle`, `reconcile`, `record_pass`, `walk`: a
  record of where everything was when a display left, and how it is put back.
- `display_archive`, `homing`: the layout of a display that is away, and its
  return.
- `fullscreen_slots`, `native_spaces`, `topology`, `snapshot`, `membership`: which
  desktop a window is on.
- `drag`, `arrange`, `focus`, `reports`, `discovery`: windows in the user's hand,
  layout passes, focus, reports on windows, the rules applied to them.
- `displays`, `desktops`: commands on displays and desktops.
- `managers`, `transaction_manager`: the parts of the reactor's state.
- `trace`, `legacy`, `replay`: recorded sessions, and the rules that a replay is
  held to.
- `drop_overlay`, `tile_halo`: the two overlays and their frames.
- `table`, `lists`, `order`, `text`, `screens`, `clock`, `ids`, `layout`: what the
  others are written in.

Frames and points are type parameters: whatever is read off them comes in as an
answer. Times are nanoseconds that the caller passes in. JSON is read by
`serde_json`; what the library believes of it is stated in `legacy`.

Laws that relate several functions are public proof functions, named for what
they say.

`app/` holds what talks to the system: geometry in floating point, files,
threads, and the traits that stand for the window server and the layout engine.

`tests/` runs the library on concrete values.
