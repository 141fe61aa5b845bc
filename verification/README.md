# wm

The decision logic of a tiling window manager for Windows and macOS, written in
Verus.

- `src/` holds the logic. It decides how tiles share space, how windows are
  animated, what a workspace switch changes, and what to make of the answers and
  notifications of the operating system. Each function says in its contract what
  it decides, and laws across functions are proved beside them.
- `app/` talks to the operating system and hands what comes back to the library.
  The macOS part is built on macOS only.
- `tests/` runs the library on concrete values.

Tiling sizes are whole numbers of units, `FULL_SIZE` of which make up the parent.
Times are nanoseconds on one monotonic clock. Containers are known by the 128-bit
numbers of their UUIDs.
