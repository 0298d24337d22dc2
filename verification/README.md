# fm

A small file manager in the style of Miller columns: every directory on the way to
the cursor has a column of its own, and what is under the cursor is previewed on the
right.

- `src/` decides: how wide columns are, what a key does, where the cursor goes when a
  listing changes, what is pasted under which name, what the title and the transfer
  indicator say. It holds plain values, and Verus proves it against its contracts. The
  proof functions whose names begin with `law_` state what holds of several operations
  together.
- `tests/` runs it.
- `app/` does: it draws widgets with GTK, reads and writes files with GIO and plays
  sound with GStreamer. It hands events to the library and performs the effects that
  come back.

Each panel (`component::directory_list`) and the window (`component::app`) is a state
machine: a message goes in, a list of effects comes out. Their contracts speak of the
models in `component::panel` and `component::window`.

The library trusts four functions: `String::push`, `String::from_utf8` and
`str::to_lowercase` of the standard library, and `pathdiff::diff_paths`.
