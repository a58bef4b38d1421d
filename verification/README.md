# launcher

A small application launcher for GTK desktops: the favorite applications, the
others by category, and a search entry. One instance runs in the background; a
second one tells it to show or hide itself.

- `src/` is the library: what the launcher decides, written and proved in
  Verus. `app.rs` takes the events of the window and answers with the effects
  that the window carries out; `model.rs` is the same as a mathematical state
  machine, and `laws.rs` states what holds of it as a whole. `desktop.rs` finds
  the installed applications, `listing.rs` searches and sorts them,
  `favorites.rs`, `icon.rs`, `lockfile.rs` and `command.rs` hold the rest.
- `app/` is the program: the GTK window, files, processes and signals.
- `tests/` runs the library.
