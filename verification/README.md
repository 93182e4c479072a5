# reclip

A clipboard history for Linux desktops (GNOME/Wayland): a watcher polls the
clipboard and records texts and images; a picker lists the history and puts a
chosen entry back on the clipboard.

- `src/` is the verified library: the history (`storage`: filtering,
  deduplication that bumps a repeated clip to the top, trimming to the newest
  entries, image fingerprints and PNG encoding), the entry model and its
  previews (`model`, `text`), the clipboard trait with an in-memory clipboard
  (`clipboard`), one poll of the watcher (`daemon`) and the picker's key and
  selection decisions (`picker`).
- `app/` is the program around it: command line, the SQLite file that keeps the
  history across runs, the system clipboard through `arboard`, the watcher's
  loop and lock file, and the GTK window.
- `tests/` runs the library on concrete inputs.
