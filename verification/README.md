# filebrowser

A two-pane terminal file browser: a directory listing on the left, a preview
of the selected file on the right, a path header and a status line with the
key hints.

The logic lives in a library verified with Verus (`src/`):

- `app` — the navigation state (`App`) with its invariant (the cursor always
  points at an entry), the cursor moves, the scroll clamping of the list and
  of the preview, and the requests to open a directory or go to the parent.
- `entry` — a directory entry and the display order (`compare`), proved to be
  a total order that ties only identical kinds and names.
- `filesystem` — the sorted listing of a directory (`..` first, then
  directories, then files; a stable merge sort) and the text preview of a
  file's leading bytes.
- `input` — the key map (moves, jumps, open, parent, quit, and `J`/`K`,
  Ctrl+D/Ctrl+U to scroll the preview) and `handle_key`.
- `ui` — escaping of terminal control characters, the status line, the rows
  of the file list and the preview's title and rows.
- `wrap` — greedy word wrapping by display width that never splits a grapheme
  cluster, with its laws (rows give back the text, rows fit the budget).
- `text`, `unicode` — character helpers and the calls into std, `unicode-width`
  and `unicode-segmentation` whose contracts the proofs rely on.

`app/` is the program around it: terminal setup with crossterm, reading the
filesystem, drawing with ratatui and the event loop. `tests/` exercises the
library on concrete values.
