# pasteboard

A clipboard-history manager. `src/` is the verified library; `app/` is the
desktop shell around it (windows, tray, global hotkey, clipboard access,
files and the SQLite copy of the table).

Library modules:

- `db` — the record table: insert, read, touch, pin, delete, trim to a
  limit (least recently used unpinned records first), clear, and the list
  order (pinned first, then most recently used).
- `clipboard` — time, content fingerprints, link detection, captured-image
  thumbnails, and the capture decisions (blank text, repeats of the last
  capture, storing and trimming).
- `commands` — list rows, thumbnail data URIs, save targets, applying new
  settings, exit clean-up.
- `settings` — defaults, loading, bounds on the record limit.
- `hotkey` — parsing hotkey text such as `Ctrl+Shift+V`.
- `paste`, `tray`, `window` — paste payloads (decoding stored images),
  tray actions, panel
  placement and dismissal rules.
- `text` — white space, trimming and number formatting.
