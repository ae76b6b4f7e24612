# zpad

The verified core of zPad, a minimal sticky-notes app for Linux: plain-text
notes, one `<id>.txt` file per note, saved atomically, with a tray menu that
lists every note newest first.

- `src/` is the library, checked by Verus: note storage (file names, loading
  a directory listing, fresh ids, atomic-write steps), window sizes and their
  `state.toml` record, note titles, the tray menu and icon, the stylesheet and
  autostart entry, the preferences, and the session bookkeeping behind the
  application's actions.
- `app/` is the GTK 4 program around it: windows, signals, timers, the tray
  service, the file system and TOML.
- `tests/` exercise the library on concrete values.
