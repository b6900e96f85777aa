# Glorious Auto Polling Rate

A Windows tray tool that raises a Glorious mouse's polling rate while a
watched program runs and drops it back the rest of the time.

- `src/` is the verified library: every decision the tool makes, with its
  contract, proved by Verus. `text` (whitespace, lines, case, decimal and
  UTF-16 forms), `config` (the process list, the command table and the rates
  the menu offers, the configuration files' contents), `hid` (choosing the
  HID collection, building reports), `monitor` (the process watcher),
  `autostart` (the Run value) and `tray` (the tray's state, when a rate is
  sent and announced, the tooltip and the whole menu).
- `app/` is the program around it: the window, tray icon, timer, registry,
  files, TOML encoding and the HID and process system calls.
- `tests/` runs the library on concrete values.
