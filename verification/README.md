# general-sys-tray-app

A system-tray monitor for background jobs. Each configured target is
checked periodically (log freshness, a check script, its process), the tray
icon shows the worst status, and a menu offers the tail of each target's
output and ways to stop or restart it.

Layout:

- `src/` — the verified library (Verus): text handling, configuration and
  its validation, file layout, status headers, the per-target check, the
  monitor's state and command handling, the tray's menu model and the
  changes an update causes, and the fallback icon image.
- `app/` — the program around it: reading the YAML file, the monitor
  thread, processes and signals, the lock file, and the GTK tray widgets.
- `tests/` — tests of the library.
