# CapsulePulse

A desktop work-time tracker: clock in and out of a workday, time work
sessions (start, pause, resume, restart), get a reminder after a stretch of
continuous work, and browse each day's duty, work and rest time.

- `src/` is the verified library (Verus): the session timer, the workday
  machine, the reduction of a day's events into chart blocks and totals, the
  reminder cadence, settings validation, calendar periods, and the SQLite
  storage and application operations built on them.
- `tests/` holds the library's tests.
- `app/` is the desktop program around the library: window, tray, hotkeys,
  notifications, files and locking.
