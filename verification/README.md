# d-link

A terminal file manager for TI-Nspire calculators, with its browsing logic
verified by Verus.

- `src/` is the verified library: the browser's state and every user action
  and device event (`app`), key and mouse bindings (`input`), the listing order
  and directory entries (`files`), calculator paths (`paths`), text helpers
  (`text`), device events and the directory-size walk (`device`), settings
  (`config`), screen decisions (`view`), and properties spanning several
  operations (`laws`).
- `app/` is the program around it: the terminal loop and drawing (ratatui,
  crossterm, tui-textarea), USB access to the calculator (rusb, libnspire),
  background transfers, and the settings file (dirs, serde, toml).

Where an action needs the calculator, the terminal or the disk, a library
method returns what is to be done, and another takes in the outcome.
