# Mesai — study tracker

A small desktop tracker of when, how long and on what you studied. The
library in `src/` holds everything the tracker decides and computes, with
contracts proved by Verus:

- `lang` — the interface languages (English by default, Turkish on
  request, kept with the data) and the texts in each;
- `text` — trimming, the comma-separated tag list, CSV quoting, joining,
  decimal numbers;
- `clock` — instants, local readings and calendar dates (through `chrono`);
- `format` — "01:02:05", "2 h 5 min", "11 July 2026, 14:30", "Sat 11 Jul"
  (and their Turkish forms), export file names;
- `timer` — the wall-clock timer with pause and resume;
- `model` — sessions, the database (with the chosen language), ordering by
  start, ids, deletion and importing a backup;
- `stats` — totals, average, day streak, last fourteen days, time per topic;
- `paths` — data folder, `~` expansion, typed paths, attachment file names;
- `csv` — the CSV export;
- `backup` — which attachments (up to 5 MB) go inside a JSON backup, and the
  base64 text they are carried as;
- `state` — the window's state and what each button does to it.

`app/` is the window (eframe/egui), the JSON files (serde) and the calls
that touch the disk or start other programs. `tests/` runs the library on
concrete values.
