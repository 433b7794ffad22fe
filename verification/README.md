# kotoba_core

A flashcard library written in Verus: decks and cards imported from CSV files
(re-imports keep each card's identity and review state), daily study queues
with limits and same-day bonuses, grading with the FSRS scheduler and undo,
deck statistics and the data the scheduler is trained on, passphrase-encrypted
backups, and the integrity rules every stored or restored library satisfies.

Layout:

- `src/` — the verified library. `model` holds the data and its views;
  `library`, `import` and `csv_file` the decks and the CSV import; `learning`
  the study day, queues, grading, undo and deck settings; `storage` the
  integrity rules and the revision checks of the store; `analytics` the
  statistics and training data; `backup` the encrypted backups; `service` the
  session's decisions (import cache, restore, training job); `laws`,
  `validity` and `import_validity` the properties that span several
  operations, among them that every change the library makes keeps a valid
  library valid and that importing an applied CSV again changes nothing
  (`reimport`); `integrity` what a valid library guarantees of its
  identifiers, references and review history.
- `tests/` — tests of the library.
- `app/` — the program around it: the SQLite store, the stored JSON form of
  the data, the scheduler's floating-point computations (the `fsrs` crate),
  and a line-based command interface in place of the desktop window.

Values that the scheduler computes in floating point (retention, memory
stability and difficulty, scheduler parameters) are held by the library as
their IEEE-754 binary32 bit patterns.
