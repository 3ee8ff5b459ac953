# unicleaner

Detects and removes malicious Unicode in source files: bidirectional
overrides, zero-width and other invisible characters, homoglyphs and unusual
spaces.

- `src/` is the library, written in Verus: the tables of malicious code
  points and Unicode ranges, encoding detection and decoding, the scanner,
  the cleaner and its policies, configuration rules and presets, the block
  registry, and the report formats. Each public function states its result
  in its contract; the laws of the library (ordering of reports, idempotent
  strict cleaning, rule priority, configuration lookups, ...) are public
  proof functions beside the code they speak of.
- `tests/` exercises the library on concrete values.
- `app/` is the command-line program around it: argument parsing, reading
  and writing files, walking directories, running git, the thread pool and
  JSON output.
