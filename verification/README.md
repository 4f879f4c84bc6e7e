# sweepy (verified library)

`sweepy` finds projects whose build artifacts can be reclaimed and removes
their generated directories. This crate holds its logic as a Verus-verified
library under `src/`, and the command-line program around it under `app/`.

- `src/scanner.rs`: reading `--older-than` values and the cutoff they give,
  choosing a project's language from its marker file, the walk's rule that
  no project is recorded inside another, reading git commit timestamps,
  keeping stale projects, summing removable space.
- `src/cleaner.rs`: the directories a clean acts on and whether they are
  deleted, with the proofs that a dry run deletes nothing, that only the
  listed directories are touched, and that each listed directory with a valid
  name lies inside its project.
- `src/config.rs`: the configuration file text and the parsing of user input
  for a new language.
- `src/constants.rs`: the project types and the built-in languages.
- `src/paths.rs`, `src/text.rs`: joining paths and taking final path components
  (paths held as their bytes, so any Unix path is kept),
  trimming, splitting and decimal parsing, each against a specification.
- `src/utils.rs`, `src/units.rs`, `src/validation.rs`: time and size
  conversions and the workspace path check.
- `app/main.rs`: argument parsing, directory walking, `git`, printing,
  deleting and the configuration file on disk.
