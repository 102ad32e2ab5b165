# crates_publish_check

Checks which Rust crates in a directory are ready for publishing on
crates.io: manifest metadata (name, version, description, license,
repository), whether the name is free on the registry, a source file with
code in it, tests (a `#[test]` in any `.rs` file below `src/`, a `tests/`
directory, or test targets in the manifest), path-only dependencies, `cargo check`, a README.md over 1 KB, a
LICENSE file that names a declared license, and optionally
`cargo publish --dry-run`.

Layout:

- `src/` — the verified library (Verus). `models` holds the report and its
  readiness; `text` the text tests (trimming, lines, substrings); `paths` the
  std path operations it relies on; `manifest` the reading of `Cargo.toml`
  through the `toml` crate; `pipeline` the check of one crate as a state
  machine that asks for outside work and takes back what was observed;
  `discover` the choice and order of the crate manifests of a directory;
  `summary` the plan of the text and JSON reports.
- `app/` — the command-line program: argument parsing, file system,
  HTTP and child processes, progress bar, terminal colours and JSON output.
- `tests/` — tests of the library on concrete values.
