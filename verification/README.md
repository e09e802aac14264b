# oc_diagdoc

A diagnostic engine for hierarchical Markdown documentation trees: it
verifies front matter, links and hierarchy, lints documents, computes
statistics, coverage and dependency graphs, and produces reports, exports
and compiled documents.

## Layout

- `src/` — the library, written in Verus. Every function carries a
  `requires`/`ensures` contract that Verus proves. The logic of every
  command (`src/commands/`) works on plain values: file contents, paths and
  stems handed in by the caller, and texts to write handed back.
  - `graph.rs`, `cycles.rs`, `order.rs`, `hash.rs`, `links.rs`, `yaml.rs`,
    `fields.rs`, `registry.rs`, `text.rs`: the core data structures and text
    handling, with their laws stated as public proof functions (`law_*`).
  - `patterns.rs`, `paths.rs`, `clock.rs`, `release.rs`: the few calls into
    `regex`, `std::path`, `chrono`, `semver`, `sha2` and `hex`, each behind a
    small trusted wrapper whose contract says what the outside code returns.
- `app/` — the command-line program: argument parsing (`clap`), reading and
  writing files, the terminal dashboard (`ratatui`), and the float-valued
  health scores. It hands plain values to the library and prints what comes
  back.
- `tests/` — tests of the library on concrete values.
