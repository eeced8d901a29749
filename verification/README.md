# scarab

Scarab builds portable music libraries from lossless collections, driven by a
deterministic TOML build profile. This crate is its verified core, written in
Verus: every function in `src/` carries a contract that Verus proves.

## Layout

- `src/config.rs`, `src/config_schema.rs`, `src/toml_input.rs`: the build
  profile. TOML syntax is parsed by the `toml` crate; the library decides the
  profile's shape and validates its rules, reporting the first violation.
- `src/validated.rs`: what every accepted profile satisfies (albums select
  something, no empty directory lists, no album or track targeted twice).
- `src/source_audio.rs`: recognition of source-audio files by extension.
- `src/album_directory.rs`, `src/album_scope.rs`, `src/required_discovery.rs`,
  `src/discovery.rs`, `src/candidate_inventory.rs`: the candidate inventory.
  The caller resolves selectors, inspects the source root and reads
  directories; the library groups, checks and aggregates what that work
  reported, and drives the directory walk step by step.
- `src/probe.rs`: what probing a source file reports, as plain values.
- `src/paths.rs`: how the library sees `std::path` values, through their
  spellings.
- `app/`: the filesystem and process work (canonicalization, reading
  directories, running ffprobe) and the end-to-end inventory pipeline, in
  ordinary Rust.
- `tests/`: tests of the library's public API.
