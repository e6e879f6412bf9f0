# pcb_core

The core of a PCB design toolchain, written in Verus: every function in `src/`
carries a `requires`/`ensures` contract proved by the verifier.

Layout of `src/`:

- `graph/` — the circuit graph (ports, nets and components as factors), its
  construction from net and pin lists, neighbours, external ports, and the
  enumeration of factor-simple paths between two ports.
- `config.rs` — `pcb.toml` workspace settings, member globs and board discovery.
- `resolve/` — load specs (`@pkg:tag/path`, `@github/...`, `@gitlab/...`,
  paths), their parsing and text form, path normalization, package aliases,
  the resolution history, remote caches and the record of resolved files.
- `eda/` — KiCad symbol libraries read from s-expressions.
- `lang/` — the values of the design language: components, modules, interfaces,
  SPICE models, the symbol library cache.
- `sch/`, `sim.rs`, `bundle.rs` — schematic attributes, BOM entries, SPICE
  netlists and bundle manifests.
- `strmap.rs`, `seqs.rs`, `text.rs` — insertion-ordered string maps, sequence
  and string helpers with their specifications.

Calls into outside crates (globset, regex, sexp, fixedbitset, smallvec, chrono)
go through small trusted wrappers whose contracts state what the crate's source
shows. `app/` holds the file system, network, process and serialisation code
around the library; `tests/` holds the tests.
