# cargo_dyndrv

Plans a Cargo build as Nix derivations: one derivation per unit of Cargo's unit graph, whose
outputs are addressed by their content. The planning is a library that is proved with Verus; the
program around it runs Cargo and talks to Nix.

- `src/` is the library.
  - `unit_graph`, `metadata`: what Cargo says about a build.
  - `ordering`, `reach`, `schedule`: the order in which units are planned, and what each depends on.
  - `arguments`, `compile`, `script`, `plan`: the derivations of runs of rustc and of build scripts.
  - `fingerprint`: the hash that keeps symbol names apart.
  - `session`: a build from its start to its end.
  - `store`, `derivation`, `environment`: store paths, derivations and their variables.
  - `codec`: what the ffmpeg example prints.
  - `text`, `paths`, `octets`, `index_set`: what the others are made of.
- `tests/` runs the library on concrete values.
- `app/` is the program. It finds its tools in the variables `CARGO`, `RUSTC`, `HOST_CC`,
  `HOST_CXX`, `TARGET_CC`, `TARGET_CXX`, `BUILD_WRAP`, `ENV_WRAP`, `LN`, `TARGET_ENV` and, inside of
  a derivation, `SUBMIT_WRAPPER`. `app/ffmpeg_example.rs` is a program to try builds with.

Store paths and placeholders come from harmonia. Its modules for them are published together, in
the crate `harmonia-store-core`; the client that speaks to the Nix daemon is not published, so the
program runs `nix`.
