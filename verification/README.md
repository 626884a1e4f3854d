# worldsong

The layout, manifest and source-generation logic of the Worldsong
hot-reloading game framework, as a Verus-verified library.

- `src/path.rs`: Unix path joining on strings.
- `src/text.rs`: decimal rendering and the code-point order of strings.
- `src/hierarchy.rs`: where every part of a project lives, from its root.
- `src/manifest.rs`: dependency manifests: versions, conflicts between
  manifests, their ordering and messages, and the merged dependency table.
- `src/toml_text.rs`: TOML parsing through the `toml` crate and the report of
  its syntax errors.
- `src/state_source.rs`: the generated source of the state library.
- `src/processes.rs`: the kernel's loop decision and the graphics process.
- `src/tooling.rs`: file system error policy and the build commands.

`app/` holds the file system, process and SDL plumbing around the library.
