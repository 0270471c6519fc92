# aigosd

The supervisor daemon of the AI Governance Operating System: it reads
`config.yaml`, checks it, finds the executable of every governance layer in
its working directory, and starts and supervises the layer processes of each
configured mesh until it is asked to shut down.

## Layout

- `src/` is the library, verified with Verus. It holds the rules of the
  configuration (mesh names, layer lists, options, the log file path), the
  planning of each mesh's layers, the search for layer executables, the
  supervisor's bookkeeping of running processes (what to start, restart and
  stop), the log line formats and the sticky write-failure flag, and the
  unit-file and service names. `src/laws.rs` states and proves properties that
  span these functions.
- `app/` is the daemon around the library: reading files, parsing YAML,
  inspecting the file system, spawning and signalling processes, threads,
  signal handlers and the process-wide log.
- `tests/` exercises the library on concrete values.

`IndexMap` (from `indexmap`) keeps meshes, executables and processes in
insertion order; the library calls it through wrappers in
`src/ordered_map.rs` whose contracts state what each call does to the map's
entries. JSON string encoding of log messages goes through `serde_json`.
