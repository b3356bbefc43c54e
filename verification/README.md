# smix_cli

The decision logic of the `smix` command line, verified with Verus: how
flows are sharded over simulators and federation nodes, what `smix init`
registers, what `smix doctor` says to run next, when a capsule boots hard,
how the runner supervisor decides to cycle, what a teardown may turn off,
and every argv the CLI hands to `xcodebuild`, `ssh`, `rsync`, `adb` and
`simctl`.

- `src/` is the library. Each public function states its result in its
  `ensures`; the laws that relate several functions are public proof
  functions (`lemma_*`).
- `tests/` runs the library on concrete values.
- `app/` is the `smix` binary around it: argument parsing, processes,
  sockets, files, and the serde copies of the library's types.
