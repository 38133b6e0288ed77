# sway_analyzer

A security-focused static analyzer for Sway, with its analysis verified by Verus.

- `src/` is the verified library. `ast.rs` holds the syntax tree that the analysis reads;
  `walk.rs` turns a module into the sequence of visit events of a top-down walk; each file of
  `detectors/` states what its detector reports at each event as a spec function and proves its
  executable code against it; `analysis.rs` selects detectors by name, merges their findings in
  walk order and turns them into report entries; `report.rs`, `render.rs`, `filter.rs` and `project.rs` hold
  the report and its text, the severity filter, line lookup, source loading and option checks; `laws.rs` states and proves what
  holds across these operations.
- `parse.rs` calls `sway-parse` on a source text and reads the tree it builds into the
  library's syntax tree, node for node; `project::load_source` records a file's lines and
  parses it, giving back its module under the normalized path or refusing it as failing to parse.
- `app/` is the command line: it reads the source files, runs the library on them and prints the
  report's text or its JSON form.
- `tests/` runs the detectors on Sway sources through the same parser, and the library's
  functions on concrete values.
