# ink_compiler

The front end and static analysis of the ink-rs narrative language, verified
with Verus.

- `parsed` is the syntax tree of a story; `parser` reads source text into it and
  `compiler` runs the parser over one or more inputs.
- `analysis` holds the checks run on a parsed story: constants, struct and enum
  declarations, names, control flow, choices evaluated again at run time, call
  and divert targets, initializers, assignments, struct/array/`Dict` literals,
  field and element reads, and the module passes under `analysis::modules`
  (symbols, imports, dependency graph and import cycles, entry point,
  reachability).
- `diagnostic` is what the checks report, and the order reports are sorted in.

Each check states its result in its contract: mostly a spec function that
describes the diagnostics it produces, in order, for every story; for the
sorted module reports, the properties that determine them. `analysis::analyze` and `run_analysis_passes` are
specified as the concatenation of all passes. Properties that relate several
functions stand as public proof functions (`law_*`).

## Not supported

The language accepted here is a subset of ink-rs. These are not part of the
syntax tree, the parser or the checks; the lines of a story that use them
are reported as lines that cannot be read:

- interfaces: `=== interface Name ===` declarations, modules that
  `implements` them, `interface<Name>` types and values, and calls through
  them;
- `for` loops and choices bound to the items of an array.

A module header holds the module's name and nothing more: words after the
name, such as `implements Name`, are reported as an error and the header is
not read.

A `ref` before a parameter is read and skipped: whether a parameter is
passed by reference is not recorded.

The `?` and `!?` operators (`has`, `hasnt`) are read and always reported as
not defined for the operand types, as ink-rs does.
