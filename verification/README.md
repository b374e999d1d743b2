# cb2_core

A task runner's core, verified with Verus. Task definitions (commands, references
to other tasks written `@name`, and sequences) are looked up by name, checked for
missing references, built into task trees, and shown as trees with a status mark
per task.

Resolving names and building trees follow reference chains, which may not end (a
cycle of references). The plain entry points ask that they end; each has a variant
with a step limit (`validate_within`, `select_within`, `Task::get_task_item_within`,
`Task::from_string_within`, `Task::from_seq_within`) that answers `None` exactly
where the chain does not end within the limit.

Layout:

- `src/` — the verified library.
  - `archy.rs`: rendering a labelled tree with box-drawing (or ASCII) connectors.
  - `input.rs`, `strmap.rs`: task definitions, kept in a map from names to values.
  - `task_lookup.rs`, `task_lookup_error.rs`: resolving names and reference chains,
    and the messages for a reference that cannot be found.
  - `task.rs`: building task trees and showing them; `ids.rs`: task ids.
  - `report.rs`: reports of started and finished tasks and the decisions that turn
    the outcomes of a group's items into the group's report.
  - `options.rs`: the command line; `paint.rs`: coloured text; `text.rs`: character
    helpers; `parent.rs`: the parent of running tasks.
- `tests/` — tests of the library.
- `app/` — the `cb2` program: processes, the futures runtime, reading YAML files.
