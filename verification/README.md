# rt

`rt` runs tasks defined in Ruby files (`.rt/tasks/**/*.rb` in a project, or
`<config_dir>/tasks/` for machine-wide tasks) from a discoverable command line:
`rt list`, `rt help <task>`, `rt tools --json [task]`, `rt run [--json] <task> [args...]`.

## Layout

- `src/` is the library, verified with Verus. Every decision rt makes lives
  here with its contract:
  - `args` — validating a task's command line against its declared params
    and options (types, enums, integer ranges, defaults);
  - `runner` — merging project and global metadata (project tasks win, hidden
    global tasks become `ShadowedTask` load errors), preparing a run, and the
    outcome of a finished task;
  - `cache` — when cached discovery may be reused;
  - `run_result` — the JSON result of `rt run --json`, including the bounded
    capture of output streams;
  - `tool_catalog` — tool definitions with object input schemas;
  - `output` — the text of `rt list` and `rt help`;
  - `project`, `ruby`, `cli` — finding roots, choosing and launching Ruby,
    recognising `rt run --json`;
  - `json`, `text`, `sort`, `metadata`, `error` — the values these work on.
  Public proof functions whose names begin with `law_` state properties that
  span several functions.
- `app/` is the executable: argument parsing with clap, file system and
  process work, JSON (de)serialisation with serde, and terminal colours.
- `tests/` exercises the library on concrete values.

The Ruby harness that loads task files and runs tasks is read at run time
from `harness.rb` next to the `rt` executable.
