# codewhale

Recurring automations and background tasks for a coding agent, with the rules verified in
Verus.

An automation has a schedule (a small subset of RRULE: `MINUTELY`, `HOURLY`, `WEEKLY`). When
a slot is due, a journal record is stored, a task is queued under a key that follows from
the slot, and the run is recorded. Tasks are stored before they are known, run by a bounded
number of workers, and read back after a restart. Tool calls of a running task are planned,
admitted to run side by side, and their output is shown in order.

## Layout

- `src/` is the verified library. It holds the rules and no input or output. What
  alternates with files, channels or the clock is written as a course: a value with a `step`
  that takes what happened and says what to do next.
  - schedules: `rrule`, `rrule_spelling`, `schedule`, `time`
  - automations and their runs: `automation`, `automation_listing`, `pending`, `enqueue`,
    `scheduler`, `resumption`, `manual_run`, `reconcile`, `protection`
  - the index of runs: `run_index`, `run_reading`, `run_save`, `retention`
  - tasks: `task`, `task_store`, `task_events`, `task_updates`, `task_recovery`,
    `task_loading`, `task_pruning`, `task_runs`, `turn`
  - tools: `tool_calls`, `tool_output`, `hidden_tools`
  - the rest: `route`, `locations`, `storage_id`, `ids`, `json`, `text`, `order`, `failure`
  - what holds of several operations together stands in the modules that end in `_laws`, or
    under "Laws" at the end of a module
- `app/` carries out what the library decides: files, the clock, channels and workers.
- `tests/` runs the library on concrete values, with files kept in memory.

## What is trusted

The library calls `chrono` for the clock and the machine's time zone, `uuid` for
identifiers, and `serde_json` for the text of a value. Each call stands behind one function
whose contract is believed; its comment says what the contract claims. The standard library's
`String::push` is believed to append a character.
