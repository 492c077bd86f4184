# siemctl

The command line of a headless SIEM: searching events and alerts, statistics,
shift digests, retention and configuration checks over a data directory of raw
JSONL files and SQLite hour buckets.

- `src/` is the library. It holds the query language, the compilation to SQL and
  the evaluation over JSON alerts, the calendar and time ranges, the output
  formats, the sections of a digest and the texts of the commands. Each function
  states in its contract what it returns; Verus proves it.
- `app/` is the program around it: arguments, files, SQLite, subprocesses, and
  the few figures that are computed in floating point.
- `tests/` runs the library on examples, with SQLite buckets in memory.

What the library takes from outside crates stands behind trusted declarations:
the calendar arithmetic of `chrono` (`calendar`), and parsing and writing JSON
with `serde_json` (`json`). Their doc comments say what is assumed of each.

The laws of the library are public proof functions beside the functions that they
speak of, or in `query_laws` and `alerts_laws`.
