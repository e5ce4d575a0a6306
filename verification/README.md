# sqllog2db

A command-line tool that parses DM database SQL logs and exports their
records to CSV or SQLite, with `stats`, `digest`, `validate`, `show-config` and `init`
commands.

The project is written in Verus:

- `src/` is the verified library: configuration checks and `--set`
  overrides, record filters, SQL fingerprints and templates, parameter
  substitution, CSV cell formatting, the resume state, ranking tables,
  per-template execution-time statistics and the run's per-file and
  per-record decisions.  Every function carries a contract, except the
  getters and setters of the shared progress counters (std atomics,
  whose values nothing here models); the laws that
  relate several functions are public proof functions next to them.
- `app/` is the executable around it: argument parsing, reading log files,
  writing output files, logging, and the floating-point execution-time
  sums.
- `tests/` runs the library on concrete inputs.
