# logx

A log analyzer: it parses log lines (JSON, `date time LEVEL message`, or free text),
filters them by level, time range and pattern, summarizes a file (level counts, time
span, repeated errors and warnings, errors per minute and the busiest minute), and merges
several files into one timeline.

## Layout

- `src/` — the library, verified with Verus. Each public function states in its
  contract what it returns; `src/laws.rs` proves properties that span functions.
  Calls into chrono, regex, serde_json and parts of std go through the small trusted
  wrappers of `src/trusted.rs`. Each contract states only what the called code's source
  or documentation shows; where the result depends on the clock or the platform, it
  states only what holds of every outcome, and the doc comment says what is left open.
- `tests/` — tests of the library on concrete values.
- `app/` — the `logx` command line (`read`, `analyze`, `correlate`) and the live
  terminal view: argument parsing, file access, colors and drawing.
