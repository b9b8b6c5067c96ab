# Increment Tracker

Tracks delivery of the Jira epics a team commits to in a ~3-month increment:
binary SP-weighted progress, spillover from sprint to sprint, the chart series
of the dashboard, and a capped feed of insights.

## Layout

- `src/` — the library, verified with Verus. Every function states its result
  in `requires` / `ensures` over spec functions and views:
  - `model`, `progress`, `spillover`, `timeline`, `insights`, `sprint_naming`:
    the domain — status categories, which issues count where, sprint roles and
    spill counts, burn-up steps, remaining sprints, sprint-name conventions.
  - `mapper`, `fields`, `json`, `dto`: Jira's wire records mapped to the domain
    (Sprint field objects and Data Center blobs, changelogs, field discovery).
  - `auth`, `client`, `search`, `error`: talking to Jira — auth headers and
    detection steps, retries, refusal messages, search bodies and paging.
  - `commands`, `store`: what the commands decide and how cached rows read back.
  - `text`, `time`, `order`, `pattern`: strings, instants and days, stable
    sorting, regular-expression capture groups.
  - `laws`: properties proved across functions (round trips, idempotence,
    sortedness, bounds).
- `tests/` — tests of the library on concrete values.
- `app/` — what the library does not hold: HTTP, SQLite, the OS keychain,
  serde/ts-rs records for the user interface, and the floating-point
  story-point arithmetic.

Instants are microsecond timestamps (UTC) and calendar days are day numbers
since 1970-01-01.
