# TimeWise

Screen-time tracking for a household. Workers record which window has the
focus and upload the finished sessions; a master merges the devices of each
child, keeps goals and points, and answers the dashboard.

- `src/` is the library. Every rule of both roles is here, with contracts that
  Verus proves: the tables and their queries (`store`), categorization,
  calendar and periods, the tracker, warnings and break prompts, sync cycles
  with backoff, points, the master's answers, and the worker's ticks.
- `tests/` runs the library.
- `app/` is the program around it: database files, HTTP, discovery, the
  desktop shell.

Contracts speak of views: a `String` is a sequence of characters, a table is a
sequence of rows. What holds across operations is stated as public proof
functions, most of them in the sections headed "Laws" and in
`src/store/master/laws.rs`.

A few functions call outside crates and are believed, not proved: compiling
and matching patterns (`regex`), formatting dates and reading the clock
(`chrono`), new identifiers (`uuid`), and lower-casing text (the standard
library). Each says above its header what is taken for granted.
