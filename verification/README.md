# hwatud_core

The decision logic of the hwatu daemon's coverage verbs and download
handling, verified with Verus.

- `src/` is the verified library. Each verb is a function from plain
  values to plain values (a page script, a validated request, a refusal
  with its message), or a small state machine that the daemon drives:
  `try_until` and `scout` decide the next action from the current state
  and the outcome of the last one; `login` decides what a poll of the
  credential lookup leads to. Downloads have a bounded registry, the
  download-directory resolution and collision-free file naming.
- `tests/` runs the library on concrete values.
- `app/` is the daemon-side edge: environment, file system, clocks and
  the JSON replies built around the library's results.

Modules: `text` (characters, decimal rendering, JSON string literals,
trimming, path joining), `url`, `base64`, `mime`, `content`, `form`,
`drop`, `fork`, `try_until`, `scout`, `login`, `downloads`.
