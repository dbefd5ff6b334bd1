# thock

The verified core of a notes vault: calendar sync, mail and inbox capture, the
backlog, the day planner, and the agents that work in the vault.

- `src/` is the library. Every function states what it returns, and Verus proves
  it. The `*_laws` modules, and the public proof functions elsewhere, state what
  holds of several functions together: that no capture is dropped, that only
  synced lines are ever rewritten, and that reconciling a note twice changes
  nothing the second time.
- `app/` is the host side: files, settings, the clock, and the mail requests. It
  reads and writes, and asks the library what to do.
- `tests/` runs the library on concrete values.

Calls into `base64`, `chrono`, `serde_json`, `sha2`, `shlex`, `toml` and `url` go
through small trusted functions, each with a comment that says what is taken for
granted of the call.
