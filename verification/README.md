# tokidex

A terminal dashboard of local Codex token usage, built around a verified library.

- `src/` is the library, verified with Verus: the session model and its usage arithmetic
  (`model`), filtering, selection and totals of the dashboard (`app`), where the Codex home
  is and what a rollout's events report last (`codex_store`), the text shown on screen
  (`ui`), character-level text operations (`text`) and the clock readings the filters use
  (`clock`, through chrono).
- `app/` is the program: command line, terminal loop, reading the SQLite state database and
  the JSONL rollout files, and drawing with ratatui.
- `tests/` exercises the library.
