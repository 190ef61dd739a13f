# clis

Terminal tools that share a vim-modal interface core:

- `cdt` — navigator for Conductor workspaces (git worktrees under
  `<root>/<project>/<workspace>`): fuzzy picker, listing, cleaning merged or
  stale worktrees, file conflicts across worktrees, activity timeline.
- `rippy` — clipboard history with a browser, a background watcher, a
  launchd service and an MCP server.
- `learn` — spaced-repetition review of concept notes in an Obsidian vault.

## Layout

- `src/` — the library, verified with Verus. Each public function states
  what it returns in its contract; laws that relate several calls are public
  proof functions.
  - `tui_core` — modal key handling, navigation, scrolling, search bar text.
  - `ranking` — fuzzy ranking (skim scores from `fuzzy-matcher`).
  - `cdt/` — workspaces, display columns, lookup, summary, the `gh` pull
    request list, cleaning plans, conflicts, timeline, picker state, cache
    validity.
  - `rippy/` — settings and hotkey names, content tags, entry listing and
    hashing, watcher decisions, browser state, service texts.
  - `learn/` — schedule, due selection, prompts, note and settings fields, frontmatter updates, review
    session rendering, parsing and grading.
  - `text` — the character-level helpers the rest is built on.
- `app/` — the programs: argument parsing, files, processes, SQLite, the
  terminal, the MCP transport, and the floating-point scores. It calls the
  library for every decision.
- `tests/` — tests of the library.
