# sashiki

Terminals for each git worktree, all in one place. This crate is the
verified core of the tool: Verus proves the functions in `src/` against
their contracts. The calls into outside crates (ropey, similar, url,
regex, font-kit, unicode-width, content_inspector) stand behind small
trusted wrappers whose contracts state what those crates do, and what the
machine decides (installed fonts) is left unstated. Paths are handled in
their Unix form.

## Layout

- `src/` — the library, written in Verus.
  - `git` — the git commands the tool runs (as plans of arguments) and the
    parsing of their output: worktrees, changed files, stashes, diffs and
    the patches that stage or discard hunks and lines; branch name rules.
  - `session` — one session per worktree with its terminals; the session
    manager keeps the active session, the layout and the parallel view in
    step with the worktrees on disk.
  - `template`, `dialog`, `commit` — creating a worktree from the project's
    template, and the decisions of the dialogs.
  - `diff`, `buffer`, `fileview`, `tree` — line diffs and their two-column
    layout, the text buffer and its viewport, what a selected file shows,
    and the file list as a tree.
  - `highlight`, `adapter` — languages, capture styles, and highlighted
    lines built from highlight events.
  - `lsp` — language server framing, request bookkeeping and the
    decisions around go-to-definition.
  - `terminal_state`, `frame`, `input`, `urls`, `utf16`, `ui` — the terminal
    screen and its escape sequences, rendered frames, key encoding, web
    addresses on screen, UTF-16 ranges from text input, and widget state.
  - `font`, `config`, `theme`, `action`, `path`, `text` — fonts, settings,
    colors, terminal actions, path and text helpers.
- `tests/` — tests of the library.
- `app/` — the command-line program around the library: it runs git and
  shell commands, reads and writes files, and feeds terminal output to the
  screen.
