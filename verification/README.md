# faceitui

A terminal viewer for FACEIT CS2 player statistics: lifetime statistics,
match history with pages and details, per-map results, an AI analysis of the
player, colour themes, JSON export, mouse and keyboard control.

The viewer's logic is a library verified with Verus; the program around it
talks to the terminal, the network, the files and the clipboard.

## Layout

- `src/` — the verified library.
  - `text.rs`: character-level helpers (trimming, lines, decimal digits, UTF-8
    lengths) with their specifications.
  - `format.rs`: thousands separators, HTTP failure messages, error messages
    for display, the order of match fields, dates.
  - `api.rs`: the player data, the FACEIT API's addresses and answers.
  - `config.rs`: finding and writing keys in configuration texts, with the laws
    that a written key reads back, that other keys keep their values, and that
    a saved theme loads back.
  - `app.rs`: the viewer's state, scroll positions included, and how keys,
    mouse events, ticks and the results of outside work change it; the
    invariant every step keeps.
  - `summary.rs`: the texts an AI analysis is asked with.
  - `stream.rs`: the AI chat request and the parsing of its event stream,
    which does not depend on where the stream is split.
  - `view.rs`: what the screens show: table rows, the player card, titles,
    key hints and the placement of boxes.
- `app/` — the program: terminal events, drawing with ratatui, HTTP with
  reqwest, files, clipboard and the loop that performs the work each step of
  the library asks for.
- `tests/` — tests of the library on concrete values.

## Configuration

The FACEIT API key comes from `FACEIT_API_KEY`, from an `api_key = "..."`
line in `config.toml`, `faceit-stats.toml` or `.faceit-stats` (in the working
directory, the program's directory or the home directory), or from the build.
The AI key comes from `AI_API_KEY`, or is asked for on first use and kept in
memory for the session. `FACITER_THEME` or a `theme = "..."` line picks the
colour theme.
