# legs

A terminal viewer for R data frames, matrices, lists and vectors, called
from R as `legs::view()`. This crate holds the viewer's logic, verified
with Verus; `app/` is the R entry point and terminal front end around it.

## Layout

- `src/schema.rs`: the displayed columns of a nested object, their names
  and paths, row counts and the R positions of row slices.
- `src/col_layout.rs`, `src/col_fit.rs`: which columns fit on screen,
  chosen one measured column at a time, and the laws the choice keeps.
- `src/viewer.rs`, `src/movement.rs`: one table view, its cursor and its
  scrolling, with the laws of count prefixes and of staying in the table.
- `src/app.rs`, `src/update.rs`: the stack of views and what each key and
  mouse wheel event does.
- `src/format.rs`, `src/index_col.rs`, `src/yank.rs`, `src/help.rs`,
  `src/print.rs`: formatted cells, row labels, copied text, the help
  screen and the ANSI text of the last frame.
- `src/term.rs`, `src/text.rs`: the calls into `ansi-to-tui` and `ratatui`,
  and string helpers.
- `app/`: R calls through `extendr-api`, terminal I/O, drawing and the
  clipboard.

## Key bindings

| Key | Action |
|----|----|
| `hjkl` (or arrow keys) | Move the cursor one row or column |
| `HJKL` (or Shift + arrow keys) | Scroll one window |
| `g`, `G`, `<n>G` | Go to the first, last or `<n>`-th row |
| `^`, `$` | Go to the first or last column |
| `t`, `<n>t` | Toggle truncation, or truncate to `<n>` characters (at least 30) |
| `Enter`, `esc` | Open the selected cell, go back to its parent |
| `y` | Copy the selected cell |
| `?`, `q` | Show the help screen, quit |

Movement keys take a count prefix: `5j` moves five rows down.
