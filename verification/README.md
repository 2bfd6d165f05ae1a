# gpui_term

A verified core for a terminal component and a non-interactive SSH password
helper.

- `src/color.rs`: named colors, the 256-color palette and direct colors as RGB.
- `src/cell.rs`, `src/text_run.rs`: grid cells, their text style, batched text runs.
- `src/background.rs`: background regions and their merging.
- `src/layout.rs`: the pass over the grid that yields text runs and background
  rectangles, with its laws (what is painted, what text is drawn).
- `src/cursor.rs`: cursor position, whether it is on screen, and its drawing shape.
- `src/view.rs`: the view's bell indicator and what a mouse press does.
- `src/middleware.rs`: input middleware.
- `src/sshpass.rs`, `src/text.rs`, `src/pty.rs`, `src/error.rs`, `src/outside.rs`:
  password sources, the connection builder, the `ssh` command line, the
  decisions of a running session (timeout, reads, prompt), and its outcome.
- `app/`: reading files and the environment, running `ssh` in a
  pseudo-terminal, and converting the terminal emulator's cells.
