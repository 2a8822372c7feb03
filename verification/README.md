# pane_mirror

Panes that mirror a remote terminal: a verified Verus library, and the program code
around it.

- `src/text.rs`: white space, decimal numbers, `;`-separated fields.
- `src/escape.rs`: the escape sequences of a frame, and a frame as a sequence of pieces.
- `src/grid.rs`: the cell grid, the decoder that applies frames to it, the text of its
  rows and of selections.
- `src/render.rs`: the renderer, which paints a window of the grid onto a terminal and
  leaves out the rows that did not change.
- `src/adopt.rs`: the rules of an adopt pass, which replaces local strays with remote
  workspaces and splits.
- `src/frames.rs`, `src/laws.rs`, `src/screen.rs`, `src/adopt_laws.rs`: what holds of the
  library as a whole. Per-cell frames are decoded completely; what is copied is what is
  highlighted; whatever was painted before, a terminal shows what it should after each
  paint, in its style; stray panes are located before any is closed, and left alone where
  their host is unreachable (`law_unreachable_host_leaves_strays`); only who wins the close
  of a stray workspace creates.
- `app/`: the lock, the connections and the loop of an adopt run.

Two facts about the standard library are taken on trust: what `String::push` does, and
what `Rc::<str>::from(String)` holds.
