//! The renderer: paints a window of the grid onto the local terminal.

use vstd::prelude::*;

use crate::grid;
use crate::grid::{Cell, CellView, Grid, GridView, Row};
use crate::text;

verus! {

/// A selection on the grid: its first and its last position.
pub type Selection = Option<((nat, nat), (nat, nat))>;

/// The selection that a pair of positions stands for.
pub open spec fn selection(sel: Option<((usize, usize), (usize, usize))>) -> Selection {
    match sel {
        Some((s, e)) => Some((grid::pos(s), grid::pos(e))),
        None => None,
    }
}

/// Does the selection hold the position?
pub open spec fn selected(sel: Selection, row: nat, col: nat) -> bool {
    match sel {
        Some((s, e)) => grid::selects((row, col), s, e),
        None => false,
    }
}

/// The style of a slot: one that was never printed has the default style.
pub open spec fn slot_style(slot: Option<CellView>) -> Seq<char> {
    match slot {
        Some(cell) => cell.sgr,
        None => "\x1b[0m"@,
    }
}

/// The sequences that select a style, reversed for what is selected.
pub open spec fn style_ansi(style: Seq<char>, reverse: bool) -> Seq<char> {
    (if style.len() == 0 {
        "\x1b[0m"@
    } else {
        style
    }) + (if reverse {
        "\x1b[7m"@
    } else {
        Seq::empty()
    })
}

/// What paints column `col` of grid row `r`, whose cells are `row`: its character,
/// behind its style where that is not the style of the column before.
pub open spec fn cell_ansi(row: Row, sel: Selection, r: nat, col: int) -> Seq<char> {
    let style = slot_style(grid::slot_at(row, col));
    let reverse = selected(sel, r, col as nat);
    let same = col > 0 && style == slot_style(grid::slot_at(row, col - 1)) && reverse == selected(
        sel,
        r,
        (col - 1) as nat,
    );
    (if same {
        Seq::empty()
    } else {
        style_ansi(style, reverse)
    }).push(grid::slot_char(grid::slot_at(row, col)))
}

/// What paints the first `cols` columns of grid row `r`, whose cells are `row`.
pub open spec fn line_ansi(row: Row, sel: Selection, r: nat, cols: nat) -> Seq<char> {
    Seq::new(cols, |col: int| cell_ansi(row, sel, r, col)).flatten()
}

/// A terminal to paint on, and what to paint there.
pub struct Canvas {
    pub grid: GridView,
    pub cols: nat,
    pub rows: nat,
    pub sel: Selection,
}

impl Canvas {
    /// The grid row that is shown in row `r` of the terminal.
    pub open spec fn grid_row(self, r: nat) -> nat {
        r + self.grid.window_offset(self.rows)
    }

    /// The cells of that row; there are none below the grid.
    pub open spec fn cells(self, r: nat) -> Row {
        if self.grid_row(r) < self.grid.rows.len() {
            self.grid.rows[self.grid_row(r) as int]
        } else {
            Seq::empty()
        }
    }

    /// How many columns are painted.
    pub open spec fn painted_cols(self) -> nat {
        if self.cols < self.grid.width {
            self.cols
        } else {
            self.grid.width
        }
    }

    /// What row `r` of the terminal shows: the status in the last row where there is
    /// one, and else the cells of the grid row.
    pub open spec fn row_ansi(self, status: Seq<char>, r: nat) -> Seq<char> {
        if r + 1 == self.rows && status.len() > 0 {
            "\x1b[0;7m "@ + status + " \x1b[0m\x1b[K"@
        } else {
            line_ansi(self.cells(r), self.sel, self.grid_row(r), self.painted_cols())
                + "\x1b[0m\x1b[K"@
        }
    }

    /// The cursor is on the window and shown: no status hides it.
    pub open spec fn shows_cursor(self, status: Seq<char>) -> bool {
        let offset = self.grid.window_offset(self.rows);
        &&& self.grid.cursor_visible
        &&& offset <= self.grid.cursor_row < offset + self.rows
        &&& status.len() == 0
    }

    /// The 0-based row of the terminal that the cursor is in, if it is shown.
    pub open spec fn cursor_row(self) -> nat {
        (self.grid.cursor_row - self.grid.window_offset(self.rows)) as nat
    }

    /// The 0-based column of the terminal that the cursor is in. One that is beyond the
    /// last column is put there.
    pub open spec fn cursor_col(self) -> nat {
        if self.grid.cursor_col < self.cols {
            self.grid.cursor_col
        } else if self.cols > 0 {
            (self.cols - 1) as nat
        } else {
            0
        }
    }

    /// What puts the cursor where it is, if it is shown.
    pub open spec fn cursor_ansi(self, status: Seq<char>) -> Seq<char> {
        if self.shows_cursor(status) {
            "\x1b["@ + text::decimal(self.cursor_row() + 1) + ";"@ + text::decimal(
                self.cursor_col() + 1,
            ) + "H\x1b[?25h"@
        } else {
            Seq::empty()
        }
    }
}

/// What a renderer knows of the terminal: what each row shows, as far as it has
/// painted it, how many rows the terminal had when it was last painted, and the status
/// to show.
pub struct RendererView {
    pub last_rows: Seq<Option<Seq<char>>>,
    pub shown_rows: nat,
    pub status: Seq<char>,
}

impl RendererView {
    /// What row `r` of the terminal is known to show.
    pub open spec fn known(self, r: int) -> Option<Seq<char>> {
        if 0 <= r < self.last_rows.len() {
            self.last_rows[r]
        } else {
            None
        }
    }

    /// What brings row `r` of the terminal up to date: nothing, if it shows already
    /// what it should.
    pub open spec fn row_update(self, canvas: Canvas, r: int) -> Seq<char> {
        let painted = canvas.row_ansi(self.status, r as nat);
        if self.known(r) == Some(painted) {
            Seq::empty()
        } else {
            "\x1b["@ + text::decimal((r + 1) as nat) + ";1H"@ + painted
        }
    }

    /// What brings the first `n` rows up to date, row by row.
    pub open spec fn row_updates(self, canvas: Canvas, n: nat) -> Seq<Seq<char>> {
        Seq::new(n, |r: int| self.row_update(canvas, r))
    }

    /// What brings the whole terminal up to date, as one synchronized update with
    /// the cursor hidden meanwhile.
    pub open spec fn paint_ansi(self, canvas: Canvas) -> Seq<char> {
        "\x1b[?2026h\x1b[?25l"@ + self.row_updates(canvas, canvas.rows).flatten()
            + canvas.cursor_ansi(self.status) + "\x1b[?2026l"@
    }

    /// The renderer after the first `n` rows were brought up to date.
    pub open spec fn painted(self, canvas: Canvas, n: nat) -> RendererView {
        let len = if self.last_rows.len() < canvas.rows {
            canvas.rows
        } else {
            self.last_rows.len()
        };
        RendererView {
            last_rows: Seq::new(
                len,
                |r: int|
                    if r < n {
                        Some(canvas.row_ansi(self.status, r as nat))
                    } else {
                        self.known(r)
                    },
            ),
            ..self
        }
    }

    /// The renderer after the whole terminal was brought up to date.
    pub open spec fn after_paint(self, canvas: Canvas) -> RendererView {
        RendererView { shown_rows: canvas.rows, ..self.painted(canvas, canvas.rows) }
    }

    /// The renderer after it was told to trust nothing that it has painted.
    pub open spec fn invalidate(self) -> RendererView {
        RendererView { last_rows: Seq::empty(), ..self }
    }

    /// What it knows of the rows, without the last of them and without the last row of
    /// the terminal. The two are the same row unless the terminal has shrunk.
    pub open spec fn without_last_row(self) -> Seq<Option<Seq<char>>> {
        if self.last_rows.len() > 0 {
            let rows = self.last_rows.drop_last();
            if 0 < self.shown_rows <= rows.len() {
                rows.update(self.shown_rows - 1, None)
            } else {
                rows
            }
        } else {
            self.last_rows
        }
    }

    /// The renderer after it was given a status: it no longer trusts what the last row
    /// shows.
    pub open spec fn with_status(self, status: Seq<char>) -> RendererView {
        RendererView { last_rows: self.without_last_row(), status, ..self }
    }
}

/// Paints a window of the grid onto the local terminal, row by row, and leaves out
/// the rows that already show what they should.
pub struct Renderer {
    last_rows: Vec<Option<String>>,
    /// The rows of the terminal when it was last painted.
    shown_rows: usize,
    status_text: String,
}

/// What a cached row holds.
pub open spec fn cached_view(row: Option<String>) -> Option<Seq<char>> {
    match row {
        Some(s) => Some(s@),
        None => None,
    }
}

impl View for Renderer {
    type V = RendererView;

    closed spec fn view(&self) -> RendererView {
        RendererView {
            last_rows: Seq::new(
                self.last_rows@.len(),
                |r: int| cached_view(self.last_rows@[r]),
            ),
            shown_rows: self.shown_rows as nat,
            status: self.status_text@,
        }
    }
}

/// What paints the first `cols` columns of grid row `r`, whose cells are `cells`.
fn paint_line(
    cells: &Vec<Option<Cell>>,
    r: usize,
    cols: usize,
    sel: Option<((usize, usize), (usize, usize))>,
) -> (line: String)
    ensures
        line@ == line_ansi(grid::row_view(cells@), selection(sel), r as nat, cols as nat),
{
    let ghost row = grid::row_view(cells@);
    let ghost s = selection(sel);
    let mut line = String::new();
    let mut prev: Option<(&str, bool)> = None;
    assert(Seq::new(0, |col: int| cell_ansi(row, s, r as nat, col)) =~= Seq::<Seq<char>>::empty());
    for c in 0..cols
        invariant
            row == grid::row_view(cells@),
            s == selection(sel),
            line@ == Seq::new(c as nat, |col: int| cell_ansi(row, s, r as nat, col)).flatten(),
            match prev {
                Some((style, reverse)) => c > 0 && style@ == slot_style(grid::slot_at(row, c - 1))
                    && reverse == selected(s, r as nat, (c - 1) as nat),
                None => c == 0,
            },
    {
        let ghost before = line@;
        let slot: Option<&Cell> = if c < cells.len() {
            cells[c].as_ref()
        } else {
            None
        };
        let style: &str = match slot {
            Some(cell) => &*cell.sgr,
            None => "\x1b[0m",
        };
        let reverse = match sel {
            Some((from, to)) => grid::in_selection((r, c), from, to),
            None => false,
        };
        let same = match prev {
            Some((prev_style, prev_reverse)) => prev_reverse == reverse && text::same_text(
                prev_style,
                style,
            ),
            None => false,
        };
        if !same {
            line.append(
                if style.is_empty() {
                    "\x1b[0m"
                } else {
                    style
                },
            );
            if reverse {
                line.append("\x1b[7m");
            }
            prev = Some((style, reverse));
        }
        line.push(
            match slot {
                Some(cell) => cell.ch,
                None => ' ',
            },
        );
        proof {
            let done = Seq::new(c as nat, |col: int| cell_ansi(row, s, r as nat, col));
            let piece = cell_ansi(row, s, r as nat, c as int);
            assert(line@ =~= before + piece);
            assert(Seq::new((c + 1) as nat, |col: int| cell_ansi(row, s, r as nat, col))
                =~= done.push(piece));
            done.lemma_flatten_push(piece);
        }
    }
    line
}

impl Default for Renderer {
    fn default() -> (r: Renderer)
        ensures
            r@ == (RendererView { last_rows: Seq::empty(), shown_rows: 0, status: Seq::empty() }),
    {
        let r = Renderer { last_rows: Vec::new(), shown_rows: 0, status_text: String::new() };
        assert(r@.last_rows =~= Seq::empty());
        r
    }
}

impl Renderer {
    /// A renderer that knows nothing of the terminal and has no status to show.
    pub fn new() -> (r: Renderer)
        ensures
            r@ == (RendererView { last_rows: Seq::empty(), shown_rows: 0, status: Seq::empty() }),
    {
        Renderer::default()
    }

    /// Forgets what the terminal shows, so that the next `paint` paints every row.
    pub fn invalidate(&mut self)
        ensures
            final(self)@ == old(self)@.invalidate(),
    {
        self.last_rows.clear();
        assert(self@.last_rows =~= Seq::empty());
    }

    /// Sets the status to show in the last row; an empty one shows none.
    pub fn status(&mut self, text: &str)
        ensures
            final(self)@ == old(self)@.with_status(text@),
    {
        self.status_text = text.to_string();
        // force the last row to be painted; on a terminal that has shrunk, rows below it
        // are still known
        let _ = self.last_rows.pop();
        if 0 < self.shown_rows && self.shown_rows <= self.last_rows.len() {
            let i: usize = self.shown_rows - 1;
            self.last_rows[i] = None;
        }
        assert(self@.last_rows =~= old(self)@.with_status(text@).last_rows);
    }

    /// The ANSI that paints the grid into a terminal of `out_cols` columns and
    /// `out_rows` rows.
    ///
    /// The window is anchored at the bottom: agent interfaces live at the bottom of
    /// the screen. Every row of the terminal is painted, with blanks where the grid
    /// has none, or the pane would stay blank before the first frame and the row of
    /// the status be out of reach. `sel` is an inclusive selection on the grid, shown
    /// in reverse video.
    pub fn paint(
        &mut self,
        grid: &Grid,
        out_cols: usize,
        out_rows: usize,
        sel: Option<((usize, usize), (usize, usize))>,
    ) -> (out: String)
        requires
            grid.content_bottom < usize::MAX,
            grid.cursor_row < usize::MAX,
        ensures
            out@ == old(self)@.paint_ansi(
                (Canvas {
                    grid: grid@,
                    cols: out_cols as nat,
                    rows: out_rows as nat,
                    sel: selection(sel),
                }),
            ),
            final(self)@ == old(self)@.after_paint(
                (Canvas {
                    grid: grid@,
                    cols: out_cols as nat,
                    rows: out_rows as nat,
                    sel: selection(sel),
                }),
            ),
    {
        let ghost canvas = Canvas {
            grid: grid@,
            cols: out_cols as nat,
            rows: out_rows as nat,
            sel: selection(sel),
        };
        let ghost before = self@;
        let offset = grid.window_offset(out_rows);
        let cols = if out_cols < grid.width {
            out_cols
        } else {
            grid.width
        };
        let mut out = String::new();
        out.append("\x1b[?2026h\x1b[?25l");
        let ghost head = out@;
        while self.last_rows.len() < out_rows
            invariant
                self@.status == before.status,
                self@.shown_rows == before.shown_rows,
                before.last_rows.len() <= self@.last_rows.len(),
                self@.last_rows.len() <= before.last_rows.len() || self@.last_rows.len()
                    <= out_rows,
                forall|r: int|
                    0 <= r < self@.last_rows.len() ==> #[trigger] self@.last_rows[r]
                        == before.known(r),
            decreases out_rows - self.last_rows@.len(),
        {
            let ghost rows = self@.last_rows;
            self.last_rows.push(None);
            assert(self@.last_rows =~= rows.push(None));
        }
        let empty: Vec<Option<Cell>> = Vec::new();
        proof {
            assert(self@.last_rows =~= before.painted(canvas, 0).last_rows);
            assert(before.row_updates(canvas, 0) =~= Seq::empty());
            assert(grid::row_view(empty@) =~= Seq::empty());
        }
        for r in 0..out_rows
            invariant
                canvas == (Canvas {
                    grid: grid@,
                    cols: out_cols as nat,
                    rows: out_rows as nat,
                    sel: selection(sel),
                }),
                offset == grid@.window_offset(out_rows as nat),
                grid.content_bottom < usize::MAX,
                grid.cursor_row < usize::MAX,
                cols == canvas.painted_cols(),
                grid::row_view(empty@) == Seq::<Option<CellView>>::empty(),
                self@ == before.painted(canvas, r as nat),
                out@ == head + before.row_updates(canvas, r as nat).flatten(),
        {
            let ghost line = out@;
            let i = r + offset;
            let cells = if i < grid.rows.len() {
                &grid.rows[i]
            } else {
                &empty
            };
            assert(grid::row_view(cells@) == canvas.cells(r as nat));
            let mut painted = String::new();
            if r == out_rows - 1 && !self.status_text.as_str().is_empty() {
                painted.append("\x1b[0;7m ");
                painted.append(self.status_text.as_str());
                painted.append(" \x1b[0m\x1b[K");
            } else {
                painted = paint_line(cells, i, cols, sel);
                painted.append("\x1b[0m\x1b[K");
            }
            assert(painted@ =~= canvas.row_ansi(before.status, r as nat));
            assert(self@.last_rows.len() == self.last_rows@.len());
            assert(self@.last_rows[r as int] == before.known(r as int));
            assert(self@.last_rows[r as int] == cached_view(self.last_rows@[r as int]));
            let known = match &self.last_rows[r] {
                Some(row) => *row == painted,
                None => false,
            };
            assert(known == (before.known(r as int) == Some(painted@)));
            if !known {
                out.append("\x1b[");
                text::push_decimal(&mut out, r + 1);
                out.append(";1H");
                out.append(painted.as_str());
                let ghost rows = self@.last_rows;
                self.last_rows[r] = Some(painted);
                assert(self@.last_rows =~= rows.update(r as int, Some(painted@)));
            }
            proof {
                let piece = before.row_update(canvas, r as int);
                let done = before.row_updates(canvas, r as nat);
                assert(out@ =~= line + piece);
                assert(before.row_updates(canvas, (r + 1) as nat) =~= done.push(piece));
                done.lemma_flatten_push(piece);
                assert(out@ =~= head + before.row_updates(canvas, (r + 1) as nat).flatten());
                assert(self@.last_rows =~= before.painted(canvas, (r + 1) as nat).last_rows);
            }
        }
        if grid.cursor_visible && offset <= grid.cursor_row && grid.cursor_row - offset < out_rows
            && self.status_text.as_str().is_empty() {
            let col = if grid.cursor_col < out_cols {
                grid.cursor_col + 1
            } else if out_cols > 0 {
                out_cols
            } else {
                1
            };
            let ghost line = out@;
            out.append("\x1b[");
            text::push_decimal(&mut out, grid.cursor_row - offset + 1);
            out.append(";");
            text::push_decimal(&mut out, col);
            out.append("H\x1b[?25h");
            assert(out@ =~= line + canvas.cursor_ansi(before.status));
        }
        out.append("\x1b[?2026l");
        self.shown_rows = out_rows;
        assert(self@.last_rows =~= before.after_paint(canvas).last_rows);
        assert(out@ =~= before.paint_ansi(canvas));
        out
    }
}

} // verus!
