//! The cell grid, and the decoder that applies frames to it.
//!
//! Frame wire format: a frame is strictly per cell, `ESC[r;cH ESC[..m <char>`, with
//! a trailing cursor position and `?25h` / `?25l` for its visibility. There are no
//! scroll regions and no relative moves, so a cell grid and a small parser are a
//! complete decoder; no terminal emulator is needed.

use std::rc::Rc;

use vstd::prelude::*;

use crate::escape;
use crate::escape::Token;
use crate::text;

verus! {

/// One printed character and the style it is printed in.
#[derive(Clone, PartialEq)]
pub struct Cell {
    /// Shared: runs of cells hold one allocation.
    pub sgr: Rc<str>,
    pub ch: char,
}

/// What a cell holds.
pub struct CellView {
    pub sgr: Seq<char>,
    pub ch: char,
}

/// One row of cells; `None` is a cell that was never printed.
pub type Row = Seq<Option<CellView>>;

/// A screen of printed cells, with the cursor on it.
pub struct Grid {
    pub rows: Vec<Vec<Option<Cell>>>,
    pub width: usize,
    pub height: usize,
    pub cursor_row: usize,
    pub cursor_col: usize,
    pub cursor_visible: bool,
    /// 0-based last row with non-blank content
    pub content_bottom: usize,
    /// Reused decode buffer: frames arrive many times a second. What it holds
    /// between two frames means nothing.
    pub scratch: Vec<char>,
}

/// What a grid holds.
pub struct GridView {
    pub rows: Seq<Row>,
    pub width: nat,
    pub height: nat,
    pub cursor_row: nat,
    pub cursor_col: nat,
    pub cursor_visible: bool,
    pub content_bottom: nat,
}

impl View for Cell {
    type V = CellView;

    open spec fn view(&self) -> CellView {
        CellView { sgr: self.sgr@, ch: self.ch }
    }
}

/// What a slot of the grid holds.
pub open spec fn slot_view(slot: Option<Cell>) -> Option<CellView> {
    match slot {
        Some(cell) => Some(cell@),
        None => None,
    }
}

/// What a row of the grid holds.
pub open spec fn row_view(row: Seq<Option<Cell>>) -> Row {
    Seq::new(row.len(), |c: int| slot_view(row[c]))
}

/// What the rows of the grid hold.
pub open spec fn rows_view(rows: Seq<Vec<Option<Cell>>>) -> Seq<Row> {
    Seq::new(rows.len(), |r: int| row_view(rows[r]@))
}

impl View for Grid {
    type V = GridView;

    open spec fn view(&self) -> GridView {
        GridView {
            rows: rows_view(self.rows@),
            width: self.width as nat,
            height: self.height as nat,
            cursor_row: self.cursor_row as nat,
            cursor_col: self.cursor_col as nat,
            cursor_visible: self.cursor_visible,
            content_bottom: self.content_bottom as nat,
        }
    }
}

/// `height` rows of `width` cells that were never printed.
pub open spec fn blank_rows(width: nat, height: nat) -> Seq<Row> {
    Seq::new(height, |r: int| Seq::new(width, |c: int| None))
}

/// The character that a slot shows: one that was never printed shows a space.
pub open spec fn slot_char(slot: Option<CellView>) -> char {
    match slot {
        Some(cell) => cell.ch,
        None => ' ',
    }
}

/// The slot in column `col` of a row; there is nothing behind its end.
pub open spec fn slot_at(row: Row, col: int) -> Option<CellView> {
    if 0 <= col < row.len() {
        row[col]
    } else {
        None
    }
}

/// The characters that a row shows.
pub open spec fn row_chars(row: Row) -> Seq<char> {
    Seq::new(row.len(), |c: int| slot_char(row[c]))
}

/// Some cell of the row shows something other than a space.
pub open spec fn has_ink(row: Row) -> bool {
    exists|c: int| 0 <= c < row.len() && slot_char(#[trigger] row[c]) != ' '
}

/// The last row with ink, or 0 if there is none.
pub open spec fn bottom_row(rows: Seq<Row>) -> nat
    decreases rows.len(),
{
    if rows.len() == 0 {
        0
    } else if has_ink(rows.last()) {
        (rows.len() - 1) as nat
    } else {
        bottom_row(rows.drop_last())
    }
}

/// The text of a row: what it shows, without the white space at its end.
pub open spec fn row_text(row: Row) -> Seq<char> {
    text::trim_end(row_chars(row))
}

/// The row is non-blank up to its last column: the line that it starts goes on in
/// the next row.
pub open spec fn runs_on(row: Row) -> bool {
    row.len() > 0 && slot_char(row.last()) != ' '
}

/// A position, as a pair of row and column.
pub open spec fn pos(p: (usize, usize)) -> (nat, nat) {
    (p.0 as nat, p.1 as nat)
}

/// `p` does not come after `q` in reading order.
pub open spec fn pos_le(p: (nat, nat), q: (nat, nat)) -> bool {
    p.0 < q.0 || (p.0 == q.0 && p.1 <= q.1)
}

/// `p` lies between `s` and `e` in reading order, both included.
pub open spec fn selects(p: (nat, nat), s: (nat, nat), e: (nat, nat)) -> bool {
    pos_le(s, p) && pos_le(p, e)
}

/// The state of the decoder in the middle of a frame.
pub struct Pen {
    pub rows: Seq<Row>,
    pub row: nat,
    pub col: nat,
    pub sgr: Seq<char>,
    pub visible: bool,
}

/// The column after `col`; the counter wraps where it would not fit.
pub open spec fn next_col(col: nat) -> nat {
    if col >= usize::MAX {
        0
    } else {
        col + 1
    }
}

/// `rows` with `cell` at `row`, `col`.
pub open spec fn put(rows: Seq<Row>, row: int, col: int, cell: CellView) -> Seq<Row> {
    rows.update(row, rows[row].update(col, Some(cell)))
}

/// What one piece of a frame does to the decoder. What is printed outside of the
/// grid is lost.
pub open spec fn step(pen: Pen, width: nat, height: nat, token: Token) -> Pen {
    match token {
        Token::Goto { row, col } => Pen { row, col, ..pen },
        Token::Style(sgr) => Pen { sgr, ..pen },
        Token::Erase => Pen { rows: blank_rows(width, height), ..pen },
        Token::Cursor(visible) => Pen { visible, ..pen },
        Token::Print(ch) => Pen {
            rows: if pen.row < height && pen.col < width {
                put(pen.rows, pen.row as int, pen.col as int, CellView { sgr: pen.sgr, ch })
            } else {
                pen.rows
            },
            col: next_col(pen.col),
            ..pen
        },
        Token::Skip => pen,
    }
}

/// What a sequence of pieces does to the decoder.
pub open spec fn run(pen: Pen, width: nat, height: nat, tokens: Seq<Token>) -> Pen
    decreases tokens.len(),
{
    if tokens.len() == 0 {
        pen
    } else {
        run(step(pen, width, height, tokens[0]), width, height, tokens.skip(1))
    }
}

impl GridView {
    /// The decoder at the start of a frame: at the top left, with no style.
    pub open spec fn start(self) -> Pen {
        Pen { rows: self.rows, row: 0, col: 0, sgr: Seq::empty(), visible: self.cursor_visible }
    }

    /// The grid after a frame that left the decoder in state `pen`: the position at
    /// which the frame ends is the cursor.
    pub open spec fn finish(self, pen: Pen) -> GridView {
        GridView {
            rows: pen.rows,
            cursor_row: pen.row,
            cursor_col: pen.col,
            cursor_visible: pen.visible,
            content_bottom: bottom_row(pen.rows),
            ..self
        }
    }

    /// The grid after the frame `ansi`.
    pub open spec fn apply(self, ansi: Seq<char>) -> GridView {
        self.finish(run(self.start(), self.width, self.height, escape::tokens(ansi)))
    }

    /// The grid blanked: the dimensions and the cursor stay.
    pub open spec fn clear(self) -> GridView {
        GridView { rows: blank_rows(self.width, self.height), content_bottom: 0, ..self }
    }

    /// The grid at the given dimensions: blanked if they are new.
    pub open spec fn resize(self, width: nat, height: nat) -> GridView {
        if width == self.width && height == self.height {
            self
        } else {
            (GridView { width, height, ..self }).clear()
        }
    }

    /// The last row with content or the cursor on it.
    pub open spec fn bottom(self) -> nat {
        if self.content_bottom > self.cursor_row {
            self.content_bottom
        } else {
            self.cursor_row
        }
    }

    /// The first row shown in a window of `out_rows` rows that ends at the bottom.
    pub open spec fn window_offset(self, out_rows: nat) -> nat {
        if self.bottom() + 1 > out_rows {
            (self.bottom() + 1 - out_rows) as nat
        } else {
            0
        }
    }

    /// The last row of a selection that ends at `end`: one that goes on below the
    /// grid ends with the grid.
    pub open spec fn last_selected(self, end: (nat, nat)) -> nat {
        if self.height == 0 {
            0
        } else if end.0 < self.height {
            end.0
        } else {
            (self.height - 1) as nat
        }
    }

    /// The characters of row `r` that lie in the selection. A row that is shorter than
    /// the grid shows spaces behind its end.
    pub open spec fn selected_chars(self, start: (nat, nat), end: (nat, nat), r: int) -> Seq<char> {
        let from = if r == start.0 {
            start.1 as int
        } else {
            0
        };
        let to = if r == end.0 && end.1 < self.width {
            end.1 as int + 1
        } else {
            self.width as int
        };
        Seq::new(
            if from < to {
                (to - from) as nat
            } else {
                0
            },
            |k: int| slot_char(slot_at(self.rows[r], from + k)),
        )
    }

    /// What row `r` adds to the text of the selection. A row that runs on joins the
    /// next as it is; any other but the last is trimmed and ends its line.
    pub open spec fn excerpt(self, start: (nat, nat), end: (nat, nat), r: int) -> Seq<char> {
        let chars = self.selected_chars(start, end, r);
        if r == self.last_selected(end) {
            text::trim_end(chars)
        } else if runs_on(self.rows[r]) {
            chars
        } else {
            text::trim_end(chars).push('\n')
        }
    }

    /// What the rows of the selection above row `r` add to its text, row by row.
    pub open spec fn excerpts(self, start: (nat, nat), end: (nat, nat), r: int) -> Seq<Seq<char>> {
        Seq::new(
            if r > start.0 {
                (r - start.0) as nat
            } else {
                0
            },
            |k: int| self.excerpt(start, end, start.0 + k),
        )
    }

    /// The text of the selection from `start` to `end`, both included.
    pub open spec fn extract_text(self, start: (nat, nat), end: (nat, nat)) -> Seq<char> {
        self.excerpts(start, end, self.last_selected(end) as int + 1).flatten()
    }

    /// The rows agree with the dimensions.
    pub open spec fn well_shaped(self) -> bool {
        &&& self.rows.len() == self.height
        &&& forall|r: int| 0 <= r < self.height ==> (#[trigger] self.rows[r]).len() == self.width
    }

    /// What every grid satisfies that is made and changed by its methods alone.
    pub open spec fn wf(self) -> bool {
        &&& self.well_shaped()
        &&& self.content_bottom == bottom_row(self.rows)
        &&& self.content_bottom < self.height || self.content_bottom == 0
        &&& self.cursor_row < usize::MAX
    }
}

/// `bottom_row` is the last row with ink: nothing below it has any, and it has
/// itself unless the whole grid is blank.
pub proof fn lemma_bottom_row(rows: Seq<Row>)
    ensures
        rows.len() > 0 ==> bottom_row(rows) < rows.len(),
        rows.len() == 0 ==> bottom_row(rows) == 0,
        forall|r: int| bottom_row(rows) < r < rows.len() ==> !has_ink(#[trigger] rows[r]),
        bottom_row(rows) > 0 ==> has_ink(rows[bottom_row(rows) as int]),
        (exists|r: int| 0 <= r < rows.len() && has_ink(#[trigger] rows[r])) ==> has_ink(
            rows[bottom_row(rows) as int],
        ),
    decreases rows.len(),
{
    if rows.len() > 0 && !has_ink(rows.last()) {
        let t = rows.drop_last();
        lemma_bottom_row(t);
        assert forall|r: int| bottom_row(rows) < r < rows.len() implies !has_ink(
            #[trigger] rows[r],
        ) by {
            if r < t.len() {
                assert(rows[r] == t[r]);
            }
        }
        if exists|r: int| 0 <= r < rows.len() && has_ink(#[trigger] rows[r]) {
            let r = choose|r: int| 0 <= r < rows.len() && has_ink(#[trigger] rows[r]);
            assert(t[r] == rows[r]);
        }
        if bottom_row(rows) > 0 {
            assert(t[bottom_row(t) as int] == rows[bottom_row(rows) as int]);
        }
    }
}

/// Where row `n - 1` has ink and no row from `n` on has, it is the bottom; where `n` is
/// 0, no row has any.
pub proof fn lemma_bottom_row_is(rows: Seq<Row>, n: nat)
    requires
        n <= rows.len(),
        forall|r: int| n <= r < rows.len() ==> !has_ink(#[trigger] rows[r]),
        n > 0 ==> has_ink(rows[n - 1]),
    ensures
        bottom_row(rows) == if n > 0 {
            (n - 1) as nat
        } else {
            0
        },
{
    lemma_bottom_row(rows);
}

/// A blank grid has its bottom at the top.
pub proof fn lemma_bottom_row_blank(width: nat, height: nat)
    ensures
        bottom_row(blank_rows(width, height)) == 0,
{
    lemma_bottom_row_is(blank_rows(width, height), 0);
}

/// To run a nonempty frame is to run its first piece and then the rest.
pub proof fn lemma_run_first(pen: Pen, width: nat, height: nat, s: Seq<char>)
    requires
        s.len() > 0,
    ensures
        run(pen, width, height, escape::tokens(s)) == run(
            step(pen, width, height, escape::first_token(s).0),
            width,
            height,
            escape::tokens(s.skip(escape::first_token(s).1 as int)),
        ),
{
    let (t, n) = escape::first_token(s);
    let rest = escape::tokens(s.skip(n as int));
    assert(escape::tokens(s) == seq![t] + rest);
    assert(escape::tokens(s).skip(1) =~= rest);
}

/// `Rc::<str>::from(String)` makes a shared string slice that holds the characters
/// of the string.
#[verifier::external_body]
fn shared(s: String) -> (r: Rc<str>)
    ensures
        r@ == s@,
{
    Rc::from(s)
}

/// A row of cells that were never printed.
fn blank_row(width: usize) -> (row: Vec<Option<Cell>>)
    ensures
        row@ == Seq::<Option<Cell>>::new(width as nat, |c: int| None),
{
    let mut row: Vec<Option<Cell>> = Vec::new();
    for c in 0..width
        invariant
            row@ == Seq::<Option<Cell>>::new(c as nat, |c: int| None),
    {
        row.push(None);
    }
    row
}

/// Does some cell of the row show something other than a space?
fn inked(row: &Vec<Option<Cell>>) -> (b: bool)
    ensures
        b == has_ink(row_view(row@)),
{
    let ghost v = row_view(row@);
    for c in 0..row.len()
        invariant
            v == row_view(row@),
            forall|j: int| 0 <= j < c ==> slot_char(#[trigger] v[j]) == ' ',
    {
        if let Some(cell) = &row[c] {
            if cell.ch != ' ' {
                assert(slot_char(v[c as int]) != ' ');
                return true;
            }
        }
    }
    false
}

/// The last row with ink, or 0 if there is none.
fn find_bottom(rows: &Vec<Vec<Option<Cell>>>) -> (n: usize)
    ensures
        n == bottom_row(rows_view(rows@)),
{
    let ghost v = rows_view(rows@);
    let mut n: usize = rows.len();
    while n > 0 && !inked(&rows[n - 1])
        invariant
            v == rows_view(rows@),
            n <= rows@.len(),
            forall|r: int| n <= r < rows@.len() ==> !has_ink(#[trigger] v[r]),
        decreases n,
    {
        n = n - 1;
    }
    proof {
        lemma_bottom_row_is(v, n as nat);
    }
    if n > 0 {
        n - 1
    } else {
        0
    }
}

/// The character that a slot shows.
fn shown(slot: &Option<Cell>) -> (ch: char)
    ensures
        ch == slot_char(slot_view(*slot)),
{
    match slot {
        Some(cell) => cell.ch,
        None => ' ',
    }
}

/// The characters that the columns `from..to` of a row show.
fn chars_of(row: &Vec<Option<Cell>>, from: usize, to: usize) -> (chars: Vec<char>)
    ensures
        chars@.len() == if from < to {
            to - from
        } else {
            0
        },
        forall|k: int|
            0 <= k < chars@.len() ==> #[trigger] chars@[k] == slot_char(
                slot_at(row_view(row@), from + k),
            ),
{
    let mut chars: Vec<char> = Vec::new();
    let mut c = from;
    while c < to
        invariant
            from <= c,
            c <= to || c == from,
            chars@.len() == c - from,
            forall|k: int|
                0 <= k < chars@.len() ==> #[trigger] chars@[k] == slot_char(
                    slot_at(row_view(row@), from + k),
                ),
        decreases to - c,
    {
        chars.push(
            if c < row.len() {
                shown(&row[c])
            } else {
                ' '
            },
        );
        c = c + 1;
    }
    chars
}

impl Default for Grid {
    fn default() -> (g: Grid)
        ensures
            g@ == (GridView {
                rows: Seq::empty(),
                width: 0,
                height: 0,
                cursor_row: 0,
                cursor_col: 0,
                cursor_visible: false,
                content_bottom: 0,
            }),
            g@.wf(),
    {
        let g = Grid {
            rows: Vec::new(),
            width: 0,
            height: 0,
            cursor_row: 0,
            cursor_col: 0,
            cursor_visible: false,
            content_bottom: 0,
            scratch: Vec::new(),
        };
        assert(g@.rows =~= Seq::empty());
        g
    }
}

impl Grid {
    /// An empty grid with a visible cursor.
    pub fn new() -> (g: Grid)
        ensures
            g@ == (GridView {
                rows: Seq::empty(),
                width: 0,
                height: 0,
                cursor_row: 0,
                cursor_col: 0,
                cursor_visible: true,
                content_bottom: 0,
            }),
            g@.wf(),
    {
        let mut g = Grid::default();
        g.cursor_visible = true;
        g
    }

    /// Gives the grid new dimensions, which blanks it; the dimensions that it has
    /// leave it as it is.
    pub fn resize(&mut self, width: usize, height: usize)
        ensures
            final(self)@ == old(self)@.resize(width as nat, height as nat),
            old(self)@.wf() ==> final(self)@.wf(),
    {
        if width == self.width && height == self.height {
            return;
        }
        self.width = width;
        self.height = height;
        self.clear();
    }

    /// Blanks the grid.
    pub fn clear(&mut self)
        ensures
            final(self)@ == old(self)@.clear(),
            final(self)@.well_shaped(),
            final(self)@.content_bottom == bottom_row(final(self)@.rows),
            old(self)@.wf() ==> final(self)@.wf(),
    {
        let mut rows: Vec<Vec<Option<Cell>>> = Vec::new();
        for r in 0..self.height
            invariant
                rows@.len() == r,
                forall|k: int|
                    0 <= k < r ==> (#[trigger] rows@[k])@ == Seq::<Option<Cell>>::new(
                        self.width as nat,
                        |c: int| None,
                    ),
        {
            rows.push(blank_row(self.width));
        }
        self.rows = rows;
        self.content_bottom = 0;
        proof {
            let blank = blank_rows(self.width as nat, self.height as nat);
            assert forall|r: int| 0 <= r < self.height implies self@.rows[r] =~= #[trigger] blank[r] by {
                assert(self.rows@[r]@ == Seq::<Option<Cell>>::new(self.width as nat, |c: int| None));
            }
            assert(self@.rows =~= blank);
            lemma_bottom_row_blank(self.width as nat, self.height as nat);
        }
    }

    /// Applies a frame.
    ///
    /// The position after the last piece of the frame is the cursor: a frame ends
    /// with an explicit cursor position, followed only by visibility toggles. The
    /// bottom of the content is found anew, as a frame can erase content with
    /// spaces, and a stale bottom would anchor the window onto blank rows. What is
    /// printed outside of the grid is lost, but counts as columns; the counter wraps
    /// where it would not fit.
    pub fn apply(&mut self, ansi: &str)
        requires
            old(self)@.well_shaped(),
        ensures
            final(self)@ == old(self)@.apply(ansi@),
            final(self)@.wf(),
    {
        let ghost before = self@;
        let ghost width = self@.width;
        let ghost height = self@.height;
        let mut chars: Vec<char> = Vec::new();
        std::mem::swap(&mut chars, &mut self.scratch);
        chars.clear();
        text::push_chars(&mut chars, ansi);
        let mut row: usize = 0;
        let mut col: usize = 0;
        let mut sgr: Rc<str> = shared(String::new());
        let mut i: usize = 0;
        assert(chars@ =~= ansi@);
        assert(chars@.skip(0) =~= ansi@);
        while i < chars.len()
            invariant
                i <= chars@.len(),
                row < usize::MAX,
                self@.well_shaped(),
                self@.width == width,
                self@.height == height,
                before.width == width,
                before.height == height,
                run(before.start(), width, height, escape::tokens(ansi@)) == run(
                    Pen {
                        rows: self@.rows,
                        row: row as nat,
                        col: col as nat,
                        sgr: sgr@,
                        visible: self.cursor_visible,
                    },
                    width,
                    height,
                    escape::tokens(chars@.skip(i as int)),
                ),
            decreases chars@.len() - i,
        {
            let ghost s = chars@.skip(i as int);
            let ghost pen = Pen {
                rows: self@.rows,
                row: row as nat,
                col: col as nat,
                sgr: sgr@,
                visible: self.cursor_visible,
            };
            proof {
                escape::lemma_first_token_len(s);
                lemma_run_first(pen, width, height, s);
                let n = escape::first_token(s).1 as int;
                assert(s.skip(n) =~= chars@.skip(i + n));
            }
            let ch = chars[i];
            if ch == '\x1b' {
                let rest = vstd::slice::slice_subrange(chars.as_slice(), i, chars.len());
                assert(rest@ =~= s);
                if let Some((params, letter, len)) = escape::parse_csi(rest) {
                    if letter == 'H' {
                        let target = escape::parse_target(params.as_slice());
                        row = target.0;
                        col = target.1;
                    } else if letter == 'm' {
                        let whole = vstd::slice::slice_subrange(rest, 0, len);
                        assert(whole@ =~= s.take(len as int));
                        sgr = shared(text::from_chars(whole));
                    } else if letter == 'J' {
                        self.clear();
                    } else if (letter == 'h' || letter == 'l') && params.len() == 3 && params[0]
                        == '?' && params[1] == '2' && params[2] == '5' {
                        assert(params@ =~= seq!['?', '2', '5']);
                        self.cursor_visible = letter == 'h';
                    }
                    i = i + len;
                    continue ;
                }
                if let Some(len) = escape::parse_osc(rest) {
                    i = i + len;
                    continue ;
                }
                // an escape of two characters, such as the selection of a character set
                i = if chars.len() - i < 2 {
                    chars.len()
                } else {
                    i + 2
                };
                continue ;
            }
            if ch >= ' ' || ch == '\t' {
                if row < self.height && col < self.width {
                    let cell = Cell {
                        sgr: sgr.clone(),
                        ch: if ch == '\t' {
                            ' '
                        } else {
                            ch
                        },
                    };
                    let ghost rows = self@.rows;
                    assert(self@.rows[row as int].len() == width);
                    self.rows[row][col] = Some(cell);
                    proof {
                        let after = put(rows, row as int, col as int, cell@);
                        assert(self@.rows[row as int] =~= after[row as int]);
                        assert(self@.rows =~= after);
                    }
                }
                col = col.wrapping_add(1);
            }
            i = i + 1;
        }
        self.scratch = chars;
        self.cursor_row = row;
        self.cursor_col = col;
        self.content_bottom = find_bottom(&self.rows);
        proof {
            lemma_bottom_row(self@.rows);
        }
    }

    /// The text of each row.
    pub fn text_lines(&self) -> (lines: Vec<String>)
        ensures
            lines@.len() == self@.rows.len(),
            forall|r: int|
                0 <= r < lines@.len() ==> (#[trigger] lines@[r])@ == row_text(self@.rows[r]),
    {
        let mut lines: Vec<String> = Vec::new();
        for r in 0..self.rows.len()
            invariant
                lines@.len() == r,
                forall|k: int| 0 <= k < r ==> (#[trigger] lines@[k])@ == row_text(self@.rows[k]),
        {
            let chars = chars_of(&self.rows[r], 0, self.rows[r].len());
            let line = text::from_chars_trimmed(chars.as_slice());
            assert(chars@ =~= row_chars(self@.rows[r as int]));
            lines.push(line);
        }
        lines
    }

    /// First grid row shown when painting into a window of `out_rows` rows, which is
    /// anchored at the bottom. Where positions of the mouse are mapped to the grid,
    /// the same formula has to be used, or highlights land one row off.
    pub fn window_offset(&self, out_rows: usize) -> (offset: usize)
        requires
            self.content_bottom < usize::MAX,
            self.cursor_row < usize::MAX,
        ensures
            offset == self@.window_offset(out_rows as nat),
    {
        let bottom = if self.content_bottom > self.cursor_row {
            self.content_bottom
        } else {
            self.cursor_row
        };
        (bottom + 1).saturating_sub(out_rows)
    }

    /// Text of the selection from `start` to `end`, both included, in reading order.
    /// A row that runs non-blank into its last column is a wrapped line and joins to
    /// the next row without a newline, so copied prose comes out as logical lines,
    /// not as screen rows.
    pub fn extract_text(&self, start: (usize, usize), end: (usize, usize)) -> (out: String)
        requires
            start.0 <= self@.last_selected(pos(end)) ==> self@.last_selected(pos(end))
                < self.rows@.len(),
            start.0 <= end.0 == self@.last_selected(pos(end)) ==> end.1 < usize::MAX,
        ensures
            out@ == self@.extract_text(pos(start), pos(end)),
    {
        let mut out = String::new();
        let last = if self.height == 0 {
            0
        } else if end.0 < self.height {
            end.0
        } else {
            self.height - 1
        };
        let ghost g = self@;
        let ghost s = pos(start);
        let ghost e = pos(end);
        let mut r = start.0;
        assert(g.excerpts(s, e, r as int) =~= Seq::empty());
        while r <= last
            invariant
                g == self@,
                s == pos(start),
                e == pos(end),
                start.0 <= last ==> last < self.rows@.len(),
                last == g.last_selected(e),
                start.0 <= r,
                r <= last + 1 || r == start.0,
                out@ == g.excerpts(s, e, r as int).flatten(),
            decreases last + 1 - r,
        {
            let from = if r == start.0 {
                start.1
            } else {
                0
            };
            let to = if r == end.0 && end.1 < self.width {
                end.1 + 1
            } else {
                self.width
            };
            let chars = chars_of(&self.rows[r], from, to);
            assert(chars@ =~= g.selected_chars(s, e, r as int));
            let ghost before = out@;
            if r == last {
                out.append(text::from_chars_trimmed(chars.as_slice()).as_str());
            } else {
                let count = self.rows[r].len();
                let wrapped = count > 0 && shown(&self.rows[r][count - 1]) != ' ';
                if wrapped {
                    out.append(text::from_chars(chars.as_slice()).as_str());
                } else {
                    out.append(text::from_chars_trimmed(chars.as_slice()).as_str());
                    out.push('\n');
                }
            }
            proof {
                let piece = g.excerpt(s, e, r as int);
                assert(out@ =~= before + piece);
                let done = g.excerpts(s, e, r as int);
                assert(g.excerpts(s, e, r as int + 1) =~= done.push(piece));
                done.lemma_flatten_push(piece);
            }
            r = r + 1;
        }
        assert(g.excerpts(s, e, r as int) =~= g.excerpts(s, e, last as int + 1));
        out
    }
}

/// Is grid position `p` inside the inclusive linear (row-major) range `s..=e`?
pub fn in_selection(p: (usize, usize), s: (usize, usize), e: (usize, usize)) -> (b: bool)
    ensures
        b == selects(pos(p), pos(s), pos(e)),
{
    (s.0 < p.0 || (s.0 == p.0 && s.1 <= p.1)) && (p.0 < e.0 || (p.0 == e.0 && p.1 <= e.1))
}

} // verus!
