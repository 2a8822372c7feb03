//! Per-cell frames, and what the decoder makes of them.

use vstd::prelude::*;

use crate::escape;
use crate::escape::Token;
use crate::grid;
use crate::grid::{CellView, GridView, Pen, Row};
use crate::text;

verus! {

/// `a` is made of whole pieces, which are `ts`, whatever comes behind it.
pub open spec fn pieces(a: Seq<char>, ts: Seq<Token>) -> bool {
    forall|b: Seq<char>| #[trigger] escape::tokens(a + b) == ts + escape::tokens(b)
}

/// The control sequence with these parameters and this letter.
pub open spec fn control(params: Seq<char>, letter: char) -> Seq<char> {
    seq!['\x1b', '['] + params + seq![letter]
}

/// The parameters and the letter make a control sequence that is recognised.
pub open spec fn is_control(params: Seq<char>, letter: char) -> bool {
    &&& forall|i: int| 0 <= i < params.len() ==> escape::is_parameter(#[trigger] params[i])
    &&& params.len() + 3 <= escape::CSI_LIMIT
    &&& text::is_letter(letter)
}

/// The sequence that puts the cursor at this 0-based position.
pub open spec fn goto_ansi(row: nat, col: nat) -> Seq<char> {
    control(text::decimal(row + 1) + seq![';'] + text::decimal(col + 1), 'H')
}

/// The sequence that shows or hides the cursor.
pub open spec fn cursor_ansi(visible: bool) -> Seq<char> {
    control(
        seq!['?', '2', '5'],
        if visible {
            'h'
        } else {
            'l'
        },
    )
}

/// The style that these parameters select.
pub open spec fn style(params: Seq<char>) -> Seq<char> {
    control(params, 'm')
}

/// Nothing is made of no pieces.
pub proof fn lemma_pieces_empty()
    ensures
        pieces(Seq::empty(), Seq::empty()),
{
    assert forall|b: Seq<char>| #[trigger]
        escape::tokens(Seq::<char>::empty() + b) == Seq::<Token>::empty() + escape::tokens(b) by {
        assert(Seq::<char>::empty() + b =~= b);
        assert(Seq::<Token>::empty() + escape::tokens(b) =~= escape::tokens(b));
    }
}

/// Whole pieces behind whole pieces are whole pieces.
pub proof fn lemma_pieces_concat(a: Seq<char>, ts: Seq<Token>, b: Seq<char>, us: Seq<Token>)
    requires
        pieces(a, ts),
        pieces(b, us),
    ensures
        pieces(a + b, ts + us),
{
    assert forall|c: Seq<char>| #[trigger]
        escape::tokens((a + b) + c) == (ts + us) + escape::tokens(c) by {
        assert((a + b) + c =~= a + (b + c));
        assert(escape::tokens(b + c) == us + escape::tokens(c));
        assert(escape::tokens(a + (b + c)) == ts + escape::tokens(b + c));
        assert(ts + (us + escape::tokens(c)) =~= (ts + us) + escape::tokens(c));
    }
}

/// A frame of whole pieces decodes to them.
pub proof fn lemma_pieces_tokens(a: Seq<char>, ts: Seq<Token>)
    requires
        pieces(a, ts),
    ensures
        escape::tokens(a) == ts,
{
    let none = Seq::<char>::empty();
    assert(a + none =~= a);
    assert(escape::tokens(a + none) == ts + escape::tokens(none));
    assert(escape::tokens(none) =~= Seq::<Token>::empty());
    assert(ts + Seq::<Token>::empty() =~= ts);
}

/// A control sequence is one piece.
pub proof fn lemma_pieces_control(params: Seq<char>, letter: char)
    requires
        is_control(params, letter),
    ensures
        pieces(
            control(params, letter),
            seq![escape::csi_token(params, letter, control(params, letter))],
        ),
{
    let a = control(params, letter);
    let t = escape::csi_token(params, letter, a);
    assert forall|b: Seq<char>| #[trigger]
        escape::tokens(a + b) == seq![t] + escape::tokens(b) by {
        let s = a + b;
        let tail = s.skip(2);
        let n = params.len();
        assert forall|i: int| 0 <= i < n implies escape::is_parameter(#[trigger] tail[i]) by {
            assert(tail[i] == params[i]);
        }
        assert(tail[n as int] == letter);
        text::lemma_leading_is(tail, |c: char| escape::is_parameter(c), n);
        assert(s.subrange(2, 2 + n as int) =~= params);
        assert(s[0] == '\x1b' && s[1] == '[' && s[2 + n as int] == letter);
        assert(escape::csi(s) == Some((params, letter, n + 3)));
        assert(s.take(n as int + 3) =~= a);
        assert(escape::first_token(s) == (t, n + 3));
        assert(s.skip(n as int + 3) =~= b);
    }
}

/// A character that is no escape is one piece.
pub proof fn lemma_pieces_char(c: char)
    requires
        c != '\x1b',
    ensures
        pieces(seq![c], seq![escape::char_token(c)]),
{
    assert forall|b: Seq<char>| #[trigger]
        escape::tokens(seq![c] + b) == seq![escape::char_token(c)] + escape::tokens(b) by {
        let s = seq![c] + b;
        assert(s[0] == c);
        assert(escape::first_token(s) == (escape::char_token(c), 1nat));
        assert(s.skip(1) =~= b);
    }
}

/// The decimal notation of what fits in `usize` has at most 20 digits.
pub proof fn lemma_decimal_len(n: nat)
    requires
        n <= usize::MAX,
    ensures
        text::decimal(n).len() <= 20,
{
    assert(vstd::arithmetic::power::pow(10, 20) == 100_000_000_000_000_000_000) by {
        reveal_with_fuel(vstd::arithmetic::power::pow, 21);
    }
    lemma_decimal_len_bound(n, 20);
}

/// A number below a power of ten has at most that many digits.
proof fn lemma_decimal_len_bound(n: nat, k: nat)
    requires
        k > 0,
        n < vstd::arithmetic::power::pow(10, k),
    ensures
        text::decimal(n).len() <= k,
    decreases k,
{
    reveal(vstd::arithmetic::power::pow);
    if n >= 10 {
        vstd::arithmetic::power::lemma_pow1(10);
        lemma_decimal_len_bound(n / 10, (k - 1) as nat);
    }
}

/// A cursor position is one piece, which goes there.
pub proof fn lemma_pieces_goto(row: nat, col: nat)
    requires
        row < usize::MAX,
        col < usize::MAX,
    ensures
        pieces(goto_ansi(row, col), seq![Token::Goto { row, col }]),
{
    let r = text::decimal(row + 1);
    let c = text::decimal(col + 1);
    let params = r + seq![';'] + c;
    text::lemma_decimal(row + 1);
    text::lemma_decimal(col + 1);
    lemma_decimal_len(row + 1);
    lemma_decimal_len(col + 1);
    assert forall|i: int| 0 <= i < params.len() implies escape::is_parameter(
        #[trigger] params[i],
    ) by {
        if i < r.len() {
            assert(params[i] == r[i]);
        } else if i > r.len() {
            assert(params[i] == c[i - r.len() - 1]);
        }
    }
    lemma_pieces_control(params, 'H');
    assert forall|i: int| 0 <= i < r.len() implies #[trigger] r[i] != ';' by {
        assert(text::is_digit(r[i]));
    }
    assert forall|i: int| 0 <= i < c.len() implies #[trigger] c[i] != ';' by {
        assert(text::is_digit(c[i]));
    }
    text::lemma_fields_single(c);
    text::lemma_fields_cons(r, c);
    assert(text::fields(params)[0] == r);
    assert(text::fields(params)[1] == c);
    text::lemma_number_of_decimal(row + 1);
    text::lemma_number_of_decimal(col + 1);
}

/// A visibility toggle is one piece, which sets the visibility.
pub proof fn lemma_pieces_cursor(visible: bool)
    ensures
        pieces(cursor_ansi(visible), seq![Token::Cursor(visible)]),
{
    lemma_pieces_control(
        seq!['?', '2', '5'],
        if visible {
            'h'
        } else {
            'l'
        },
    );
}

/// A style is one piece, which selects it.
pub proof fn lemma_pieces_style(params: Seq<char>)
    requires
        is_control(params, 'm'),
    ensures
        pieces(style(params), seq![Token::Style(style(params))]),
{
    lemma_pieces_control(params, 'm');
}

/// Parts that are whole pieces make whole pieces in a row.
pub proof fn lemma_pieces_flatten(parts: Seq<Seq<char>>, ts: Seq<Seq<Token>>)
    requires
        parts.len() == ts.len(),
        forall|i: int| 0 <= i < parts.len() ==> pieces(#[trigger] parts[i], ts[i]),
    ensures
        pieces(parts.flatten(), ts.flatten()),
    decreases parts.len(),
{
    if parts.len() == 0 {
        lemma_pieces_empty();
    } else {
        lemma_pieces_flatten(parts.drop_first(), ts.drop_first());
        lemma_pieces_concat(
            parts.first(),
            ts.first(),
            parts.drop_first().flatten(),
            ts.drop_first().flatten(),
        );
    }
}

/// To run two sequences of pieces in a row is to run the one and then the other.
pub proof fn lemma_run_concat(pen: Pen, width: nat, height: nat, a: Seq<Token>, b: Seq<Token>)
    ensures
        grid::run(pen, width, height, a + b) == grid::run(
            grid::run(pen, width, height, a),
            width,
            height,
            b,
        ),
    decreases a.len(),
{
    if a.len() == 0 {
        assert(a + b =~= b);
    } else {
        assert((a + b).skip(1) =~= a.skip(1) + b);
        lemma_run_concat(grid::step(pen, width, height, a[0]), width, height, a.skip(1), b);
    }
}

/// One cell of a frame: where it is, the parameters of its style, and its character.
pub struct CellUpdate {
    pub row: nat,
    pub col: nat,
    pub params: Seq<char>,
    pub ch: char,
}

impl CellUpdate {
    /// The cell can stand in a frame: its position can be written, its style is
    /// recognised, and its character prints.
    pub open spec fn wf(self) -> bool {
        &&& self.row < usize::MAX
        &&& self.col < usize::MAX
        &&& is_control(self.params, 'm')
        &&& self.ch >= ' '
    }

    /// The cell as it stands in a frame.
    pub open spec fn ansi(self) -> Seq<char> {
        goto_ansi(self.row, self.col) + style(self.params) + seq![self.ch]
    }

    /// The pieces of the cell.
    pub open spec fn tokens(self) -> Seq<Token> {
        seq![
            Token::Goto { row: self.row, col: self.col },
            Token::Style(style(self.params)),
            Token::Print(self.ch),
        ]
    }

    /// What the cell prints.
    pub open spec fn cell(self) -> CellView {
        CellView { sgr: style(self.params), ch: self.ch }
    }
}

/// A whole frame: its cells, the position of the cursor, and visibility toggles.
pub open spec fn frame(cells: Seq<CellUpdate>, cursor: (nat, nat), toggles: Seq<bool>) -> Seq<
    char,
> {
    cells.map_values(|u: CellUpdate| u.ansi()).flatten() + goto_ansi(cursor.0, cursor.1)
        + toggles.map_values(|v: bool| cursor_ansi(v)).flatten()
}

/// The last of the cells at this position.
pub open spec fn last_update(cells: Seq<CellUpdate>, row: int, col: int) -> Option<CellView>
    decreases cells.len(),
{
    if cells.len() == 0 {
        None
    } else if cells.last().row == row && cells.last().col == col {
        Some(cells.last().cell())
    } else {
        last_update(cells.drop_last(), row, col)
    }
}

/// `rows` with the cells on it: each position shows the last cell that names it, or
/// else what it showed before.
pub open spec fn drawn(rows: Seq<Row>, cells: Seq<CellUpdate>) -> Seq<Row> {
    Seq::new(
        rows.len(),
        |r: int|
            Seq::new(
                rows[r].len(),
                |c: int|
                    match last_update(cells, r, c) {
                        Some(cell) => Some(cell),
                        None => rows[r][c],
                    },
            ),
    )
}

/// The pieces of cells in a row draw them.
proof fn lemma_run_cells(g: GridView, pen: Pen, cells: Seq<CellUpdate>)
    requires
        g.well_shaped(),
        pen.rows == g.rows,
    ensures
        ({
            let ts = cells.map_values(|u: CellUpdate| u.tokens()).flatten();
            let end = grid::run(pen, g.width, g.height, ts);
            end.rows == drawn(g.rows, cells) && end.visible == pen.visible
        }),
    decreases cells.len(),
{
    let f = |u: CellUpdate| u.tokens();
    let ts = cells.map_values(f).flatten();
    if cells.len() == 0 {
        assert(ts =~= Seq::<Token>::empty());
        assert forall|r: int| 0 <= r < g.rows.len() implies #[trigger] drawn(g.rows, cells)[r]
            =~= g.rows[r] by {}
        assert(drawn(g.rows, cells) =~= g.rows);
    } else {
        let init = cells.drop_last();
        let u = cells.last();
        lemma_run_cells(g, pen, init);
        let us = init.map_values(f);
        assert(cells.map_values(f) =~= us.push(u.tokens()));
        us.lemma_flatten_push(u.tokens());
        lemma_run_concat(pen, g.width, g.height, us.flatten(), u.tokens());
        let p0 = grid::run(pen, g.width, g.height, us.flatten());
        let t = u.tokens();
        assert(t.skip(1).skip(1).skip(1) =~= Seq::<Token>::empty());
        reveal_with_fuel(grid::run, 4);
        let end = grid::run(p0, g.width, g.height, t);
        let goal = drawn(g.rows, cells);
        if u.row < g.height && u.col < g.width {
            let r = u.row as int;
            assert(g.rows[r].len() == g.width);
            assert forall|k: int| 0 <= k < g.rows.len() implies #[trigger] end.rows[k]
                =~= goal[k] by {}
        } else {
            assert forall|k: int| 0 <= k < g.rows.len() implies #[trigger] end.rows[k]
                =~= goal[k] by {
                assert(g.rows[k].len() == g.width);
            }
        }
        assert(end.rows =~= goal);
    }
}

/// Visibility toggles in a row leave the last of them in force.
proof fn lemma_run_toggles(pen: Pen, width: nat, height: nat, toggles: Seq<bool>)
    ensures
        grid::run(
            pen,
            width,
            height,
            toggles.map_values(|v: bool| seq![Token::Cursor(v)]).flatten(),
        ) == (Pen {
            visible: if toggles.len() > 0 {
                toggles.last()
            } else {
                pen.visible
            },
            ..pen
        }),
    decreases toggles.len(),
{
    let f = |v: bool| seq![Token::Cursor(v)];
    let ts = toggles.map_values(f);
    if toggles.len() == 0 {
        assert(ts.flatten() =~= Seq::<Token>::empty());
    } else {
        let init = toggles.drop_last();
        let t = seq![Token::Cursor(toggles.last())];
        lemma_run_toggles(pen, width, height, init);
        assert(ts =~= init.map_values(f).push(t));
        init.map_values(f).lemma_flatten_push(t);
        lemma_run_concat(pen, width, height, init.map_values(f).flatten(), t);
        assert(t.skip(1) =~= Seq::<Token>::empty());
        reveal_with_fuel(grid::run, 2);
    }
}

/// A per-cell frame is decoded completely: every cell of it that lies on the grid shows
/// there, with its style, and the last one wins where two name the same position;
/// every other cell of the grid stays as it was; the cursor is where the frame puts it,
/// shown or hidden as its last toggle says; and the bottom of the content is that of
/// the new content.
pub proof fn law_frame_decodes(
    g: GridView,
    cells: Seq<CellUpdate>,
    cursor: (nat, nat),
    toggles: Seq<bool>,
)
    requires
        g.well_shaped(),
        forall|i: int| 0 <= i < cells.len() ==> (#[trigger] cells[i]).wf(),
        cursor.0 < usize::MAX,
        cursor.1 < usize::MAX,
    ensures
        g.apply(frame(cells, cursor, toggles)) == (GridView {
            rows: drawn(g.rows, cells),
            cursor_row: cursor.0,
            cursor_col: cursor.1,
            cursor_visible: if toggles.len() > 0 {
                toggles.last()
            } else {
                g.cursor_visible
            },
            content_bottom: grid::bottom_row(drawn(g.rows, cells)),
            ..g
        }),
{
    let parts = cells.map_values(|u: CellUpdate| u.ansi());
    let cts = cells.map_values(|u: CellUpdate| u.tokens());
    assert forall|i: int| 0 <= i < parts.len() implies pieces(#[trigger] parts[i], cts[i]) by {
        let u = cells[i];
        assert(u.wf());
        lemma_pieces_goto(u.row, u.col);
        lemma_pieces_style(u.params);
        lemma_pieces_char(u.ch);
        let a = goto_ansi(u.row, u.col);
        let ta = seq![Token::Goto { row: u.row, col: u.col }];
        let tb = seq![Token::Style(style(u.params))];
        lemma_pieces_concat(a, ta, style(u.params), tb);
        lemma_pieces_concat(a + style(u.params), ta + tb, seq![u.ch], seq![Token::Print(u.ch)]);
        assert(ta + tb + seq![Token::Print(u.ch)] =~= u.tokens());
    }
    lemma_pieces_flatten(parts, cts);
    let goto = seq![Token::Goto { row: cursor.0, col: cursor.1 }];
    lemma_pieces_goto(cursor.0, cursor.1);
    let tail = toggles.map_values(|v: bool| cursor_ansi(v));
    let tts = toggles.map_values(|v: bool| seq![Token::Cursor(v)]);
    assert forall|i: int| 0 <= i < tail.len() implies pieces(#[trigger] tail[i], tts[i]) by {
        lemma_pieces_cursor(toggles[i]);
    }
    lemma_pieces_flatten(tail, tts);
    let head = parts.flatten() + goto_ansi(cursor.0, cursor.1);
    lemma_pieces_concat(parts.flatten(), cts.flatten(), goto_ansi(cursor.0, cursor.1), goto);
    lemma_pieces_concat(head, cts.flatten() + goto, tail.flatten(), tts.flatten());
    lemma_pieces_tokens(
        frame(cells, cursor, toggles),
        cts.flatten() + goto + tts.flatten(),
    );
    let w = g.width;
    let h = g.height;
    lemma_run_concat(g.start(), w, h, cts.flatten() + goto, tts.flatten());
    lemma_run_concat(g.start(), w, h, cts.flatten(), goto);
    lemma_run_cells(g, g.start(), cells);
    assert(goto.skip(1) =~= Seq::<Token>::empty());
    reveal_with_fuel(grid::run, 2);
    let p = grid::run(g.start(), w, h, cts.flatten() + goto);
    lemma_run_toggles(p, w, h, toggles);
}

} // verus!
