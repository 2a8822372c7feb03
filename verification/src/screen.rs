//! What a terminal shows of what the renderer paints. The terminal is a grid of its
//! dimensions that is given what is painted as frames.

use vstd::prelude::*;

use crate::escape;
use crate::escape::Token;
use crate::frames;
use crate::grid;
use crate::grid::{CellView, GridView, Pen, Row};
use crate::laws;
use crate::render;
use crate::render::{Canvas, RendererView, Selection};
use crate::text;

verus! {

/// A style as a frame can select one: none, or a control sequence that is recognised.
pub open spec fn is_style(s: Seq<char>) -> bool {
    s.len() == 0 || exists|params: Seq<char>|
        frames::is_control(params, 'm') && s == #[trigger] frames::style(params)
}

/// A slot as frames fill it: its character prints, and its style can be selected.
pub open spec fn is_printed(slot: Option<CellView>) -> bool {
    match slot {
        Some(cell) => cell.ch >= ' ' && is_style(cell.sgr),
        None => true,
    }
}

/// All slots of a row are as frames fill them.
pub open spec fn is_printed_row(row: Row) -> bool {
    forall|c: int| 0 <= c < row.len() ==> is_printed(#[trigger] row[c])
}

/// All rows are as frames fill them.
pub open spec fn is_printed_grid(rows: Seq<Row>) -> bool {
    forall|r: int| 0 <= r < rows.len() ==> is_printed_row(#[trigger] rows[r])
}

/// A piece that moves the cursor only by printing, and blanks nothing.
pub open spec fn is_inline(t: Token) -> bool {
    match t {
        Token::Style(_) => true,
        Token::Print(_) => true,
        Token::Skip => true,
        _ => false,
    }
}

/// All pieces are inline.
pub open spec fn all_inline(ts: Seq<Token>) -> bool {
    forall|i: int| 0 <= i < ts.len() ==> is_inline(#[trigger] ts[i])
}

/// A printed character and its style: the last sequence that selected one, which is all
/// that a grid keeps, and all sequences that selected it, one behind the other.
pub struct Ink {
    pub ch: char,
    pub last: Seq<char>,
    pub all: Seq<char>,
}

/// The style in force between two pieces; `open` right behind a sequence that selects one.
pub struct Brush {
    pub last: Seq<char>,
    pub all: Seq<char>,
    pub open: bool,
}

/// The style in force after one piece. A style that is selected right behind another adds
/// to it; behind anything else it replaces what was in force.
pub open spec fn brush_step(b: Brush, t: Token) -> Brush {
    match t {
        Token::Style(s) => Brush {
            last: s,
            all: if b.open {
                b.all + s
            } else {
                s
            },
            open: true,
        },
        _ => Brush { open: false, ..b },
    }
}

/// The style in force after the pieces.
pub open spec fn brush_after(b: Brush, ts: Seq<Token>) -> Brush
    decreases ts.len(),
{
    if ts.len() == 0 {
        b
    } else {
        brush_after(brush_step(b, ts[0]), ts.skip(1))
    }
}

/// The characters that the pieces print, each in its style.
pub open spec fn inks(b: Brush, ts: Seq<Token>) -> Seq<Ink>
    decreases ts.len(),
{
    if ts.len() == 0 {
        Seq::empty()
    } else {
        let rest = inks(brush_step(b, ts[0]), ts.skip(1));
        match ts[0] {
            Token::Print(ch) => seq![Ink { ch, last: b.last, all: b.all }] + rest,
            _ => rest,
        }
    }
}

/// No style.
pub open spec fn no_style() -> Brush {
    Brush { last: Seq::empty(), all: Seq::empty(), open: false }
}

/// The cell that a printed character makes.
pub open spec fn ink_cell(ink: Ink) -> CellView {
    CellView { sgr: ink.last, ch: ink.ch }
}

/// The row starts with the printed characters, as far as it goes.
pub open spec fn row_shows(row: Row, printed: Seq<Ink>) -> bool {
    forall|c: int|
        0 <= c < row.len() && c < printed.len() ==> #[trigger] row[c] == Some(ink_cell(printed[c]))
}

/// What the pieces print behind each other is what they print in all.
proof fn lemma_inks_concat(b: Brush, a: Seq<Token>, c: Seq<Token>)
    ensures
        inks(b, a + c) == inks(b, a) + inks(brush_after(b, a), c),
        brush_after(b, a + c) == brush_after(brush_after(b, a), c),
    decreases a.len(),
{
    if a.len() == 0 {
        assert(a + c =~= c);
        assert(inks(b, a) + inks(b, c) =~= inks(b, c));
    } else {
        assert((a + c).skip(1) =~= a.skip(1) + c);
        lemma_inks_concat(brush_step(b, a[0]), a.skip(1), c);
        assert(inks(b, a + c) =~= inks(b, a) + inks(brush_after(b, a), c));
    }
}

/// Inline pieces print their characters from the position on, and change nothing else.
proof fn lemma_run_inline(pen: Pen, b: Brush, width: nat, height: nat, ts: Seq<Token>)
    requires
        all_inline(ts),
        pen.sgr == b.last,
        pen.col + inks(b, ts).len() <= usize::MAX,
        pen.rows.len() == height,
        forall|r: int| 0 <= r < height ==> (#[trigger] pen.rows[r]).len() == width,
        pen.row < height,
    ensures
        ({
            let end = grid::run(pen, width, height, ts);
            &&& end.row == pen.row
            &&& end.col == pen.col + inks(b, ts).len()
            &&& end.visible == pen.visible
            &&& end.rows.len() == height
            &&& forall|r: int| 0 <= r < height ==> (#[trigger] end.rows[r]).len() == width
            &&& forall|r: int|
                0 <= r < height && r != pen.row ==> #[trigger] end.rows[r] == pen.rows[r]
            &&& forall|c: int|
                0 <= c < width ==> #[trigger] end.rows[pen.row as int][c] == if pen.col <= c
                    < pen.col + inks(b, ts).len() {
                    Some(ink_cell(inks(b, ts)[c - pen.col]))
                } else {
                    pen.rows[pen.row as int][c]
                }
        }),
    decreases ts.len(),
{
    if ts.len() > 0 {
        let t = ts[0];
        let rest = ts.skip(1);
        let next = grid::step(pen, width, height, t);
        let after = brush_step(b, t);
        assert(is_inline(ts[0]));
        assert forall|i: int| 0 <= i < rest.len() implies is_inline(#[trigger] rest[i]) by {
            assert(rest[i] == ts[i + 1]);
        }
        assert(pen.rows[pen.row as int].len() == width);
        assert forall|r: int| 0 <= r < height implies (#[trigger] next.rows[r]).len() == width by {
            assert(pen.rows[r].len() == width);
        }
        lemma_run_inline(next, after, width, height, rest);
        let end = grid::run(pen, width, height, ts);
        assert(end == grid::run(next, width, height, rest));
        assert forall|c: int| 0 <= c < width implies #[trigger] end.rows[pen.row as int][c]
            == if pen.col <= c < pen.col + inks(b, ts).len() {
            Some(ink_cell(inks(b, ts)[c - pen.col]))
        } else {
            pen.rows[pen.row as int][c]
        } by {
            if let Token::Print(ch) = t {
                assert(inks(b, ts) == seq![Ink { ch, last: b.last, all: b.all }] + inks(
                    after,
                    rest,
                ));
            }
        }
    }
}

/// The default style is one that a frame can select.
proof fn lemma_default_style()
    ensures
        is_style("\x1b[0m"@),
        "\x1b[0m"@ == frames::style(seq!['0']),
        frames::is_control(seq!['0'], 'm'),
{
    reveal_strlit("\x1b[0m");
    assert("\x1b[0m"@ =~= frames::style(seq!['0']));
}

/// The pieces that select a style.
pub open spec fn style_tokens(style: Seq<char>, reverse: bool) -> Seq<Token> {
    seq![Token::Style(render::style_ansi(style, false))] + (if reverse {
        seq![Token::Style("\x1b[7m"@)]
    } else {
        Seq::empty()
    })
}

/// The last of the sequences that select a style.
pub open spec fn last_style(style: Seq<char>, reverse: bool) -> Seq<char> {
    if reverse {
        "\x1b[7m"@
    } else {
        render::style_ansi(style, false)
    }
}

/// The sequences that select a style are these pieces.
proof fn lemma_style_pieces(style: Seq<char>, reverse: bool)
    requires
        is_style(style),
    ensures
        frames::pieces(render::style_ansi(style, reverse), style_tokens(style, reverse)),
        all_inline(style_tokens(style, reverse)),
{
    let plain = render::style_ansi(style, false);
    let ts = seq![Token::Style(plain)];
    lemma_default_style();
    let params = if style.len() == 0 {
        seq!['0']
    } else {
        choose|params: Seq<char>|
            frames::is_control(params, 'm') && style == #[trigger] frames::style(params)
    };
    assert(plain =~= frames::style(params));
    frames::lemma_pieces_style(params);
    if reverse {
        reveal_strlit("\x1b[7m");
        assert("\x1b[7m"@ =~= frames::style(seq!['7']));
        frames::lemma_pieces_style(seq!['7']);
        frames::lemma_pieces_concat(plain, ts, "\x1b[7m"@, seq![Token::Style("\x1b[7m"@)]);
        assert(render::style_ansi(style, true) =~= plain + "\x1b[7m"@);
    } else {
        assert(style_tokens(style, false) =~= ts);
    }
}

/// To select a style behind anything but a style puts exactly it in force.
proof fn lemma_style_brush(b: Brush, style: Seq<char>, reverse: bool)
    requires
        !b.open,
    ensures
        brush_after(b, style_tokens(style, reverse)) == (Brush {
            last: last_style(style, reverse),
            all: render::style_ansi(style, reverse),
            open: true,
        }),
        inks(b, style_tokens(style, reverse)) == Seq::<Ink>::empty(),
{
    let ts = style_tokens(style, reverse);
    reveal_with_fuel(brush_after, 3);
    reveal_with_fuel(inks, 3);
    if reverse {
        assert(ts.skip(1).skip(1) =~= Seq::<Token>::empty());
        assert(render::style_ansi(style, true) =~= render::style_ansi(style, false)
            + "\x1b[7m"@);
    } else {
        assert(ts.skip(1) =~= Seq::<Token>::empty());
    }
}

/// The pieces that paint column `col` of grid row `r`, whose cells are `row`.
pub open spec fn cell_tokens(row: Row, sel: Selection, r: nat, col: int) -> Seq<Token> {
    let style = render::slot_style(grid::slot_at(row, col));
    let reverse = render::selected(sel, r, col as nat);
    let same = col > 0 && style == render::slot_style(grid::slot_at(row, col - 1)) && reverse
        == render::selected(sel, r, (col - 1) as nat);
    (if same {
        Seq::empty()
    } else {
        style_tokens(style, reverse)
    }).push(Token::Print(grid::slot_char(grid::slot_at(row, col))))
}

/// What column `col` of grid row `r`, whose cells are `row`, should show: its character,
/// in its style, and in reverse video if and only if it is selected.
pub open spec fn cell_ink(row: Row, sel: Selection, r: nat, col: int) -> Ink {
    let style = render::slot_style(grid::slot_at(row, col));
    let reverse = render::selected(sel, r, col as nat);
    Ink {
        ch: grid::slot_char(grid::slot_at(row, col)),
        last: last_style(style, reverse),
        all: render::style_ansi(style, reverse),
    }
}

/// The pieces that paint the first `cols` columns of a row.
pub open spec fn line_tokens(row: Row, sel: Selection, r: nat, cols: nat) -> Seq<Token> {
    Seq::new(cols, |col: int| cell_tokens(row, sel, r, col)).flatten()
}

/// What the first `cols` columns of a row should show.
pub open spec fn line_inks(row: Row, sel: Selection, r: nat, cols: nat) -> Seq<Ink> {
    Seq::new(cols, |col: int| cell_ink(row, sel, r, col))
}

/// A printing character is one piece, which prints it.
proof fn lemma_print_pieces(c: char)
    requires
        c >= ' ',
    ensures
        frames::pieces(seq![c], seq![Token::Print(c)]),
{
    frames::lemma_pieces_char(c);
}

/// What paints a cell is made of these pieces.
proof fn lemma_cell_pieces(row: Row, sel: Selection, r: nat, col: int)
    requires
        is_printed_row(row),
    ensures
        frames::pieces(render::cell_ansi(row, sel, r, col), cell_tokens(row, sel, r, col)),
        all_inline(cell_tokens(row, sel, r, col)),
{
    let slot = grid::slot_at(row, col);
    let ch = grid::slot_char(slot);
    assert(is_printed(slot));
    lemma_default_style();
    lemma_print_pieces(ch);
    let style = render::slot_style(slot);
    let reverse = render::selected(sel, r, col as nat);
    let ansi = render::style_ansi(style, reverse);
    let ts = style_tokens(style, reverse);
    lemma_style_pieces(style, reverse);
    frames::lemma_pieces_concat(ansi, ts, seq![ch], seq![Token::Print(ch)]);
    assert(ansi + seq![ch] =~= ansi.push(ch));
    assert(ts + seq![Token::Print(ch)] =~= ts.push(Token::Print(ch)));
    assert(Seq::<char>::empty().push(ch) =~= seq![ch]);
    assert(Seq::<Token>::empty().push(Token::Print(ch)) =~= seq![Token::Print(ch)]);
}

/// What paints a line is made of these pieces, and they print what it should show.
proof fn lemma_line_pieces(b: Brush, row: Row, sel: Selection, r: nat, cols: nat)
    requires
        is_printed_row(row),
        !b.open,
    ensures
        frames::pieces(render::line_ansi(row, sel, r, cols), line_tokens(row, sel, r, cols)),
        all_inline(line_tokens(row, sel, r, cols)),
        inks(b, line_tokens(row, sel, r, cols)) == line_inks(row, sel, r, cols),
        ({
            let after = brush_after(b, line_tokens(row, sel, r, cols));
            &&& !after.open
            &&& cols > 0 ==> after.last == cell_ink(row, sel, r, cols - 1).last && after.all
                == cell_ink(row, sel, r, cols - 1).all
        }),
    decreases cols,
{
    let f = |col: int| render::cell_ansi(row, sel, r, col);
    let g = |col: int| cell_tokens(row, sel, r, col);
    if cols == 0 {
        frames::lemma_pieces_empty();
        assert(Seq::new(cols, f) =~= Seq::empty());
        assert(Seq::new(cols, g) =~= Seq::empty());
        assert(line_inks(row, sel, r, cols) =~= Seq::empty());
    } else {
        let n = (cols - 1) as nat;
        let col = n as int;
        lemma_line_pieces(b, row, sel, r, n);
        lemma_cell_pieces(row, sel, r, col);
        let fs = Seq::new(n, f);
        let gs = Seq::new(n, g);
        assert(Seq::new(cols, f) =~= fs.push(f(col)));
        assert(Seq::new(cols, g) =~= gs.push(g(col)));
        fs.lemma_flatten_push(f(col));
        gs.lemma_flatten_push(g(col));
        let before = line_tokens(row, sel, r, n);
        let ts = cell_tokens(row, sel, r, col);
        frames::lemma_pieces_concat(render::line_ansi(row, sel, r, n), before, f(col), ts);
        lemma_inks_concat(b, before, ts);
        let mid = brush_after(b, before);
        let slot = grid::slot_at(row, col);
        let style = render::slot_style(slot);
        let reverse = render::selected(sel, r, col as nat);
        let print = seq![Token::Print(grid::slot_char(slot))];
        let ink = cell_ink(row, sel, r, col);
        assert(print.skip(1) =~= Seq::<Token>::empty());
        reveal_with_fuel(inks, 2);
        reveal_with_fuel(brush_after, 2);
        if ts.len() == 1 {
            assert(ts =~= print);
            assert(mid.last == ink.last && mid.all == ink.all);
        } else {
            let st = style_tokens(style, reverse);
            assert(ts =~= st + print);
            lemma_inks_concat(mid, st, print);
            lemma_style_brush(mid, style, reverse);
        }
        assert(inks(mid, ts) =~= seq![ink]);
        assert(line_inks(row, sel, r, n) + seq![ink] =~= line_inks(row, sel, r, cols));
    }
}

/// The pieces that end a row.
pub open spec fn row_end_tokens() -> Seq<Token> {
    seq![Token::Style("\x1b[0m"@), Token::Skip]
}

/// What ends a row is made of these pieces, and they print nothing.
proof fn lemma_row_end_pieces(b: Brush)
    ensures
        frames::pieces("\x1b[0m\x1b[K"@, row_end_tokens()),
        all_inline(row_end_tokens()),
        inks(b, row_end_tokens()) == Seq::<Ink>::empty(),
{
    reveal_strlit("\x1b[0m\x1b[K");
    reveal_strlit("\x1b[0m");
    let none = Seq::<char>::empty();
    lemma_default_style();
    frames::lemma_pieces_style(seq!['0']);
    frames::lemma_pieces_control(none, 'K');
    let k = frames::control(none, 'K');
    let a = seq![Token::Style("\x1b[0m"@)];
    frames::lemma_pieces_concat("\x1b[0m"@, a, k, seq![Token::Skip]);
    assert("\x1b[0m\x1b[K"@ =~= "\x1b[0m"@ + k);
    assert(a + seq![Token::Skip] =~= row_end_tokens());
    assert(row_end_tokens().skip(1).skip(1) =~= Seq::<Token>::empty());
    reveal_with_fuel(inks, 3);
}

/// The piece that prints a character.
pub open spec fn print_token(ch: char) -> Token {
    Token::Print(ch)
}

/// The pieces that print characters.
pub open spec fn print_tokens(s: Seq<char>) -> Seq<Token> {
    Seq::new(s.len(), |i: int| print_token(s[i]))
}

/// A character for which one sequence selects the style.
pub open spec fn styled(ch: char, style: Seq<char>) -> Ink {
    Ink { ch, last: style, all: style }
}

/// Characters for which one sequence selects the style.
pub open spec fn in_style(s: Seq<char>, style: Seq<char>) -> Seq<Ink> {
    Seq::new(s.len(), |i: int| styled(s[i], style))
}

/// Printing characters are a piece each, and print themselves in the style in force.
proof fn lemma_print_all_pieces(b: Brush, s: Seq<char>)
    requires
        is_printing(s),
    ensures
        frames::pieces(s, print_tokens(s)),
        all_inline(print_tokens(s)),
        b.last == b.all ==> inks(b, print_tokens(s)) == in_style(s, b.last),
    decreases s.len(),
{
    let ts = print_tokens(s);
    if s.len() == 0 {
        frames::lemma_pieces_empty();
        assert(s =~= Seq::<char>::empty());
        assert(ts =~= Seq::<Token>::empty());
        assert(in_style(s, b.last) =~= Seq::<Ink>::empty());
    } else {
        let t = s.skip(1);
        let after = brush_step(b, ts[0]);
        lemma_print_all_pieces(after, t);
        lemma_print_pieces(s[0]);
        frames::lemma_pieces_concat(seq![s[0]], seq![Token::Print(s[0])], t, print_tokens(t));
        assert(seq![s[0]] + t =~= s);
        assert(seq![Token::Print(s[0])] + print_tokens(t) =~= ts);
        assert(ts.skip(1) =~= print_tokens(t));
        if b.last == b.all {
            assert(inks(b, ts) =~= in_style(s, b.last));
        }
    }
}

/// Every character of the text prints.
pub open spec fn is_printing(s: Seq<char>) -> bool {
    forall|i: int| 0 <= i < s.len() ==> #[trigger] s[i] >= ' '
}

/// Row `r` of the terminal shows the status.
pub open spec fn is_status_row(canvas: Canvas, status: Seq<char>, r: nat) -> bool {
    r + 1 == canvas.rows && status.len() > 0
}

/// What row `r` of the terminal should show: the status with a space on either side, in
/// reverse video, in the last row where there is one, and else the cells of the grid row.
pub open spec fn wanted(canvas: Canvas, status: Seq<char>, r: nat) -> Seq<Ink> {
    if is_status_row(canvas, status, r) {
        in_style(seq![' '] + status + seq![' '], "\x1b[0;7m"@)
    } else {
        line_inks(canvas.cells(r), canvas.sel, canvas.grid_row(r), canvas.painted_cols())
    }
}

/// The pieces that paint row `r` of the terminal.
pub open spec fn row_tokens(canvas: Canvas, status: Seq<char>, r: nat) -> Seq<Token> {
    (if is_status_row(canvas, status, r) {
        seq![Token::Style("\x1b[0;7m"@)] + print_tokens(seq![' '] + status + seq![' '])
    } else {
        line_tokens(canvas.cells(r), canvas.sel, canvas.grid_row(r), canvas.painted_cols())
    }) + row_end_tokens()
}

/// What paints a row of the terminal is made of these pieces, and they print what it
/// should show.
proof fn lemma_row_pieces(b: Brush, canvas: Canvas, status: Seq<char>, r: nat)
    requires
        is_printed_grid(canvas.grid.rows),
        is_status_row(canvas, status, r) ==> is_printing(status),
        !b.open,
    ensures
        frames::pieces(canvas.row_ansi(status, r), row_tokens(canvas, status, r)),
        all_inline(row_tokens(canvas, status, r)),
        inks(b, row_tokens(canvas, status, r)) == wanted(canvas, status, r),
{
    let ansi = canvas.row_ansi(status, r);
    let end = "\x1b[0m\x1b[K"@;
    if is_status_row(canvas, status, r) {
        reveal_strlit("\x1b[0;7m ");
        reveal_strlit("\x1b[0;7m");
        reveal_strlit(" \x1b[0m\x1b[K");
        reveal_strlit("\x1b[0m\x1b[K");
        let params = seq!['0', ';', '7'];
        let style = "\x1b[0;7m"@;
        let s = seq![' '] + status + seq![' '];
        let st = seq![Token::Style(style)];
        assert(style =~= frames::style(params));
        frames::lemma_pieces_style(params);
        assert(st.skip(1) =~= Seq::<Token>::empty());
        reveal_with_fuel(inks, 2);
        reveal_with_fuel(brush_after, 2);
        let mid = brush_after(b, st);
        assert(mid == (Brush { last: style, all: style, open: true }));
        lemma_print_all_pieces(mid, s);
        frames::lemma_pieces_concat(style, st, s, print_tokens(s));
        let ts = st + print_tokens(s);
        lemma_inks_concat(b, st, print_tokens(s));
        assert(inks(b, ts) =~= in_style(s, style));
        lemma_row_end_pieces(brush_after(b, ts));
        frames::lemma_pieces_concat(style + s, ts, end, row_end_tokens());
        lemma_inks_concat(b, ts, row_end_tokens());
        assert(ansi =~= style + s + end);
        assert(inks(b, ts + row_end_tokens()) =~= in_style(s, style));
    } else {
        let row = canvas.cells(r);
        assert(is_printed_row(row));
        let g = canvas.grid_row(r);
        let cols = canvas.painted_cols();
        let ts = line_tokens(row, canvas.sel, g, cols);
        lemma_line_pieces(b, row, canvas.sel, g, cols);
        lemma_row_end_pieces(brush_after(b, ts));
        frames::lemma_pieces_concat(
            render::line_ansi(row, canvas.sel, g, cols),
            ts,
            end,
            row_end_tokens(),
        );
        lemma_inks_concat(b, ts, row_end_tokens());
        assert(inks(b, ts + row_end_tokens()) =~= line_inks(row, canvas.sel, g, cols));
    }
}

/// What the text of a row prints, each character in its style.
pub open spec fn text_inks(row: Seq<char>) -> Seq<Ink> {
    inks(no_style(), escape::tokens(row))
}

/// What paints a row of the terminal prints what it should show.
proof fn lemma_row_text(canvas: Canvas, status: Seq<char>, r: nat)
    requires
        is_printed_grid(canvas.grid.rows),
        is_status_row(canvas, status, r) ==> is_printing(status),
    ensures
        text_inks(canvas.row_ansi(status, r)) == wanted(canvas, status, r),
{
    lemma_row_pieces(no_style(), canvas, status, r);
    frames::lemma_pieces_tokens(canvas.row_ansi(status, r), row_tokens(canvas, status, r));
}

/// The terminal shows what the renderer knows of it.
pub open spec fn agrees(screen: GridView, v: RendererView) -> bool {
    forall|r: int|
        0 <= r < screen.height ==> (#[trigger] v.known(r) matches Some(row) ==> row_shows(
            screen.rows[r],
            text_inks(row),
        ))
}

/// What can be painted on the terminal: the grid is as frames fill it, the status
/// prints, and the dimensions of the terminal fit.
pub open spec fn is_paintable(screen: GridView, v: RendererView, canvas: Canvas) -> bool {
    &&& screen.well_shaped()
    &&& screen.height == canvas.rows
    &&& screen.width == canvas.cols
    &&& canvas.rows <= usize::MAX
    &&& canvas.cols <= usize::MAX
    &&& is_printed_grid(canvas.grid.rows)
    &&& is_printing(v.status)
    &&& v.status.len() + 2 <= usize::MAX
}

/// What moves to the start of row `r`.
proof fn lemma_row_start(r: nat)
    ensures
        "\x1b["@ + text::decimal(r + 1) + ";1H"@ == frames::goto_ansi(r, 0),
{
    reveal_strlit("\x1b[");
    reveal_strlit(";1H");
    assert(text::decimal(1) =~= seq!['1']);
    assert("\x1b["@ + text::decimal(r + 1) + ";1H"@ =~= frames::goto_ansi(r, 0));
}

/// The first `n` rows of the terminal, brought up to date, show what they should; the
/// others stay as they are.
proof fn lemma_run_updates(
    screen: GridView,
    pen: Pen,
    v: RendererView,
    canvas: Canvas,
    n: nat,
) -> (ts: Seq<Token>)
    requires
        is_paintable(screen, v, canvas),
        n <= canvas.rows,
        pen.rows == screen.rows,
        agrees(screen, v),
    ensures
        frames::pieces(v.row_updates(canvas, n).flatten(), ts),
        ({
            let end = grid::run(pen, screen.width, screen.height, ts);
            &&& end.visible == pen.visible
            &&& end.rows.len() == screen.height
            &&& forall|r: int|
                0 <= r < screen.height ==> (#[trigger] end.rows[r]).len() == screen.width
            &&& forall|r: int|
                0 <= r < n ==> row_shows(
                    #[trigger] end.rows[r],
                    wanted(canvas, v.status, r as nat),
                )
            &&& forall|r: int|
                n <= r < screen.height ==> #[trigger] end.rows[r] == screen.rows[r]
        }),
    decreases n,
{
    let w = screen.width;
    let h = screen.height;
    if n == 0 {
        assert(v.row_updates(canvas, 0) =~= Seq::empty());
        frames::lemma_pieces_empty();
        Seq::empty()
    } else {
        let r = (n - 1) as nat;
        let before = v.row_updates(canvas, r);
        let update = v.row_update(canvas, r as int);
        let us = lemma_run_updates(screen, pen, v, canvas, r);
        assert(v.row_updates(canvas, n) =~= before.push(update));
        before.lemma_flatten_push(update);
        let row = canvas.row_ansi(v.status, r);
        let mid = grid::run(pen, w, h, us);
        let brush = Brush { last: mid.sgr, ..no_style() };
        lemma_row_text(canvas, v.status, r);
        lemma_row_pieces(brush, canvas, v.status, r);
        if v.known(r as int) == Some(row) {
            assert(before.flatten() + update =~= before.flatten());
            assert(mid.rows[r as int] == screen.rows[r as int]);
            us
        } else {
            let rts = row_tokens(canvas, v.status, r);
            let goto = seq![Token::Goto { row: r, col: 0 }];
            lemma_row_start(r);
            frames::lemma_pieces_goto(r, 0);
            frames::lemma_pieces_concat(frames::goto_ansi(r, 0), goto, row, rts);
            frames::lemma_pieces_concat(before.flatten(), us, update, goto + rts);
            frames::lemma_run_concat(pen, w, h, us, goto + rts);
            frames::lemma_run_concat(mid, w, h, goto, rts);
            assert(goto.skip(1) =~= Seq::<Token>::empty());
            reveal_with_fuel(grid::run, 2);
            let at = grid::run(mid, w, h, goto);
            assert(at == (Pen { row: r, col: 0, ..mid }));
            lemma_run_inline(at, brush, w, h, rts);
            let end = grid::run(pen, w, h, us + (goto + rts));
            assert(end == grid::run(at, w, h, rts));
            assert(end.rows[r as int].len() == w);
            us + (goto + rts)
        }
    }
}

/// Whatever was painted before, after `paint` the terminal shows what it should: each row
/// the cells of the grid row in the window, or the status in the last row where there is
/// one. Rows that are left out because they did not change show it too. Each cell shows its
/// character and carries the style that was selected last for it; what the terminal was
/// given for its row selects for it the style of the cell, and `ESC[7m` behind that if and
/// only if the cell is selected. The cursor shows where it should, or not at all, and the
/// terminal again shows what the renderer knows of it, so that the same holds of the next
/// `paint`.
#[verifier::rlimit(30)]
pub proof fn law_paint_reaches_the_screen(screen: GridView, v: RendererView, canvas: Canvas)
    requires
        is_paintable(screen, v, canvas),
        agrees(screen, v),
    ensures
        ({
            let after = screen.apply(v.paint_ansi(canvas));
            &&& forall|r: int|
                0 <= r < canvas.rows ==> row_shows(
                    #[trigger] after.rows[r],
                    wanted(canvas, v.status, r as nat),
                )
            &&& forall|r: int, c: int|
                #![trigger after.rows[r][c]]
                0 <= r < canvas.rows && 0 <= c < canvas.painted_cols() && !is_status_row(
                    canvas,
                    v.status,
                    r as nat,
                ) ==> {
                    let slot = grid::slot_at(canvas.cells(r as nat), c);
                    let style = render::slot_style(slot);
                    let reverse = render::selected(
                        canvas.sel,
                        canvas.grid_row(r as nat),
                        c as nat,
                    );
                    let row = v.after_paint(canvas).known(r);
                    &&& after.rows[r][c] == Some(
                        CellView { sgr: last_style(style, reverse), ch: grid::slot_char(slot) },
                    )
                    &&& row is Some
                    &&& text_inks(row->0)[c].all == render::style_ansi(style, reverse)
                }
            &&& after.cursor_visible == canvas.shows_cursor(v.status)
            &&& canvas.shows_cursor(v.status) ==> after.cursor_row == canvas.cursor_row()
                && after.cursor_col == canvas.cursor_col()
            &&& agrees(after, v.after_paint(canvas))
            &&& is_paintable(after, v.after_paint(canvas), canvas)
        }),
{
    let w = screen.width;
    let h = screen.height;
    let none = Seq::<Token>::empty();
    reveal_strlit("\x1b[?2026h\x1b[?25l");
    reveal_strlit("\x1b[?2026l");
    // the start
    let start = "\x1b[?2026h\x1b[?25l"@;
    let year = seq!['?', '2', '0', '2', '6'];
    frames::lemma_pieces_control(year, 'h');
    frames::lemma_pieces_cursor(false);
    let sts = seq![Token::Skip] + seq![Token::Cursor(false)];
    frames::lemma_pieces_concat(
        frames::control(year, 'h'),
        seq![Token::Skip],
        frames::cursor_ansi(false),
        seq![Token::Cursor(false)],
    );
    assert(start =~= frames::control(year, 'h') + frames::cursor_ansi(false));
    let p0 = grid::run(screen.start(), w, h, sts);
    assert(sts.skip(1).skip(1) =~= none);
    reveal_with_fuel(grid::run, 3);
    assert(p0 == (Pen { visible: false, ..screen.start() }));
    // the rows
    let rows = v.row_updates(canvas, canvas.rows).flatten();
    let rts = lemma_run_updates(screen, p0, v, canvas, canvas.rows);
    let p1 = grid::run(p0, w, h, rts);
    frames::lemma_pieces_concat(start, sts, rows, rts);
    frames::lemma_run_concat(screen.start(), w, h, sts, rts);
    // the cursor
    let cursor = canvas.cursor_ansi(v.status);
    let shown = canvas.shows_cursor(v.status);
    let cts = if shown {
        seq![Token::Goto { row: canvas.cursor_row(), col: canvas.cursor_col() }]
            + seq![Token::Cursor(true)]
    } else {
        none
    };
    if shown {
        reveal_strlit("\x1b[");
        reveal_strlit(";");
        reveal_strlit("H\x1b[?25h");
        let goto = frames::goto_ansi(canvas.cursor_row(), canvas.cursor_col());
        assert(cursor =~= goto + frames::cursor_ansi(true));
        frames::lemma_pieces_goto(canvas.cursor_row(), canvas.cursor_col());
        frames::lemma_pieces_cursor(true);
        frames::lemma_pieces_concat(
            goto,
            seq![Token::Goto { row: canvas.cursor_row(), col: canvas.cursor_col() }],
            frames::cursor_ansi(true),
            seq![Token::Cursor(true)],
        );
        assert(cts.skip(1).skip(1) =~= none);
    } else {
        frames::lemma_pieces_empty();
    }
    frames::lemma_pieces_concat(start + rows, sts + rts, cursor, cts);
    frames::lemma_run_concat(screen.start(), w, h, sts + rts, cts);
    let p2 = grid::run(p1, w, h, cts);
    // the end
    let end = "\x1b[?2026l"@;
    frames::lemma_pieces_control(year, 'l');
    assert(end =~= frames::control(year, 'l'));
    let ets = seq![Token::Skip];
    assert(ets.skip(1) =~= none);
    frames::lemma_pieces_concat(start + rows + cursor, sts + rts + cts, end, ets);
    frames::lemma_run_concat(screen.start(), w, h, sts + rts + cts, ets);
    frames::lemma_pieces_tokens(v.paint_ansi(canvas), sts + rts + cts + ets);
    let after = screen.apply(v.paint_ansi(canvas));
    assert(p2.rows == p1.rows);
    assert(after.rows == p1.rows);
    let known = v.after_paint(canvas);
    assert forall|r: int| 0 <= r < after.height implies (#[trigger] known.known(r) matches Some(
        row,
    ) ==> row_shows(after.rows[r], text_inks(row))) by {
        lemma_row_text(canvas, v.status, r as nat);
    }
    assert forall|r: int, c: int|
        #![trigger after.rows[r][c]]
        0 <= r < canvas.rows && 0 <= c < canvas.painted_cols() && !is_status_row(
            canvas,
            v.status,
            r as nat,
        ) implies {
        let ink = cell_ink(
            canvas.cells(r as nat),
            canvas.sel,
            canvas.grid_row(r as nat),
            c,
        );
        let row = known.known(r);
        &&& after.rows[r][c] == Some(ink_cell(ink))
        &&& row is Some
        &&& text_inks(row->0)[c].all == ink.all
    } by {
        lemma_row_text(canvas, v.status, r as nat);
        assert(row_shows(after.rows[r], wanted(canvas, v.status, r as nat)));
        assert(after.rows[r].len() == canvas.cols);
    }
}

/// What column `c` of row `r` of the terminal should show, if no status is there.
pub open spec fn window_ink(canvas: Canvas, r: int, c: int) -> Ink {
    let g = canvas.grid;
    let i = r + g.window_offset(canvas.rows);
    let row = if i < g.rows.len() {
        g.rows[i]
    } else {
        Seq::empty()
    };
    let style = laws::column_style(row, c);
    let plain = if style.len() == 0 {
        "\x1b[0m"@
    } else {
        style
    };
    let reverse = match canvas.sel {
        Some((s, e)) => (s.0 < i || (s.0 == i && s.1 <= c)) && (i < e.0 || (i == e.0 && c <= e.1)),
        None => false,
    };
    Ink {
        ch: laws::shown_at(row, c),
        last: if reverse {
            "\x1b[7m"@
        } else {
            plain
        },
        all: if reverse {
            plain + "\x1b[7m"@
        } else {
            plain
        },
    }
}

/// That is what is painted there.
proof fn lemma_window_ink(canvas: Canvas, r: int, c: int)
    requires
        r >= 0,
        c >= 0,
    ensures
        window_ink(canvas, r, c) == cell_ink(
            canvas.cells(r as nat),
            canvas.sel,
            canvas.grid_row(r as nat),
            c,
        ),
{
    let goal = cell_ink(canvas.cells(r as nat), canvas.sel, canvas.grid_row(r as nat), c);
    assert(window_ink(canvas, r, c).all =~= goal.all);
    assert(window_ink(canvas, r, c).last =~= goal.last);
}

/// What a terminal shows after `paint`, cell by cell. The window starts at the offset: each
/// row above the status shows the row of the grid that lies so far below it, as far as both
/// are wide; blanks where the grid has no cell, the style of the cell, and reverse video
/// exactly where the position on the grid lies in the selection. Nothing else is printed in
/// the row. A status shows in the last row, in reverse video, with a space on either side.
/// The cursor shows if and only if it is visible, lies in the window and there is no
/// status, and then in the row that shows its row of the grid and in its column, or the
/// last one where the terminal is too narrow.
#[verifier::rlimit(30)]
pub proof fn law_terminal_shows_the_window(screen: GridView, v: RendererView, canvas: Canvas)
    requires
        is_paintable(screen, v, canvas),
        agrees(screen, v),
    ensures
        ({
            let after = screen.apply(v.paint_ansi(canvas));
            let g = canvas.grid;
            let offset = g.window_offset(canvas.rows);
            let has_status = v.status.len() > 0;
            &&& forall|r: int, c: int|
                #![trigger after.rows[r][c]]
                0 <= r < canvas.rows && !(has_status && r == canvas.rows - 1) && 0 <= c < canvas.cols
                    && c < g.width ==> {
                    let ink = window_ink(canvas, r, c);
                    &&& after.rows[r][c] == Some(CellView { sgr: ink.last, ch: ink.ch })
                    &&& text_inks(v.after_paint(canvas).known(r)->0)[c].all == ink.all
                }
            &&& forall|r: int|
                0 <= r < canvas.rows && !(has_status && r == canvas.rows - 1) ==> {
                    let printed = text_inks((#[trigger] v.after_paint(canvas).known(r))->0);
                    &&& printed.len() <= canvas.cols && printed.len() <= g.width
                    &&& printed.len() == canvas.cols || printed.len() == g.width
                }
            &&& has_status && canvas.rows > 0 ==> forall|c: int|
                0 <= c < canvas.cols && c < v.status.len() + 2
                    ==> #[trigger] after.rows[canvas.rows - 1][c] == Some(
                    CellView {
                        sgr: "\x1b[0;7m"@,
                        ch: if 0 < c <= v.status.len() {
                            v.status[c - 1]
                        } else {
                            ' '
                        },
                    },
                )
            &&& after.cursor_visible <==> g.cursor_visible && !has_status && offset <= g.cursor_row
                < offset + canvas.rows
            &&& after.cursor_visible ==> {
                &&& after.cursor_row + offset == g.cursor_row
                &&& g.cursor_col < canvas.cols ==> after.cursor_col == g.cursor_col
                &&& g.cursor_col >= canvas.cols > 0 ==> after.cursor_col == canvas.cols - 1
                &&& canvas.cols == 0 ==> after.cursor_col == 0
            }
        }),
{
    law_paint_reaches_the_screen(screen, v, canvas);
    let after = screen.apply(v.paint_ansi(canvas));
    let offset = canvas.grid.window_offset(canvas.rows);
    assert forall|r: int| 0 <= r < canvas.rows && !is_status_row(canvas, v.status, r as nat) implies
        text_inks((#[trigger] v.after_paint(canvas).known(r))->0).len() == canvas.painted_cols() by {
        lemma_row_text(canvas, v.status, r as nat);
    }
    if v.status.len() > 0 && canvas.rows > 0 {
        let r = canvas.rows - 1;
        let s = seq![' '] + v.status + seq![' '];
        assert(row_shows(after.rows[r], wanted(canvas, v.status, r as nat)));
        assert(after.rows[r].len() == canvas.cols);
        assert forall|c: int| 0 <= c < canvas.cols && c < v.status.len() + 2 implies
            #[trigger] after.rows[r][c] == Some(
            CellView {
                sgr: "\x1b[0;7m"@,
                ch: if 0 < c <= v.status.len() {
                    v.status[c - 1]
                } else {
                    ' '
                },
            },
        ) by {
            assert(after.rows[r][c] == Some(ink_cell(styled(s[c], "\x1b[0;7m"@))));
        }
    }
    assert forall|r: int, c: int|
        #![trigger after.rows[r][c]]
        0 <= r < canvas.rows && !is_status_row(canvas, v.status, r as nat) && 0 <= c
            < canvas.painted_cols() implies after.rows[r][c] == Some(
        ink_cell(window_ink(canvas, r, c)),
    ) && text_inks(v.after_paint(canvas).known(r)->0)[c].all == window_ink(canvas, r, c).all by {
        lemma_window_ink(canvas, r, c);
    }
}

/// A renderer that knows nothing of the terminal knows nothing wrong.
pub proof fn law_fresh_renderer_agrees(screen: GridView, v: RendererView)
    ensures
        agrees(screen, v.invalidate()),
{
}

/// A status makes the renderer know less, but nothing wrong.
pub proof fn law_status_keeps_agreement(screen: GridView, v: RendererView, status: Seq<char>)
    requires
        agrees(screen, v),
    ensures
        agrees(screen, v.with_status(status)),
{
    let w = v.with_status(status);
    assert forall|r: int| 0 <= r < screen.height implies (#[trigger] w.known(r) matches Some(
        row,
    ) ==> row_shows(screen.rows[r], text_inks(row))) by {
        assert(w.known(r) is Some ==> v.known(r) == w.known(r));
    }
}

/// A piece whose style can be selected and whose character prints.
pub open spec fn is_printed_token(t: Token) -> bool {
    match t {
        Token::Style(sgr) => is_style(sgr),
        Token::Print(ch) => ch >= ' ',
        _ => true,
    }
}

/// The pieces of a frame select styles and print characters as frames can.
proof fn lemma_tokens_printed(s: Seq<char>)
    ensures
        forall|i: int|
            0 <= i < escape::tokens(s).len() ==> is_printed_token(#[trigger] escape::tokens(s)[i]),
    decreases s.len(),
{
    if s.len() > 0 {
        escape::lemma_first_token_len(s);
        let (t, n) = escape::first_token(s);
        let rest = s.skip(n as int);
        lemma_tokens_printed(rest);
        assert(is_printed_token(t)) by {
            if let Token::Style(sgr) = t {
                let (params, letter, len) = escape::csi(s)->0;
                let tail = s.skip(2);
                text::lemma_leading(tail, |c: char| escape::is_parameter(c));
                assert forall|i: int| 0 <= i < params.len() implies escape::is_parameter(
                    #[trigger] params[i],
                ) by {
                    assert(params[i] == tail[i]);
                }
                assert(sgr =~= frames::style(params));
                assert(frames::is_control(params, 'm'));
            }
        }
        assert(escape::tokens(s) == seq![t] + escape::tokens(rest));
        assert forall|i: int| 0 <= i < escape::tokens(s).len() implies is_printed_token(
            #[trigger] escape::tokens(s)[i],
        ) by {
            if i > 0 {
                assert(escape::tokens(s)[i] == escape::tokens(rest)[i - 1]);
            }
        }
    }
}

/// Running such pieces fills slots as frames can.
proof fn lemma_run_printed(pen: Pen, width: nat, height: nat, ts: Seq<Token>)
    requires
        pen.rows.len() == height,
        forall|r: int| 0 <= r < height ==> (#[trigger] pen.rows[r]).len() == width,
        is_printed_grid(pen.rows),
        is_style(pen.sgr),
        forall|i: int| 0 <= i < ts.len() ==> is_printed_token(#[trigger] ts[i]),
    ensures
        is_printed_grid(grid::run(pen, width, height, ts).rows),
    decreases ts.len(),
{
    if ts.len() > 0 {
        let next = grid::step(pen, width, height, ts[0]);
        assert(is_printed_token(ts[0]));
        assert forall|r: int| 0 <= r < height implies (#[trigger] next.rows[r]).len() == width
            && is_printed_row(next.rows[r]) by {
            assert(pen.rows[r].len() == width);
            assert(is_printed_row(pen.rows[r]));
            assert forall|c: int| 0 <= c < width implies is_printed(#[trigger] next.rows[r][c]) by {
                assert(is_printed(pen.rows[r][c]));
            }
        }
        let rest = ts.skip(1);
        assert forall|i: int| 0 <= i < rest.len() implies is_printed_token(#[trigger] rest[i]) by {
            assert(rest[i] == ts[i + 1]);
        }
        lemma_run_printed(next, width, height, rest);
    }
}

/// Every cell that a frame prints holds a character that prints and a style that can be
/// selected again: a grid that was made and changed by its methods alone can be painted.
pub proof fn law_frames_print_what_can_be_painted(g: GridView, ansi: Seq<char>)
    requires
        g.well_shaped(),
        is_printed_grid(g.rows),
    ensures
        is_printed_grid(g.apply(ansi).rows),
        is_printed_grid(g.clear().rows),
{
    lemma_tokens_printed(ansi);
    lemma_run_printed(g.start(), g.width, g.height, escape::tokens(ansi));
}

/// A row that is to show other characters, or other styles, is painted: no change is missed.
pub proof fn law_change_is_painted(v: RendererView, first: Canvas, second: Canvas, r: int)
    requires
        0 <= r < first.rows,
        is_printed_grid(first.grid.rows),
        is_printed_grid(second.grid.rows),
        is_status_row(first, v.status, r as nat) || is_status_row(second, v.status, r as nat)
            ==> is_printing(v.status),
        wanted(first, v.status, r as nat) != wanted(second, v.status, r as nat),
    ensures
        v.after_paint(first).row_update(second, r) == laws::full_row(second, v.status, r as nat),
{
    lemma_row_text(first, v.status, r as nat);
    lemma_row_text(second, v.status, r as nat);
}

/// The row of a cell that is newly selected, or no longer, is painted: a selection that
/// grows or shrinks needs nothing but the comparison of rows to show.
pub proof fn law_selection_change_is_painted(
    v: RendererView,
    first: Canvas,
    sel: Selection,
    r: int,
    col: nat,
)
    requires
        0 <= r < first.rows,
        !is_status_row(first, v.status, r as nat),
        is_printed_grid(first.grid.rows),
        col < first.painted_cols(),
        render::selected(first.sel, first.grid_row(r as nat), col) != render::selected(
            sel,
            first.grid_row(r as nat),
            col,
        ),
    ensures
        ({
            let second = Canvas { sel, ..first };
            v.after_paint(first).row_update(second, r) == laws::full_row(
                second,
                v.status,
                r as nat,
            )
        }),
{
    reveal_strlit("\x1b[7m");
    let second = Canvas { sel, ..first };
    let a = wanted(first, v.status, r as nat);
    let b = wanted(second, v.status, r as nat);
    let style = render::slot_style(grid::slot_at(first.cells(r as nat), col as int));
    assert(render::style_ansi(style, true).len() != render::style_ansi(style, false).len());
    assert(a[col as int].all != b[col as int].all);
    law_change_is_painted(v, first, second, r);
}

} // verus!
