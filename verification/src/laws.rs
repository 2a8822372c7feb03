//! What holds of grids, selections and the renderer as a whole.

use vstd::prelude::*;

use crate::escape;
use crate::escape::Token;
use crate::frames;
use crate::grid;
use crate::grid::{Grid, GridView, Pen, Row};
use crate::render;
use crate::render::{Canvas, RendererView};
use crate::text;

verus! {

/// A frame is self-contained: what it makes of a grid depends on the cells, on the
/// dimensions and on whether the cursor was visible, but neither on where the cursor
/// was nor on the style that an earlier frame left.
pub proof fn law_frame_is_self_contained(a: GridView, b: GridView, ansi: Seq<char>)
    requires
        a.rows == b.rows,
        a.width == b.width,
        a.height == b.height,
        a.cursor_visible == b.cursor_visible,
    ensures
        a.apply(ansi) == b.apply(ansi),
{
}

/// Running pieces keeps the shape of the rows, and keeps a position that can be
/// written as a cursor position in range.
proof fn lemma_run_keeps_shape(g: GridView, pen: Pen, tokens: Seq<Token>)
    requires
        (GridView { rows: pen.rows, ..g }).well_shaped(),
        pen.row < usize::MAX,
        forall|i: int|
            0 <= i < tokens.len() ==> (#[trigger] tokens[i] matches Token::Goto { row, .. } ==> row
                < usize::MAX),
    ensures
        (GridView { rows: grid::run(pen, g.width, g.height, tokens).rows, ..g }).well_shaped(),
        grid::run(pen, g.width, g.height, tokens).row < usize::MAX,
    decreases tokens.len(),
{
    if tokens.len() > 0 {
        let next = grid::step(pen, g.width, g.height, tokens[0]);
        let shaped = GridView { rows: pen.rows, ..g };
        assert forall|r: int| 0 <= r < g.height implies (#[trigger] next.rows[r]).len()
            == g.width by {
            assert(shaped.rows[r].len() == g.width);
        }
        let rest = tokens.skip(1);
        assert forall|i: int| 0 <= i < rest.len() implies (#[trigger] rest[i] matches Token::Goto {
            row,
            ..
        } ==> row < usize::MAX) by {
            assert(rest[i] == tokens[i + 1]);
        }
        lemma_run_keeps_shape(g, next, rest);
    }
}

/// No cursor position names a row beyond what fits.
proof fn lemma_tokens_rows(s: Seq<char>)
    ensures
        forall|i: int|
            0 <= i < escape::tokens(s).len() ==> (#[trigger] escape::tokens(
                s,
            )[i] matches Token::Goto { row, .. } ==> row < usize::MAX),
    decreases s.len(),
{
    if s.len() > 0 {
        escape::lemma_first_token_len(s);
        let (t, n) = escape::first_token(s);
        let rest = s.skip(n as int);
        lemma_tokens_rows(rest);
        assert(escape::tokens(s) == seq![t] + escape::tokens(rest));
        assert forall|i: int| 0 <= i < escape::tokens(s).len() implies (#[trigger] escape::tokens(
            s,
        )[i] matches Token::Goto { row, .. } ==> row < usize::MAX) by {
            if i > 0 {
                assert(escape::tokens(s)[i] == escape::tokens(rest)[i - 1]);
            }
        }
    }
}

/// Whatever a frame holds, it leaves the dimensions as they are and the grid well
/// formed: the rows agree with the dimensions, and the bottom of the content is where
/// it is said to be.
pub proof fn law_apply_keeps_shape(g: GridView, ansi: Seq<char>)
    requires
        g.well_shaped(),
    ensures
        g.apply(ansi).wf(),
        g.apply(ansi).width == g.width,
        g.apply(ansi).height == g.height,
{
    lemma_tokens_rows(ansi);
    assert((GridView { rows: g.start().rows, ..g }).well_shaped());
    lemma_run_keeps_shape(g, g.start(), escape::tokens(ansi));
    let end = grid::run(g.start(), g.width, g.height, escape::tokens(ansi));
    let shaped = GridView { rows: end.rows, ..g };
    assert(g.apply(ansi).rows == shaped.rows);
    grid::lemma_bottom_row(end.rows);
}

/// The bottom of the content is a row of the grid, no row below it shows anything but
/// spaces, and it shows something itself unless no row does.
pub proof fn law_content_bottom(g: GridView)
    requires
        g.wf(),
    ensures
        g.height > 0 ==> g.content_bottom < g.height,
        forall|r: int| g.content_bottom < r < g.height ==> !grid::has_ink(#[trigger] g.rows[r]),
        grid::has_ink(g.rows[g.content_bottom as int]) || forall|r: int|
            0 <= r < g.height ==> !grid::has_ink(#[trigger] g.rows[r]),
{
    grid::lemma_bottom_row(g.rows);
}

/// What a column of a row shows: its character, whatever the style, and a space where
/// nothing was printed or the row has ended.
pub open spec fn shown_at(row: Row, col: int) -> char {
    if 0 <= col < row.len() && row[col] is Some {
        row[col]->0.ch
    } else {
        ' '
    }
}

/// A row has ink if and only if some column of it shows a character other than a space,
/// whatever its style.
pub proof fn law_ink_is_what_shows(row: Row)
    ensures
        grid::has_ink(row) <==> !(forall|c: int| 0 <= c < row.len() ==> shown_at(row, c) == ' '),
{
    if !(forall|c: int| 0 <= c < row.len() ==> shown_at(row, c) == ' ') {
        let c = choose|c: int| 0 <= c < row.len() && shown_at(row, c) != ' ';
        assert(grid::slot_char(row[c]) != ' ');
    }
    if grid::has_ink(row) {
        let c = choose|c: int| 0 <= c < row.len() && grid::slot_char(#[trigger] row[c]) != ' ';
        assert(shown_at(row, c) != ' ');
    }
}

/// After a frame the bottom of the content is the last row that shows anything: it is at
/// or below every cell that shows a character other than a space, in whatever style, and
/// it shows such a character itself unless the grid shows none, where it is the first row.
pub proof fn law_frame_finds_the_bottom(g: GridView, ansi: Seq<char>)
    requires
        g.rows.len() == g.height,
        forall|r: int| 0 <= r < g.height ==> (#[trigger] g.rows[r]).len() == g.width,
    ensures
        ({
            let after = g.apply(ansi);
            let bottom = after.content_bottom as int;
            &&& forall|r: int, c: int|
                0 <= r < g.height && #[trigger] shown_at(after.rows[r], c) != ' ' ==> r <= bottom
            &&& bottom > 0 ==> bottom < g.height && exists|c: int|
                0 <= c < g.width && #[trigger] shown_at(after.rows[bottom], c) != ' '
        }),
{
    law_apply_keeps_shape(g, ansi);
    let after = g.apply(ansi);
    let bottom = after.content_bottom as int;
    grid::lemma_bottom_row(after.rows);
    assert forall|r: int, c: int|
        0 <= r < g.height && #[trigger] shown_at(after.rows[r], c) != ' ' implies r <= bottom by {
        law_ink_is_what_shows(after.rows[r]);
        assert(0 <= c < after.rows[r].len());
    }
    if bottom > 0 {
        law_ink_is_what_shows(after.rows[bottom]);
        assert(after.rows[bottom].len() == g.width);
    }
}

/// A grid is seen as it is: its dimensions and its cursor, and cell by cell the characters
/// and the styles.
pub proof fn law_grid_is_seen_as_it_is(g: Grid)
    ensures
        g@.width == g.width,
        g@.height == g.height,
        g@.cursor_row == g.cursor_row,
        g@.cursor_col == g.cursor_col,
        g@.cursor_visible == g.cursor_visible,
        g@.content_bottom == g.content_bottom,
        g@.rows.len() == g.rows@.len(),
        forall|r: int|
            0 <= r < g.rows@.len() ==> (#[trigger] g@.rows[r]).len() == g.rows@[r]@.len(),
        forall|r: int, c: int|
            #![trigger g@.rows[r][c]]
            0 <= r < g.rows@.len() && 0 <= c < g.rows@[r]@.len() ==> (g@.rows[r][c] is Some
                <==> g.rows@[r]@[c] is Some) && (g.rows@[r]@[c] matches Some(cell)
                ==> g@.rows[r][c]->0.sgr == cell.sgr@ && g@.rows[r][c]->0.ch == cell.ch),
{
}

/// A blanked grid has no text, and its cursor is where it was.
pub proof fn law_clear_blanks(g: GridView)
    ensures
        forall|r: int|
            0 <= r < g.height ==> grid::row_text(#[trigger] g.clear().rows[r]) == Seq::<
                char,
            >::empty(),
        g.clear().well_shaped(),
        g.clear().content_bottom == grid::bottom_row(g.clear().rows),
        g.clear().cursor_row == g.cursor_row,
        g.clear().cursor_col == g.cursor_col,
        g.clear().cursor_visible == g.cursor_visible,
{
    assert forall|r: int| 0 <= r < g.height implies grid::row_text(#[trigger] g.clear().rows[r])
        == Seq::<char>::empty() by {
        let chars = grid::row_chars(g.clear().rows[r]);
        text::lemma_trim_end_is(chars, 0);
        assert(chars.take(0) =~= Seq::<char>::empty());
    }
    grid::lemma_bottom_row_blank(g.width, g.height);
}

/// To give a grid the dimensions that it has changes nothing; a change of dimensions
/// blanks it.
pub proof fn law_resize(g: GridView, width: nat, height: nat)
    ensures
        g.resize(g.width, g.height) == g,
        g.resize(width, height).width == width,
        g.resize(width, height).height == height,
        g.resize(width, height).resize(width, height) == g.resize(width, height),
        width != g.width || height != g.height ==> g.resize(width, height).rows
            == grid::blank_rows(width, height),
{
}

/// A blanked grid has no cell left, and a grid that was given new dimensions is blank in
/// just these; its cursor is where it was.
pub proof fn law_blank_cells(g: GridView, width: nat, height: nat)
    ensures
        g.clear().rows.len() == g.height,
        forall|r: int| 0 <= r < g.height ==> (#[trigger] g.clear().rows[r]).len() == g.width,
        forall|r: int, c: int|
            #![trigger g.clear().rows[r][c]]
            0 <= r < g.height && 0 <= c < g.width ==> g.clear().rows[r][c] is None,
        g.clear().content_bottom == 0,
        g.clear().width == g.width,
        g.clear().height == g.height,
        ({
            let new = g.resize(width, height);
            &&& new.width == width && new.height == height
            &&& new.cursor_row == g.cursor_row
            &&& new.cursor_col == g.cursor_col
            &&& new.cursor_visible == g.cursor_visible
            &&& width != g.width || height != g.height ==> {
                &&& new.content_bottom == 0
                &&& new.rows.len() == height
                &&& forall|r: int| 0 <= r < height ==> (#[trigger] new.rows[r]).len() == width
                &&& forall|r: int, c: int|
                    #![trigger new.rows[r][c]]
                    0 <= r < height && 0 <= c < width ==> new.rows[r][c] is None
            }
        }),
{
}

/// The window is anchored at the bottom: it ends no higher than the last row with content
/// and the cursor's row, and, unless it starts at the top, exactly with one of them.
pub proof fn law_window_is_anchored(g: GridView, out_rows: nat)
    ensures
        g.content_bottom < g.window_offset(out_rows) + out_rows,
        g.cursor_row < g.window_offset(out_rows) + out_rows,
        g.window_offset(out_rows) > 0 ==> g.window_offset(out_rows) + out_rows == g.content_bottom
            + 1 || g.window_offset(out_rows) + out_rows == g.cursor_row + 1,
{
}

/// A window that is not empty shows the bottom, which is the lower of the last row with
/// content and the cursor's row: it starts at the top where that fits, and else ends
/// with the bottom.
pub proof fn law_window_shows_bottom(g: GridView, out_rows: nat)
    requires
        out_rows > 0,
    ensures
        g.window_offset(out_rows) <= g.bottom() < g.window_offset(out_rows) + out_rows,
        g.content_bottom < g.window_offset(out_rows) + out_rows,
        g.cursor_row < g.window_offset(out_rows) + out_rows,
        g.bottom() < out_rows ==> g.window_offset(out_rows) == 0,
        g.bottom() >= out_rows ==> g.window_offset(out_rows) + out_rows == g.bottom() + 1,
{
}

/// Reading order is a total order.
pub proof fn law_reading_order(p: (nat, nat), q: (nat, nat), r: (nat, nat))
    ensures
        grid::pos_le(p, p),
        grid::pos_le(p, q) || grid::pos_le(q, p),
        grid::pos_le(p, q) && grid::pos_le(q, p) ==> p == q,
        grid::pos_le(p, q) && grid::pos_le(q, r) ==> grid::pos_le(p, r),
{
}

/// A selection holds both its ends, and with any two positions all that lie between
/// them. One whose end comes before its start holds nothing.
pub proof fn law_selection_is_a_range(
    s: (nat, nat),
    e: (nat, nat),
    p: (nat, nat),
    q: (nat, nat),
    between: (nat, nat),
)
    ensures
        grid::pos_le(s, e) ==> grid::selects(s, s, e) && grid::selects(e, s, e),
        grid::selects(p, s, e) && grid::selects(q, s, e) && grid::pos_le(p, between)
            && grid::pos_le(between, q) ==> grid::selects(between, s, e),
        !grid::pos_le(s, e) ==> !grid::selects(p, s, e),
{
}

/// A selection is linear: where the rows of a grid are laid end to end, each of them
/// `width` long, it is what lies between its ends, and no selection holds nothing.
pub proof fn law_selection_is_linear(
    p: (usize, usize),
    s: (usize, usize),
    e: (usize, usize),
    width: nat,
)
    requires
        p.1 < width,
        s.1 < width,
        e.1 < width,
    ensures
        grid::selects(grid::pos(p), grid::pos(s), grid::pos(e)) <==> s.0 * width + s.1 <= p.0
            * width + p.1 <= e.0 * width + e.1,
        render::selected(render::selection(Some((s, e))), p.0 as nat, p.1 as nat) <==> s.0 * width
            + s.1 <= p.0 * width + p.1 <= e.0 * width + e.1,
        !render::selected(render::selection(None), p.0 as nat, p.1 as nat),
{
    lemma_linear(s.0 as nat, s.1 as nat, p.0 as nat, p.1 as nat, width);
    lemma_linear(p.0 as nat, p.1 as nat, s.0 as nat, s.1 as nat, width);
    lemma_linear(p.0 as nat, p.1 as nat, e.0 as nat, e.1 as nat, width);
    lemma_linear(e.0 as nat, e.1 as nat, p.0 as nat, p.1 as nat, width);
}

/// Of two rows that are laid end to end, all of the upper comes first.
proof fn lemma_linear(r: nat, c: nat, row: nat, col: nat, width: nat)
    requires
        c < width,
    ensures
        r < row ==> r * width + c < row * width + col,
{
    if r < row {
        assert((r + 1) * width <= row * width) by (nonlinear_arith)
            requires
                r + 1 <= row,
        ;
        assert((r + 1) * width == r * width + width) by (nonlinear_arith);
    }
}

/// The first column of row `r` that a selection from `start` can hold.
pub open spec fn first_col(start: (nat, nat), r: int) -> int {
    if r == start.0 {
        start.1 as int
    } else {
        0
    }
}

/// What is copied is what is highlighted: in a row of the selection the characters that
/// are copied are those at the positions inside it, in order, and outside of its rows no
/// position is inside it.
pub proof fn law_copied_is_highlighted(
    g: GridView,
    start: (nat, nat),
    end: (nat, nat),
    r: int,
    c: int,
)
    requires
        grid::pos_le(start, end),
        0 <= r < g.height,
        0 <= c < g.width,
    ensures
        start.0 <= r <= g.last_selected(end) ==> {
            let chars = g.selected_chars(start, end, r);
            let from = first_col(start, r);
            &&& grid::selects((r as nat, c as nat), start, end) <==> from <= c < from + chars.len()
            &&& from <= c < from + chars.len() ==> chars[c - from] == grid::slot_char(
                grid::slot_at(g.rows[r], c),
            )
        },
        !(start.0 <= r <= g.last_selected(end)) ==> !grid::selects(
            (r as nat, c as nat),
            start,
            end,
        ),
{
}

/// Lines with a newline between each and the next.
pub open spec fn joined(lines: Seq<Seq<char>>) -> Seq<char>
    decreases lines.len(),
{
    if lines.len() == 0 {
        Seq::empty()
    } else if lines.len() == 1 {
        lines[0]
    } else {
        lines[0] + seq!['\n'] + joined(lines.drop_first())
    }
}

/// The text of each row.
pub open spec fn text_of_rows(g: GridView) -> Seq<Seq<char>> {
    Seq::new(g.height, |r: int| grid::row_text(g.rows[r]))
}

/// Lines that each end in a newline, but for the last, are joined lines.
proof fn lemma_joined(lines: Seq<Seq<char>>, parts: Seq<Seq<char>>)
    requires
        lines.len() == parts.len(),
        lines.len() > 0,
        forall|i: int|
            0 <= i < lines.len() - 1 ==> #[trigger] parts[i] == lines[i].push('\n'),
        parts.last() == lines.last(),
    ensures
        parts.flatten() == joined(lines),
    decreases lines.len(),
{
    if lines.len() == 1 {
        parts.lemma_flatten_one_element();
    } else {
        let l = lines.drop_first();
        let p = parts.drop_first();
        assert forall|i: int| 0 <= i < l.len() - 1 implies #[trigger] p[i] == l[i].push('\n') by {
            assert(p[i] == parts[i + 1]);
        }
        lemma_joined(l, p);
        assert(parts[0] == lines[0].push('\n'));
        assert(parts.flatten() =~= joined(lines));
    }
}

/// To copy the whole of a grid in which no line is wrapped gives its lines of text, with
/// newlines between them.
pub proof fn law_copy_all(g: GridView, end: (nat, nat))
    requires
        g.well_shaped(),
        g.height > 0,
        end.0 >= g.height || (end.0 == g.height - 1 && end.1 + 1 >= g.width),
        forall|r: int| 0 <= r < g.height - 1 ==> !grid::runs_on(#[trigger] g.rows[r]),
    ensures
        g.extract_text((0, 0), end) == joined(text_of_rows(g)),
{
    let start = (0nat, 0nat);
    let parts = g.excerpts(start, end, g.last_selected(end) as int + 1);
    let lines = text_of_rows(g);
    assert forall|r: int| 0 <= r < g.height implies g.selected_chars(start, end, r)
        == grid::row_chars(#[trigger] g.rows[r]) by {
        assert(g.rows[r].len() == g.width);
        assert(g.selected_chars(start, end, r) =~= grid::row_chars(g.rows[r]));
    }
    assert forall|i: int| 0 <= i < lines.len() - 1 implies #[trigger] parts[i] == lines[i].push(
        '\n',
    ) by {
        assert(!grid::runs_on(g.rows[i]));
    }
    assert(!(lines.len() > 0) || g.rows[lines.len() - 1].len() == g.width);
    assert(parts.last() == lines.last());
    lemma_joined(lines, parts);
}

/// A selection in which every row but the last is wrapped comes out as one line: what
/// the rows show, one behind the other, without the white space at the very end.
pub proof fn law_wrapped_rows_join(g: GridView, start: (nat, nat), end: (nat, nat))
    requires
        g.well_shaped(),
        g.height > 0,
        start.0 <= g.last_selected(end),
        forall|r: int| start.0 <= r < g.last_selected(end) ==> grid::runs_on(#[trigger] g.rows[r]),
    ensures
        g.extract_text(start, end) == Seq::new(
            (g.last_selected(end) - start.0) as nat,
            |k: int| g.selected_chars(start, end, start.0 + k),
        ).flatten() + text::trim_end(g.selected_chars(start, end, g.last_selected(end) as int)),
{
    let last = g.last_selected(end) as int;
    let parts = g.excerpts(start, end, last + 1);
    let whole = Seq::new(
        (last - start.0) as nat,
        |k: int| g.selected_chars(start, end, start.0 + k),
    );
    let tail = text::trim_end(g.selected_chars(start, end, last));
    assert forall|k: int| 0 <= k < whole.len() implies #[trigger] parts[k] == whole[k] by {
        assert(grid::runs_on(g.rows[start.0 + k]));
    }
    assert(parts =~= whole.push(tail));
    whole.lemma_flatten_push(tail);
}

/// What the columns `from..to` of a row show.
pub open spec fn shown_between(row: Row, from: int, to: int) -> Seq<char> {
    Seq::new(
        if from < to {
            (to - from) as nat
        } else {
            0
        },
        |k: int| shown_at(row, from + k),
    )
}

/// The last row of the grid that lies in a selection that ends in row `row`.
pub open spec fn clipped_row(g: GridView, row: nat) -> nat {
    if row < g.height {
        row
    } else if g.height > 0 {
        (g.height - 1) as nat
    } else {
        0
    }
}

/// The column behind the last one of row `r` that lies in a selection that ends at `end`.
pub open spec fn clipped_col(g: GridView, end: (nat, nat), r: nat) -> nat {
    if r == end.0 && end.1 + 1 < g.width {
        end.1 + 1
    } else {
        g.width
    }
}

/// To copy a selection is to copy its first row and then the rest, wherever it starts. A
/// row that shows a character other than a space in its last column joins the rest as it
/// is; any other is trimmed, and a newline stands between it and the rest. The last row is
/// trimmed, with nothing behind it, and a selection that starts below its last row is
/// empty.
pub proof fn law_copy_row_by_row(g: GridView, start: (nat, nat), end: (nat, nat))
    requires
        start.0 <= clipped_row(g, end.0) ==> clipped_row(g, end.0) < g.rows.len(),
    ensures
        ({
            let row = g.rows[start.0 as int];
            let chars = shown_between(
                row,
                start.1 as int,
                clipped_col(g, end, start.0) as int,
            );
            let rest = g.extract_text((start.0 + 1, 0), end);
            let last = clipped_row(g, end.0);
            g.extract_text(start, end) == if start.0 > last {
                Seq::empty()
            } else if start.0 == last {
                text::trim_end(chars)
            } else if shown_at(row, row.len() - 1) != ' ' {
                chars + rest
            } else {
                text::trim_end(chars) + seq!['\n'] + rest
            }
        }),
{
    let last = clipped_row(g, end.0) as int;
    let next = (start.0 + 1, 0nat);
    let parts = g.excerpts(start, end, last + 1);
    let others = g.excerpts(next, end, last + 1);
    if start.0 > last {
        assert(parts =~= Seq::empty());
    } else {
        let row = g.rows[start.0 as int];
        let chars = shown_between(row, start.1 as int, clipped_col(g, end, start.0) as int);
        assert(g.selected_chars(start, end, start.0 as int) =~= chars);
        assert forall|k: int| 0 <= k < others.len() implies others[k] == #[trigger] parts[k + 1] by {
            let r = next.0 + k;
            assert(g.selected_chars(next, end, r) =~= g.selected_chars(start, end, r));
        }
        assert(parts.drop_first() =~= others);
        assert(parts.first() == g.excerpt(start, end, start.0 as int));
        assert(parts.flatten() == parts.first() + others.flatten());
        if start.0 == last {
            assert(others =~= Seq::empty());
            assert(parts.flatten() =~= text::trim_end(chars));
        } else if shown_at(row, row.len() - 1) != ' ' {
            assert(parts.first() == chars);
        } else {
            assert(parts.first() =~= text::trim_end(chars) + seq!['\n']);
        }
    }
}

/// The rows of a selection, each trimmed to what it shows inside of it.
pub open spec fn selected_lines(g: GridView, start: (nat, nat), end: (nat, nat)) -> Seq<Seq<char>> {
    Seq::new(
        (clipped_row(g, end.0) + 1 - start.0) as nat,
        |k: int|
            text::trim_end(
                shown_between(
                    g.rows[start.0 + k],
                    if k == 0 {
                        start.1 as int
                    } else {
                        0
                    },
                    clipped_col(g, end, (start.0 + k) as nat) as int,
                ),
            ),
    )
}

/// A selection in which no row but the last is wrapped comes out as its rows, each
/// trimmed, with newlines between them, wherever it starts.
pub proof fn law_unwrapped_rows_are_lines(g: GridView, start: (nat, nat), end: (nat, nat))
    requires
        start.0 <= clipped_row(g, end.0) < g.rows.len(),
        forall|r: int|
            start.0 <= r < clipped_row(g, end.0) ==> shown_at(
                #[trigger] g.rows[r],
                g.rows[r].len() - 1,
            ) == ' ',
    ensures
        g.extract_text(start, end) == joined(selected_lines(g, start, end)),
    decreases clipped_row(g, end.0) - start.0,
{
    let last = clipped_row(g, end.0);
    let lines = selected_lines(g, start, end);
    law_copy_row_by_row(g, start, end);
    if start.0 < last {
        let next = (start.0 + 1, 0nat);
        law_unwrapped_rows_are_lines(g, next, end);
        assert(lines.drop_first() =~= selected_lines(g, next, end));
        assert(shown_at(g.rows[start.0 as int], g.rows[start.0 as int].len() - 1) == ' ');
    }
}

/// The text of a row is what it shows, column by column, up to the last column that shows
/// anything but white space.
pub proof fn law_row_text(row: Row)
    ensures
        ({
            let line = grid::row_text(row);
            &&& line.len() <= row.len()
            &&& forall|c: int| 0 <= c < line.len() ==> #[trigger] line[c] == shown_at(row, c)
            &&& forall|c: int|
                line.len() <= c < row.len() ==> text::is_white_space(#[trigger] shown_at(row, c))
            &&& line.len() > 0 ==> !text::is_white_space(line.last())
        }),
{
    let chars = grid::row_chars(row);
    text::lemma_trim_end(chars);
    assert forall|c: int| 0 <= c < row.len() implies #[trigger] shown_at(row, c) == chars[c] by {}
}

/// The start of what `paint` gives out.
pub open spec fn update_start() -> Seq<char> {
    "\x1b[?2026h\x1b[?25l"@
}

/// The end of what `paint` gives out.
pub open spec fn update_end() -> Seq<char> {
    "\x1b[?2026l"@
}

/// What paints row `r` of the terminal from scratch.
pub open spec fn full_row(canvas: Canvas, status: Seq<char>, r: nat) -> Seq<char> {
    "\x1b["@ + text::decimal(r + 1) + ";1H"@ + canvas.row_ansi(status, r)
}

/// After `paint` the renderer knows what every row of the terminal shows: what it
/// should. It knows no less of further rows than before.
pub proof fn law_paint_knows_all(v: RendererView, canvas: Canvas, r: int)
    ensures
        0 <= r < canvas.rows ==> v.after_paint(canvas).known(r) == Some(
            canvas.row_ansi(v.status, r as nat),
        ),
        r >= canvas.rows ==> v.after_paint(canvas).known(r) == v.known(r),
        v.after_paint(canvas).status == v.status,
{
}

/// Rows that show already what they should add nothing.
proof fn lemma_no_updates(v: RendererView, canvas: Canvas, n: nat)
    requires
        n <= canvas.rows,
        forall|r: int|
            0 <= r < canvas.rows ==> #[trigger] v.known(r) == Some(
                canvas.row_ansi(v.status, r as nat),
            ),
    ensures
        v.row_updates(canvas, n).flatten() == Seq::<char>::empty(),
    decreases n,
{
    let updates = v.row_updates(canvas, n);
    if n == 0 {
        assert(updates =~= Seq::empty());
    } else {
        let before = v.row_updates(canvas, (n - 1) as nat);
        lemma_no_updates(v, canvas, (n - 1) as nat);
        assert(v.known(n - 1) == Some(canvas.row_ansi(v.status, (n - 1) as nat)));
        assert(updates =~= before.push(Seq::empty()));
        before.lemma_flatten_push(Seq::empty());
    }
}

/// To paint the same again paints no row, only the cursor, and changes nothing of what
/// the renderer knows.
pub proof fn law_paint_again_paints_no_row(v: RendererView, canvas: Canvas)
    ensures
        v.after_paint(canvas).paint_ansi(canvas) == update_start() + canvas.cursor_ansi(v.status)
            + update_end(),
        v.after_paint(canvas).after_paint(canvas) == v.after_paint(canvas),
{
    let w = v.after_paint(canvas);
    lemma_no_updates(w, canvas, canvas.rows);
    assert(update_start() + Seq::<char>::empty() =~= update_start());
    assert(w.after_paint(canvas).last_rows =~= w.last_rows);
}

/// The next `paint` paints a row if and only if it is to show something else than the
/// last one painted there.
pub proof fn law_only_changed_rows_are_painted(
    v: RendererView,
    first: Canvas,
    second: Canvas,
    r: int,
)
    requires
        0 <= r < first.rows,
    ensures
        ({
            let update = v.after_paint(first).row_update(second, r);
            if first.row_ansi(v.status, r as nat) == second.row_ansi(v.status, r as nat) {
                update == Seq::<char>::empty()
            } else {
                update == full_row(second, v.status, r as nat) && update.len() > 0
            }
        }),
{
    reveal_strlit("\x1b[");
}

/// After `invalidate` the next `paint` paints every row, as the first `paint` of a new
/// renderer with the same status does.
pub proof fn law_invalidate_paints_every_row(v: RendererView, canvas: Canvas)
    ensures
        v.invalidate().paint_ansi(canvas) == update_start() + Seq::new(
            canvas.rows,
            |r: int| full_row(canvas, v.status, r as nat),
        ).flatten() + canvas.cursor_ansi(v.status) + update_end(),
{
    assert(v.invalidate().row_updates(canvas, canvas.rows) =~= Seq::new(
        canvas.rows,
        |r: int| full_row(canvas, v.status, r as nat),
    ));
}

/// A status forces the last row to be painted, even where the row shows it already: after
/// a `paint` and a status, the next `paint` on a terminal of as many rows paints the last
/// of them, whatever sizes the terminal had before.
pub proof fn law_status_forces_last_row(
    v: RendererView,
    first: Canvas,
    status: Seq<char>,
    second: Canvas,
)
    requires
        first.rows == second.rows,
        second.rows > 0,
    ensures
        v.after_paint(first).with_status(status).row_update(second, second.rows - 1) == full_row(
            second,
            status,
            (second.rows - 1) as nat,
        ),
{
}

/// What is painted is one synchronized update with the cursor hidden meanwhile: in order,
/// every row of the terminal that is not known to show what it should, and no other, and
/// then the cursor.
pub proof fn law_paint_is_its_changed_rows(v: RendererView, canvas: Canvas)
    ensures
        v.paint_ansi(canvas) == update_start() + Seq::new(
            canvas.rows,
            |r: int|
                if v.known(r) == Some(canvas.row_ansi(v.status, r as nat)) {
                    Seq::empty()
                } else {
                    full_row(canvas, v.status, r as nat)
                },
        ).flatten() + canvas.cursor_ansi(v.status) + update_end(),
{
    let rows = Seq::new(
        canvas.rows,
        |r: int|
            if v.known(r) == Some(canvas.row_ansi(v.status, r as nat)) {
                Seq::empty()
            } else {
                full_row(canvas, v.status, r as nat)
            },
    );
    assert(v.row_updates(canvas, canvas.rows) =~= rows);
}

/// A status changes nothing of what is known of the rows above the last, so that these are
/// not painted again on its account; and a renderer that was told to trust nothing knows of
/// no row, but keeps its status.
pub proof fn law_status_keeps_other_rows(
    v: RendererView,
    canvas: Canvas,
    status: Seq<char>,
    r: int,
)
    ensures
        r + 1 < canvas.rows ==> v.after_paint(canvas).with_status(status).known(r)
            == v.after_paint(canvas).known(r),
        v.with_status(status).known(r) is Some ==> v.with_status(status).known(r) == v.known(r),
        r + 1 < v.last_rows.len() && r + 1 != v.shown_rows ==> v.with_status(status).known(r)
            == v.known(r),
        v.with_status(status).status == status,
        v.invalidate().known(r) is None,
        v.invalidate().status == v.status,
{
}

/// The end of every row that is painted: the style is reset and what is left of the row is
/// erased.
pub open spec fn row_end() -> Seq<char> {
    "\x1b[0m\x1b[K"@
}

/// A row that is painted starts at its first column, and ends with the style reset and the
/// rest of the row erased, so that nothing older shows behind it.
pub proof fn law_painted_row_is_whole(v: RendererView, canvas: Canvas, r: int)
    requires
        0 <= r < canvas.rows,
    ensures
        ({
            let update = v.row_update(canvas, r);
            let start = "\x1b["@ + text::decimal((r + 1) as nat) + ";1H"@;
            update.len() > 0 ==> {
                &&& start.is_prefix_of(update)
                &&& start.len() + row_end().len() <= update.len()
                &&& update.skip(update.len() - row_end().len()) == row_end()
            }
        }),
        canvas.row_ansi(v.status, r as nat).skip(
            canvas.row_ansi(v.status, r as nat).len() - row_end().len(),
        ) == row_end(),
{
    let row = canvas.row_ansi(v.status, r as nat);
    let n = row.len() - row_end().len();
    reveal_strlit("\x1b[0m\x1b[K");
    reveal_strlit(" \x1b[0m\x1b[K");
    assert(row.skip(n) =~= row_end());
    let update = v.row_update(canvas, r);
    let start = "\x1b["@ + text::decimal((r + 1) as nat) + ";1H"@;
    if update.len() > 0 {
        assert(update == start + row);
        assert(start =~= update.take(start.len() as int));
        assert(update.skip(update.len() - row_end().len()) =~= row.skip(n));
    }
}

/// The style of a column: that of its cell, or the default where nothing was printed.
pub open spec fn column_style(row: Row, col: int) -> Seq<char> {
    if 0 <= col < row.len() && row[col] is Some {
        row[col]->0.sgr
    } else {
        "\x1b[0m"@
    }
}

/// To paint one column more is to print one character more, with the style selected before
/// it only where it changes: in the first column, where the style of the cell is another
/// than in the column before, and at either end of a selection.
pub proof fn law_styles_are_selected_where_they_change(
    row: Row,
    sel: render::Selection,
    r: nat,
    col: nat,
)
    ensures
        render::line_ansi(row, sel, r, 0) == Seq::<char>::empty(),
        ({
            let style = column_style(row, col as int);
            let reverse = render::selected(sel, r, col);
            let same = col > 0 && style == column_style(row, col - 1) && reverse
                == render::selected(sel, r, (col - 1) as nat);
            let plain = if style.len() == 0 {
                "\x1b[0m"@
            } else {
                style
            };
            render::line_ansi(row, sel, r, col + 1) == render::line_ansi(row, sel, r, col) + if same {
                seq![shown_at(row, col as int)]
            } else if reverse {
                plain + "\x1b[7m"@ + seq![shown_at(row, col as int)]
            } else {
                plain + seq![shown_at(row, col as int)]
            }
        }),
{
    let f = |c: int| render::cell_ansi(row, sel, r, c);
    let before = Seq::new(col, f);
    assert(Seq::new(0, f) =~= Seq::<Seq<char>>::empty());
    assert(Seq::new(col + 1, f) =~= before.push(f(col as int)));
    before.lemma_flatten_push(f(col as int));
    let style = column_style(row, col as int);
    let reverse = render::selected(sel, r, col);
    let same = col > 0 && style == column_style(row, col - 1) && reverse == render::selected(
        sel,
        r,
        (col - 1) as nat,
    );
    let plain = if style.len() == 0 {
        "\x1b[0m"@
    } else {
        style
    };
    assert(f(col as int) =~= if same {
        seq![shown_at(row, col as int)]
    } else if reverse {
        plain + "\x1b[7m"@ + seq![shown_at(row, col as int)]
    } else {
        plain + seq![shown_at(row, col as int)]
    });
}

/// A row of the terminal that does not show the status shows the row of the grid that lies
/// below it by the offset of the window, painted under that row's own number as far as both
/// the grid and the terminal are wide. Below the grid it is blank.
pub proof fn law_row_shows_its_row_of_the_grid(canvas: Canvas, status: Seq<char>, r: nat)
    requires
        status.len() == 0 || r + 1 != canvas.rows,
    ensures
        ({
            let g = canvas.grid;
            let i = r + g.window_offset(canvas.rows);
            let cols = if g.width <= canvas.cols {
                g.width
            } else {
                canvas.cols
            };
            let row = if i < g.rows.len() {
                g.rows[i as int]
            } else {
                Seq::empty()
            };
            canvas.row_ansi(status, r) == render::line_ansi(row, canvas.sel, i, cols) + row_end()
        }),
{
}

/// A status shows in the last row of the terminal, whatever the grid: even before the
/// first frame, when the grid is empty. It hides the cursor.
pub proof fn law_status_shows(v: RendererView, canvas: Canvas)
    requires
        v.status.len() > 0,
        canvas.rows > 0,
    ensures
        v.after_paint(canvas).known(canvas.rows - 1) == Some(
            "\x1b[0;7m "@ + v.status + " \x1b[0m\x1b[K"@,
        ),
        canvas.cursor_ansi(v.status) == Seq::<char>::empty(),
{
}

/// A grid row that is in the window is shown in the terminal row that lies the offset
/// above it: positions on the terminal map to the grid by the offset that `paint` uses.
pub proof fn law_window_maps_rows(canvas: Canvas, i: nat)
    requires
        canvas.grid.window_offset(canvas.rows) <= i < canvas.grid.window_offset(canvas.rows)
            + canvas.rows,
        i < canvas.grid.rows.len(),
    ensures
        ({
            let r = (i - canvas.grid.window_offset(canvas.rows)) as nat;
            r < canvas.rows && canvas.grid_row(r) == i && canvas.cells(r) == canvas.grid.rows[i as int]
        }),
{
}

/// The cursor is shown if and only if it is visible on the grid, lies in the window, and no
/// status stands in its place. The terminal row that it is put in is then the one that
/// shows the cursor's row of the grid, and the column is the cursor's, or the last one
/// where the terminal is too narrow.
pub proof fn law_cursor_is_put_where_it_is(canvas: Canvas, status: Seq<char>)
    ensures
        ({
            let g = canvas.grid;
            let offset = g.window_offset(canvas.rows);
            &&& canvas.shows_cursor(status) <==> g.cursor_visible && status.len() == 0 && exists|
                r: nat,
            |
                r < canvas.rows && #[trigger] canvas.grid_row(r) == g.cursor_row
            &&& canvas.shows_cursor(status) ==> {
                &&& canvas.grid_row(canvas.cursor_row()) == g.cursor_row
                &&& canvas.cursor_row() + offset == g.cursor_row
                &&& canvas.cursor_col() <= g.cursor_col
                &&& canvas.cursor_col() < g.cursor_col ==> canvas.cursor_col() + 1 == canvas.cols
                    || canvas.cursor_col() == 0 && canvas.cols == 0
                &&& canvas.cols > 0 ==> canvas.cursor_col() < canvas.cols
                &&& canvas.cols == 0 ==> canvas.cursor_col() == 0
            }
        }),
        forall|r: nat| #[trigger]
            canvas.grid_row(r) == r + canvas.grid.window_offset(canvas.rows),
        canvas.cursor_ansi(status) == if canvas.shows_cursor(status) {
            frames::goto_ansi(canvas.cursor_row(), canvas.cursor_col()) + frames::cursor_ansi(true)
        } else {
            Seq::empty()
        },
{
    reveal_strlit("\x1b[");
    reveal_strlit(";");
    reveal_strlit("H\x1b[?25h");
    if canvas.shows_cursor(status) {
        assert(canvas.cursor_ansi(status) =~= frames::goto_ansi(
            canvas.cursor_row(),
            canvas.cursor_col(),
        ) + frames::cursor_ansi(true));
    }
    let g = canvas.grid;
    let offset = g.window_offset(canvas.rows);
    if offset <= g.cursor_row < offset + canvas.rows {
        assert(canvas.grid_row((g.cursor_row - offset) as nat) == g.cursor_row);
    }
}

/// A cursor that is shown lies on the terminal.
pub proof fn law_cursor_stays_on_terminal(canvas: Canvas, status: Seq<char>)
    requires
        canvas.shows_cursor(status),
    ensures
        canvas.cursor_row() < canvas.rows,
        canvas.cols > 0 ==> canvas.cursor_col() < canvas.cols,
{
}

} // verus!
