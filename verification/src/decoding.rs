//! What each piece of a frame does to the grid, wherever in the frame it stands.
//!
//! A frame is read from left to right, and every frame can be built up by its pieces: what
//! is said here of the empty frame, and of each piece that is added at the end of one, says
//! what any frame does.

use vstd::prelude::*;

use crate::escape;
use crate::escape::Token;
use crate::frames;
use crate::grid;
use crate::grid::{CellView, GridView, Pen};
use crate::laws;
use crate::notation;

verus! {

/// The text does not end in the middle of an escape sequence: whatever comes behind it is
/// read as if it stood alone.
pub open spec fn is_whole(a: Seq<char>) -> bool {
    frames::pieces(a, escape::tokens(a))
}

/// Pieces are what they are decoded to.
proof fn lemma_whole(a: Seq<char>, ts: Seq<Token>)
    requires
        frames::pieces(a, ts),
    ensures
        is_whole(a),
        escape::tokens(a) == ts,
{
    frames::lemma_pieces_tokens(a, ts);
}

/// The decoder behind the first part of a frame.
pub open spec fn pen_after(g: GridView, a: Seq<char>) -> Pen {
    grid::run(g.start(), g.width, g.height, escape::tokens(a))
}

/// The decoder reads on behind a whole text.
proof fn lemma_read_on(g: GridView, a: Seq<char>, b: Seq<char>)
    requires
        is_whole(a),
    ensures
        pen_after(g, a + b) == grid::run(
            pen_after(g, a),
            g.width,
            g.height,
            escape::tokens(b),
        ),
{
    assert(escape::tokens(a + b) == escape::tokens(a) + escape::tokens(b));
    frames::lemma_run_concat(g.start(), g.width, g.height, escape::tokens(a), escape::tokens(b));
}

/// The decoder takes one step for one piece.
proof fn lemma_one_piece(g: GridView, a: Seq<char>, x: Seq<char>, t: Token)
    requires
        is_whole(a),
        frames::pieces(x, seq![t]),
    ensures
        pen_after(g, a + x) == grid::step(pen_after(g, a), g.width, g.height, t),
        is_whole(a + x),
{
    lemma_whole(x, seq![t]);
    lemma_read_on(g, a, x);
    let p = pen_after(g, a);
    assert(seq![t].skip(1) =~= Seq::<Token>::empty());
    reveal_with_fuel(grid::run, 2);
    frames::lemma_pieces_concat(a, escape::tokens(a), x, seq![t]);
    lemma_whole(a + x, escape::tokens(a) + seq![t]);
}

/// A piece that asks for nothing may as well not be there.
proof fn lemma_idle_piece(g: GridView, a: Seq<char>, x: Seq<char>, b: Seq<char>)
    requires
        is_whole(a),
        frames::pieces(x, seq![Token::Skip]),
    ensures
        g.apply(a + x + b) == g.apply(a + b),
{
    lemma_one_piece(g, a, x, Token::Skip);
    lemma_read_on(g, a + x, b);
    lemma_read_on(g, a, b);
}

/// A command is one piece.
proof fn lemma_command_is_whole(x: Seq<char>, body: Seq<char>)
    requires
        forall|i: int| 0 <= i < body.len() ==> #[trigger] body[i] != '\x07' && body[i] != '\x1b',
        x == seq!['\x1b', ']'] + body + seq!['\x07'] || x == seq!['\x1b', ']'] + body
            + seq!['\x1b', '\\'],
    ensures
        is_whole(x),
{
    assert forall|d: Seq<char>| #[trigger]
        escape::tokens(x + d) == seq![Token::Skip] + escape::tokens(d) by {
        let s = x + d;
        notation::law_commands_are_found(body, d);
        assert(s[0] == '\x1b' && s[1] == ']');
        assert(escape::osc(s) == Some(x.len()));
        assert(escape::first_token(s) == (Token::Skip, x.len()));
        assert(s.skip(x.len() as int) =~= d);
    }
    lemma_whole(x, seq![Token::Skip]);
}

/// Control sequences, commands, other escapes of two characters and characters that are no
/// escape are whole, and so is one whole text behind another.
pub proof fn law_whole_texts(
    a: Seq<char>,
    b: Seq<char>,
    params: Seq<char>,
    letter: char,
    body: Seq<char>,
    c: char,
)
    requires
        forall|i: int| 0 <= i < body.len() ==> #[trigger] body[i] != '\x07' && body[i] != '\x1b',
    ensures
        is_whole(Seq::empty()),
        is_whole(a) && is_whole(b) ==> is_whole(a + b),
        frames::is_control(params, letter) ==> is_whole(frames::control(params, letter)),
        is_whole(seq!['\x1b', ']'] + body + seq!['\x07']),
        is_whole(seq!['\x1b', ']'] + body + seq!['\x1b', '\\']),
        c != '\x1b' ==> is_whole(seq![c]),
        c != '[' && c != ']' ==> is_whole(seq!['\x1b', c]),
{
    frames::lemma_pieces_empty();
    lemma_whole(Seq::empty(), Seq::empty());
    if is_whole(a) && is_whole(b) {
        frames::lemma_pieces_concat(a, escape::tokens(a), b, escape::tokens(b));
        lemma_whole(a + b, escape::tokens(a) + escape::tokens(b));
    }
    if frames::is_control(params, letter) {
        frames::lemma_pieces_control(params, letter);
        let x = frames::control(params, letter);
        lemma_whole(x, seq![escape::csi_token(params, letter, x)]);
    }
    lemma_command_is_whole(seq!['\x1b', ']'] + body + seq!['\x07'], body);
    lemma_command_is_whole(seq!['\x1b', ']'] + body + seq!['\x1b', '\\'], body);
    if c != '\x1b' {
        frames::lemma_pieces_char(c);
        lemma_whole(seq![c], seq![escape::char_token(c)]);
    }
    if c != '[' && c != ']' {
        let x = seq!['\x1b', c];
        assert forall|d: Seq<char>| #[trigger]
            escape::tokens(x + d) == seq![Token::Skip] + escape::tokens(d) by {
            let s = x + d;
            assert(s[0] == '\x1b' && s[1] == c);
            assert(escape::first_token(s) == (Token::Skip, 2nat));
            assert(s.skip(2) =~= d);
        }
        lemma_whole(x, seq![Token::Skip]);
    }
}

/// An empty frame leaves every cell and the visibility of the cursor as they are, and puts
/// the cursor at the top left: that is where every frame starts.
pub proof fn law_frame_starts_at_the_top_left(g: GridView)
    ensures
        ({
            let after = g.apply(Seq::empty());
            &&& after.rows == g.rows
            &&& after.width == g.width
            &&& after.height == g.height
            &&& after.cursor_row == 0
            &&& after.cursor_col == 0
            &&& after.cursor_visible == g.cursor_visible
        }),
{
    assert(escape::tokens(Seq::<char>::empty()) =~= Seq::<Token>::empty());
}

/// A cursor position moves the cursor there and does nothing else.
pub proof fn law_goto_moves_the_cursor(g: GridView, a: Seq<char>, params: Seq<char>)
    requires
        is_whole(a),
        frames::is_control(params, 'H'),
    ensures
        g.apply(a + frames::control(params, 'H')) == (GridView {
            cursor_row: escape::target_row(params),
            cursor_col: escape::target_col(params),
            ..g.apply(a)
        }),
{
    let x = frames::control(params, 'H');
    frames::lemma_pieces_control(params, 'H');
    lemma_one_piece(g, a, x, escape::csi_token(params, 'H', x));
}

/// A toggle shows or hides the cursor and does nothing else.
pub proof fn law_toggle_shows_or_hides_the_cursor(g: GridView, a: Seq<char>, visible: bool)
    requires
        is_whole(a),
    ensures
        g.apply(a + frames::cursor_ansi(visible)) == (GridView {
            cursor_visible: visible,
            ..g.apply(a)
        }),
{
    frames::lemma_pieces_cursor(visible);
    lemma_one_piece(g, a, frames::cursor_ansi(visible), Token::Cursor(visible));
}

/// An erase, whatever its parameters, leaves no cell of the grid, and does nothing to the
/// cursor.
pub proof fn law_erase_leaves_no_cell(g: GridView, a: Seq<char>, params: Seq<char>)
    requires
        is_whole(a),
        frames::is_control(params, 'J'),
    ensures
        ({
            let before = g.apply(a);
            let after = g.apply(a + frames::control(params, 'J'));
            &&& after.rows.len() == g.height
            &&& forall|r: int| 0 <= r < g.height ==> (#[trigger] after.rows[r]).len() == g.width
            &&& forall|r: int, c: int|
                #![trigger after.rows[r][c]]
                0 <= r < g.height && 0 <= c < g.width ==> after.rows[r][c] is None
            &&& after.content_bottom == 0
            &&& after.width == g.width
            &&& after.height == g.height
            &&& after.cursor_row == before.cursor_row
            &&& after.cursor_col == before.cursor_col
            &&& after.cursor_visible == before.cursor_visible
        }),
{
    let x = frames::control(params, 'J');
    frames::lemma_pieces_control(params, 'J');
    lemma_one_piece(g, a, x, escape::csi_token(params, 'J', x));
    grid::lemma_bottom_row_blank(g.width, g.height);
}

/// A style shows nothing by itself.
pub proof fn law_style_shows_nothing_by_itself(g: GridView, a: Seq<char>, params: Seq<char>)
    requires
        is_whole(a),
        frames::is_control(params, 'm'),
    ensures
        g.apply(a + frames::style(params)) == g.apply(a),
{
    frames::lemma_pieces_style(params);
    lemma_one_piece(g, a, frames::style(params), Token::Style(frames::style(params)));
}

/// A printed character shows at the cursor, if that is on the grid, and moves the cursor
/// one column on, even beyond the last one; no other cell changes.
pub proof fn law_print_shows_at_the_cursor(g: GridView, a: Seq<char>, ch: char)
    requires
        g.rows.len() == g.height,
        forall|r: int| 0 <= r < g.height ==> (#[trigger] g.rows[r]).len() == g.width,
        is_whole(a),
        ch >= ' ',
        g.apply(a).cursor_col < usize::MAX,
    ensures
        ({
            let before = g.apply(a);
            let after = g.apply(a + seq![ch]);
            &&& after.width == g.width
            &&& after.height == g.height
            &&& after.cursor_row == before.cursor_row
            &&& after.cursor_col == before.cursor_col + 1
            &&& after.cursor_visible == before.cursor_visible
            &&& after.rows.len() == g.height
            &&& forall|r: int| 0 <= r < g.height ==> (#[trigger] after.rows[r]).len() == g.width
            &&& forall|r: int, c: int|
                #![trigger after.rows[r][c]]
                0 <= r < g.height && 0 <= c < g.width ==> if r == before.cursor_row && c
                    == before.cursor_col {
                    after.rows[r][c] is Some && after.rows[r][c]->0.ch == ch
                } else {
                    after.rows[r][c] == before.rows[r][c]
                }
        }),
{
    frames::lemma_pieces_char(ch);
    lemma_one_piece(g, a, seq![ch], Token::Print(ch));
    laws::law_apply_keeps_shape(g, a);
    laws::law_apply_keeps_shape(g, a + seq![ch]);
    let before = g.apply(a);
    if before.cursor_row < g.height {
        assert(before.rows[before.cursor_row as int].len() == g.width);
    }
}

/// A tab is a space.
pub proof fn law_tab_is_a_space(g: GridView, a: Seq<char>, b: Seq<char>)
    requires
        is_whole(a),
    ensures
        g.apply(a + seq!['\t'] + b) == g.apply(a + seq![' '] + b),
{
    frames::lemma_pieces_char('\t');
    frames::lemma_pieces_char(' ');
    lemma_one_piece(g, a, seq!['\t'], Token::Print(' '));
    lemma_one_piece(g, a, seq![' '], Token::Print(' '));
    lemma_read_on(g, a + seq!['\t'], b);
    lemma_read_on(g, a + seq![' '], b);
}

/// The control characters, but for the tab and the escape, do nothing.
pub proof fn law_control_characters_do_nothing(g: GridView, a: Seq<char>, c: char, b: Seq<char>)
    requires
        is_whole(a),
        c < ' ',
        c != '\t',
        c != '\x1b',
    ensures
        g.apply(a + seq![c] + b) == g.apply(a + b),
{
    frames::lemma_pieces_char(c);
    lemma_idle_piece(g, a, seq![c], b);
}

/// A control sequence with any other letter does nothing, and neither does one that sets or
/// resets anything but the visibility of the cursor.
pub proof fn law_other_control_sequences_do_nothing(
    g: GridView,
    a: Seq<char>,
    params: Seq<char>,
    letter: char,
    b: Seq<char>,
)
    requires
        is_whole(a),
        frames::is_control(params, letter),
        letter != 'H',
        letter != 'm',
        letter != 'J',
        letter == 'h' || letter == 'l' ==> params != seq!['?', '2', '5'],
    ensures
        g.apply(a + frames::control(params, letter) + b) == g.apply(a + b),
{
    frames::lemma_pieces_control(params, letter);
    lemma_idle_piece(g, a, frames::control(params, letter), b);
}

/// A command does nothing: none of it is printed.
pub proof fn law_commands_do_nothing(g: GridView, a: Seq<char>, s: Seq<char>)
    requires
        is_whole(a),
        s.len() > 0,
        escape::osc(s) is Some,
    ensures
        g.apply(a + s) == g.apply(a + s.skip(escape::osc(s)->0 as int)),
{
    let n = escape::osc(s)->0;
    assert(s[0] == '\x1b' && s[1] == ']');
    assert(escape::csi(s) is None);
    assert(escape::first_token(s) == (Token::Skip, n));
    lemma_read_past(g, a, s);
}

/// Any other escape does nothing, and neither does the one character behind it; what comes
/// then is read as usual.
pub proof fn law_other_escapes_do_nothing(g: GridView, a: Seq<char>, s: Seq<char>)
    requires
        is_whole(a),
        s.len() > 0,
        s[0] == '\x1b',
        escape::csi(s) is None,
        escape::osc(s) is None,
    ensures
        s.len() >= 2 ==> g.apply(a + s) == g.apply(a + s.skip(2)),
        s.len() == 1 ==> g.apply(a + s) == g.apply(a),
{
    lemma_read_past(g, a, s);
    if s.len() == 1 {
        assert(a + s.skip(1) =~= a);
    }
}

/// The decoder reads past a piece that asks for nothing.
proof fn lemma_read_past(g: GridView, a: Seq<char>, s: Seq<char>)
    requires
        is_whole(a),
        s.len() > 0,
        escape::first_token(s).0 == Token::Skip,
    ensures
        g.apply(a + s) == g.apply(a + s.skip(escape::first_token(s).1 as int)),
{
    let rest = s.skip(escape::first_token(s).1 as int);
    lemma_read_on(g, a, s);
    lemma_read_on(g, a, rest);
    grid::lemma_run_first(pen_after(g, a), g.width, g.height, s);
}

/// Text without the letter that ends a style selects none.
proof fn lemma_no_style(s: Seq<char>)
    requires
        forall|i: int| 0 <= i < s.len() ==> #[trigger] s[i] != 'm',
    ensures
        forall|i: int|
            0 <= i < escape::tokens(s).len() ==> !(#[trigger] escape::tokens(s)[i] is Style),
    decreases s.len(),
{
    if s.len() > 0 {
        escape::lemma_first_token_len(s);
        let (t, n) = escape::first_token(s);
        let rest = s.skip(n as int);
        assert forall|i: int| 0 <= i < rest.len() implies #[trigger] rest[i] != 'm' by {
            assert(rest[i] == s[i + n]);
        }
        lemma_no_style(rest);
        assert(!(t is Style)) by {
            if let Some((params, letter, len)) = escape::csi(s) {
                assert(letter == s[len - 1]);
            }
        }
        assert(escape::tokens(s) == seq![t] + escape::tokens(rest));
        assert forall|i: int| 0 <= i < escape::tokens(s).len() implies !(#[trigger] escape::tokens(
            s,
        )[i] is Style) by {
            if i > 0 {
                assert(escape::tokens(s)[i] == escape::tokens(rest)[i - 1]);
            }
        }
    }
}

/// Pieces that select no style leave the one in force.
proof fn lemma_style_stays(pen: Pen, width: nat, height: nat, ts: Seq<Token>)
    requires
        forall|i: int| 0 <= i < ts.len() ==> !(#[trigger] ts[i] is Style),
    ensures
        grid::run(pen, width, height, ts).sgr == pen.sgr,
    decreases ts.len(),
{
    if ts.len() > 0 {
        let rest = ts.skip(1);
        assert(!(ts[0] is Style));
        assert forall|i: int| 0 <= i < rest.len() implies !(#[trigger] rest[i] is Style) by {
            assert(rest[i] == ts[i + 1]);
        }
        lemma_style_stays(grid::step(pen, width, height, ts[0]), width, height, rest);
    }
}

/// What is printed at the end of a whole text has the style in force.
proof fn lemma_printed_style(g: GridView, a: Seq<char>, ch: char)
    requires
        g.well_shaped(),
        is_whole(a),
        ch >= ' ',
        g.apply(a).cursor_row < g.height,
        g.apply(a).cursor_col < g.width,
    ensures
        g.apply(a + seq![ch]).rows[g.apply(a).cursor_row as int][g.apply(a).cursor_col as int]
            == Some(CellView { sgr: pen_after(g, a).sgr, ch }),
{
    frames::lemma_pieces_char(ch);
    lemma_one_piece(g, a, seq![ch], Token::Print(ch));
    laws::law_apply_keeps_shape(g, a);
    let before = g.apply(a);
    assert(before.rows[before.cursor_row as int].len() == g.width);
}

/// A style stays in force until another is selected: over printed text, cursor positions,
/// erases, toggles and whatever else lies between. A character that is printed then has
/// exactly this style, the whole sequence that selected it.
pub proof fn law_style_stays_in_force(
    g: GridView,
    a: Seq<char>,
    params: Seq<char>,
    b: Seq<char>,
    ch: char,
)
    requires
        g.rows.len() == g.height,
        forall|r: int| 0 <= r < g.height ==> (#[trigger] g.rows[r]).len() == g.width,
        is_whole(a),
        frames::is_control(params, 'm'),
        is_whole(b),
        forall|i: int| 0 <= i < b.len() ==> #[trigger] b[i] != 'm',
        ch >= ' ',
        g.apply(a + frames::style(params) + b).cursor_row < g.height,
        g.apply(a + frames::style(params) + b).cursor_col < g.width,
    ensures
        ({
            let text = a + frames::style(params) + b;
            let before = g.apply(text);
            g.apply(text + seq![ch]).rows[before.cursor_row as int][before.cursor_col as int]
                == Some(CellView { sgr: frames::style(params), ch })
        }),
{
    let x = frames::style(params);
    frames::lemma_pieces_style(params);
    lemma_one_piece(g, a, x, Token::Style(x));
    lemma_read_on(g, a + x, b);
    lemma_no_style(b);
    lemma_style_stays(pen_after(g, a + x), g.width, g.height, escape::tokens(b));
    law_whole_texts(a + x, b, params, 'm', Seq::empty(), 'm');
    lemma_printed_style(g, a + x + b, ch);
}

/// What is printed before any style is selected has none: a frame does not take over the
/// style of the one before it.
pub proof fn law_frame_starts_without_a_style(g: GridView, b: Seq<char>, ch: char)
    requires
        g.rows.len() == g.height,
        forall|r: int| 0 <= r < g.height ==> (#[trigger] g.rows[r]).len() == g.width,
        is_whole(b),
        forall|i: int| 0 <= i < b.len() ==> #[trigger] b[i] != 'm',
        ch >= ' ',
        g.apply(b).cursor_row < g.height,
        g.apply(b).cursor_col < g.width,
    ensures
        ({
            let before = g.apply(b);
            g.apply(b + seq![ch]).rows[before.cursor_row as int][before.cursor_col as int] == Some(
                CellView { sgr: Seq::empty(), ch },
            )
        }),
{
    lemma_no_style(b);
    lemma_style_stays(g.start(), g.width, g.height, escape::tokens(b));
    lemma_printed_style(g, b, ch);
}

} // verus!
