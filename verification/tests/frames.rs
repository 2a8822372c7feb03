use pane_mirror::escape::{parse_csi, parse_osc, parse_target};
use pane_mirror::grid::{in_selection, Grid};
use pane_mirror::text::{
    from_chars, from_chars_trimmed, parse_number, push_decimal, same_text, starts_with, to_chars,
    white_space,
};

fn grid(width: usize, height: usize, frame: &str) -> Grid {
    let mut g = Grid::new();
    g.resize(width, height);
    g.apply(frame);
    g
}

fn chars(s: &str) -> Vec<char> {
    s.chars().collect()
}

#[test]
fn white_space_is_that_of_unicode() {
    for c in '\0'..=char::MAX {
        assert_eq!(white_space(c), c.is_whitespace());
    }
}

#[test]
fn numbers_are_read_and_written() {
    assert_eq!(parse_number(&chars("0")), Some(0));
    assert_eq!(parse_number(&chars("007")), Some(7));
    assert_eq!(parse_number(&chars("")), None);
    assert_eq!(parse_number(&chars("1:2")), None);
    assert_eq!(parse_number(&chars(&usize::MAX.to_string())), Some(usize::MAX));
    assert_eq!(parse_number(&chars("99999999999999999999999999")), None);
    for n in [0usize, 9, 10, 1234, usize::MAX] {
        let mut out = String::from("n=");
        push_decimal(&mut out, n);
        assert_eq!(out, format!("n={n}"));
        assert_eq!(parse_number(&chars(&out[2..])), Some(n));
    }
    // one more than fits
    let mut over = (usize::MAX / 10).to_string();
    over.push('9');
    assert_eq!(parse_number(&chars(&over)), None);
}

#[test]
fn text_helpers() {
    assert_eq!(to_chars("añ"), vec!['a', 'ñ']);
    assert_eq!(from_chars(&['a', 'ñ']), "añ");
    assert_eq!(from_chars_trimmed(&chars(" a b \u{3000}\t")), " a b");
    assert_eq!(from_chars_trimmed(&chars("   ")), "");
    assert!(starts_with("work: api", "work: "));
    assert!(starts_with("work", ""));
    assert!(!starts_with("work", "work: "));
    assert!(!starts_with("home: api", "work: "));
    assert!(same_text("añ", "añ"));
    assert!(!same_text("ab", "abc"));
    assert!(!same_text("abc", "ab"));
    assert!(!same_text("ab", "ac"));
}

#[test]
fn control_sequences() {
    assert_eq!(parse_csi(&chars("\x1b[1;2Hx")), Some((chars("1;2"), 'H', 6)));
    assert_eq!(parse_csi(&chars("\x1b[K")), Some((vec![], 'K', 3)));
    assert_eq!(parse_csi(&chars("\x1b[?25h")), Some((chars("?25"), 'h', 6)));
    assert_eq!(parse_csi(&chars("\x1b[38:5:1m")), Some((chars("38:5:1"), 'm', 9)));
    assert_eq!(parse_csi(&chars("\x1b[")), None);
    assert_eq!(parse_csi(&chars("\x1b]0m")), None);
    assert_eq!(parse_csi(&chars("x[0m")), None);
    // neither a parameter nor a letter
    assert_eq!(parse_csi(&chars("\x1b[1 q")), None);
    assert_eq!(parse_csi(&chars("\x1b[1;2")), None);
    // the longest that is recognised has 64 characters
    let longest = format!("\x1b[{}m", "1".repeat(61));
    assert_eq!(parse_csi(&chars(&longest)), Some((chars(&"1".repeat(61)), 'm', 64)));
    assert_eq!(parse_csi(&chars(&format!("\x1b[{}m", "1".repeat(62)))), None);
}

#[test]
fn operating_system_commands() {
    assert_eq!(parse_osc(&chars("\x1b]0;t\x07x")), Some(6));
    assert_eq!(parse_osc(&chars("\x1b]0;t\x1b\\x")), Some(7));
    assert_eq!(parse_osc(&chars("\x1b]\x07")), Some(3));
    assert_eq!(parse_osc(&chars("\x1b]0;t\x1b[0m")), None);
    assert_eq!(parse_osc(&chars("\x1b]0;t\x1b")), None);
    assert_eq!(parse_osc(&chars("\x1b]0;t")), None);
    assert_eq!(parse_osc(&chars("\x1b[0m")), None);
    assert_eq!(parse_osc(&chars("\x1b")), None);
}

#[test]
fn cursor_targets() {
    assert_eq!(parse_target(&chars("3;7")), (2, 6));
    assert_eq!(parse_target(&chars("")), (0, 0));
    assert_eq!(parse_target(&chars("5")), (4, 0));
    assert_eq!(parse_target(&chars("5;")), (4, 0));
    assert_eq!(parse_target(&chars(";5")), (0, 4));
    assert_eq!(parse_target(&chars("0;0")), (0, 0));
    assert_eq!(parse_target(&chars("3;7;9")), (2, 6));
    assert_eq!(parse_target(&chars("?3;4:5")), (0, 0));
    assert_eq!(parse_target(&chars("99999999999999999999999999;2")), (0, 1));
}

#[test]
fn last_cell_wins_and_the_rest_stays() {
    let mut g = grid(3, 2, "\x1b[1;1Habc\x1b[2;1Hdef");
    g.apply("\x1b[1;2H\x1b[1mX\x1b[1;2H\x1b[4mY\x1b[9;9H\x1b[0mZ\x1b[2;3H\x1b[?25h\x1b[?25l");
    assert_eq!(g.text_lines(), vec!["aYc", "def"]);
    assert_eq!(&*g.rows[0][1].as_ref().unwrap().sgr, "\x1b[4m");
    assert_eq!(&*g.rows[0][0].as_ref().unwrap().sgr, "");
    assert_eq!((g.cursor_row, g.cursor_col), (1, 2));
    assert!(!g.cursor_visible);
}

#[test]
fn frames_are_self_contained() {
    let mut a = grid(4, 2, "\x1b[2;3H\x1b[31m");
    let mut b = grid(4, 2, "");
    assert_eq!((a.cursor_row, a.cursor_col), (1, 2));
    a.apply("hi");
    b.apply("hi");
    assert_eq!(a.text_lines(), b.text_lines());
    assert_eq!(&*a.rows[0][0].as_ref().unwrap().sgr, "");
    assert_eq!((a.cursor_row, a.cursor_col), (b.cursor_row, b.cursor_col));
}

#[test]
fn what_does_not_fit_is_lost() {
    let g = grid(3, 1, "\x1b[1;2Habcd\x1b[5;1Hx");
    assert_eq!(g.text_lines(), vec![" ab"]);
    assert_eq!((g.cursor_row, g.cursor_col), (4, 1));
    assert_eq!(g.content_bottom, 0);
    let empty = grid(0, 0, "x\x1b[2J");
    assert!(empty.text_lines().is_empty());
    assert_eq!(empty.content_bottom, 0);
}

#[test]
fn other_escapes_take_two_characters() {
    let g = grid(8, 1, "a\x1b(Bb\x07\nc\x1b");
    assert_eq!(g.text_lines(), vec!["aBbc"]);
    let h = grid(8, 1, "\x1b]0;ab");
    assert_eq!(h.text_lines(), vec!["0;ab"]);
    let k = grid(8, 1, "\x1b[1 q");
    assert_eq!(k.text_lines(), vec!["1 q"]);
    let m = grid(8, 1, "\x1b[Kx\x1b[?7h");
    assert_eq!(m.text_lines(), vec!["x"]);
    assert!(m.cursor_visible);
}

#[test]
fn column_counter_wraps() {
    let g = grid(2, 1, &format!("\x1b[1;{}Hxyz", usize::MAX));
    assert_eq!(g.cursor_col, 1);
    assert_eq!(g.text_lines(), vec!["z"]);
}

#[test]
fn clear_keeps_the_cursor() {
    let mut g = grid(4, 2, "\x1b[1;1Habcd\x1b[2;2H");
    g.clear();
    assert_eq!(g.text_lines(), vec!["", ""]);
    assert_eq!((g.cursor_row, g.cursor_col, g.content_bottom), (1, 1, 0));
    assert!(g.rows.iter().all(|row| row.len() == 4 && row.iter().all(|c| c.is_none())));
}

#[test]
fn resize_blanks_only_on_change() {
    let mut g = grid(4, 2, "\x1b[2;1Hab");
    g.resize(4, 2);
    assert_eq!(g.text_lines(), vec!["", "ab"]);
    g.resize(4, 3);
    assert_eq!(g.text_lines(), vec!["", "", ""]);
    assert_eq!((g.width, g.height, g.content_bottom), (4, 3, 0));
    let d = Grid::default();
    assert!(!d.cursor_visible && d.rows.is_empty());
    assert!(Grid::new().cursor_visible);
}

#[test]
fn content_bottom_is_the_last_row_with_ink() {
    let g = grid(3, 4, "\x1b[1;1Ha\x1b[2;1Hb\x1b[4;1H   ");
    assert_eq!(g.content_bottom, 1);
    // white space other than the space is ink, but no text
    let h = grid(3, 2, "\x1b[2;1H\u{a0}");
    assert_eq!(h.content_bottom, 1);
    assert_eq!(h.text_lines(), vec!["", ""]);
}

#[test]
fn window_ends_at_the_bottom() {
    let mut g = grid(2, 10, "\x1b[7;1Hx\x1b[1;1H");
    assert_eq!(g.window_offset(3), 4);
    assert_eq!(g.window_offset(7), 0);
    assert_eq!(g.window_offset(0), 7);
    g.apply("\x1b[9;1H");
    assert_eq!(g.window_offset(3), 6);
}

#[test]
fn selections_are_ranges_in_reading_order() {
    let (s, e) = ((1, 5), (3, 2));
    assert!(in_selection(s, s, e));
    assert!(in_selection(e, s, e));
    assert!(in_selection((2, 99), s, e));
    assert!(in_selection((3, 0), s, e));
    assert!(!in_selection((1, 4), s, e));
    assert!(!in_selection((3, 3), s, e));
    assert!(!in_selection((2, 0), e, s));
}

#[test]
fn copied_is_highlighted() {
    let g = grid(4, 3, "\x1b[1;1Habcd\x1b[2;1Hefgh\x1b[3;1Hijkl");
    let (s, e) = ((0, 2), (2, 1));
    let mut highlighted = String::new();
    for r in 0..3 {
        for c in 0..4 {
            if in_selection((r, c), s, e) {
                highlighted.push(g.rows[r][c].as_ref().unwrap().ch);
            }
        }
    }
    assert_eq!(highlighted, "cdefghij");
    assert_eq!(g.extract_text(s, e), highlighted);
}

#[test]
fn copying_all_gives_the_lines() {
    let g = grid(6, 4, "\x1b[1;2Hab\x1b[2;1Hcd \x1b[4;1Hef");
    assert_eq!(g.extract_text((0, 0), (3, 5)), g.text_lines().join("\n"));
    // a selection that goes on below the grid ends with the grid
    assert_eq!(g.extract_text((0, 0), (9, 0)), g.text_lines().join("\n"));
    assert_eq!(g.extract_text((0, 0), (3, 5)), " ab\ncd\n\nef");
}

#[test]
fn wrapped_rows_join() {
    let g = grid(3, 3, "\x1b[1;1Hab\u{a0}\x1b[2;1Hcde\x1b[3;1Hf");
    assert_eq!(g.extract_text((0, 0), (2, 2)), "ab\u{a0}cdef");
    // the start lies beyond the last column
    assert_eq!(g.extract_text((0, 7), (1, 0)), "c");
    // the end comes before the start
    assert_eq!(g.extract_text((2, 0), (1, 0)), "");
    assert_eq!(g.extract_text((1, 2), (1, 0)), "");
    // a row that is shorter than the grid shows spaces behind its end
    let mut short = grid(4, 2, "\x1b[1;1Habcd\x1b[2;1Hefgh");
    short.rows[0].truncate(2);
    assert_eq!(short.extract_text((0, 0), (1, 3)), "ab  efgh");
    short.rows[1].clear();
    assert_eq!(short.extract_text((1, 0), (1, 3)), "");
    // nothing to copy from
    assert_eq!(Grid::new().extract_text((1, 0), (2, 0)), "");
}
