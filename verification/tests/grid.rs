use pane_mirror::grid::Grid;
use pane_mirror::render::Renderer;

#[test]
fn decodes_per_cell_frame() {
    let mut g = Grid::new();
    g.resize(10, 4);
    g.apply("\x1b[1;1H\x1b[0mhi\x1b[3;2H\x1b[31mX\x1b[2;1H\x1b[?25h");
    assert_eq!(g.text_lines(), vec!["hi", "", " X", ""]);
    assert_eq!(g.content_bottom, 2);
    assert_eq!((g.cursor_row, g.cursor_col), (1, 0));
    assert!(g.cursor_visible);
    assert_eq!(&*g.rows[2][1].as_ref().unwrap().sgr, "\x1b[31m");
}

#[test]
fn clear_and_visibility() {
    let mut g = Grid::new();
    g.resize(4, 2);
    g.apply("\x1b[1;1Habcd\x1b[2;1Hwxyz");
    assert_eq!(g.content_bottom, 1);
    g.apply("\x1b[2J\x1b[?25l");
    assert_eq!(g.text_lines(), vec!["", ""]);
    assert!(!g.cursor_visible);
}

#[test]
fn skips_osc_and_tabs() {
    let mut g = Grid::new();
    g.resize(8, 1);
    g.apply("\x1b]0;title\x07\x1b[1;1Ha\tb");
    assert_eq!(g.text_lines(), vec!["a b"]);
}

#[test]
fn content_bottom_shrinks_when_delta_erases() {
    let mut g = Grid::new();
    g.resize(6, 8);
    g.apply("\x1b[1;1Htop\x1b[7;1Hbottom");
    assert_eq!(g.content_bottom, 6);
    // delta frame erases the bottom content with spaces
    g.apply("\x1b[7;1H      ");
    assert_eq!(g.content_bottom, 0);
}

#[test]
fn extract_joins_wrapped_rows() {
    let mut g = Grid::new();
    g.resize(6, 4);
    // row0 runs into the last column (wrapped), rows 1-2 are short
    g.apply("\x1b[1;1Habcdef\x1b[2;1Hgh\x1b[3;1Hxy");
    // full selection: wrapped row joins, short row gets a newline
    assert_eq!(g.extract_text((0, 0), (2, 5)), "abcdefgh\nxy");
    // partial: mid-row start, mid-row end
    assert_eq!(g.extract_text((0, 2), (1, 0)), "cdefg");
    // single row slice
    assert_eq!(g.extract_text((1, 0), (1, 5)), "gh");
}

#[test]
fn paint_reverses_selection() {
    let mut g = Grid::new();
    g.resize(4, 2);
    g.apply("\x1b[1;1Habcd\x1b[2;1Hwxyz");
    let mut r = Renderer::new();
    let out = r.paint(&g, 4, 2, Some(((0, 1), (0, 2))));
    assert!(out.contains("\x1b[7m"));
    // growing the selection repaints via the row diff alone
    let out2 = r.paint(&g, 4, 2, Some(((0, 1), (0, 3))));
    assert!(out2.contains("\x1b[7m"));
}

#[test]
fn status_paints_on_empty_grid() {
    // before the first frame the grid is 0x0: status must still render
    let g = Grid::new();
    let mut r = Renderer::new();
    r.status("reconnecting in 5s");
    let out = r.paint(&g, 80, 24, None);
    assert!(out.contains("reconnecting in 5s"));
}

#[test]
fn renderer_bottom_anchors_and_status() {
    let mut g = Grid::new();
    g.resize(5, 10);
    g.apply("\x1b[10;1Hlast"); // content at the bottom row of a tall grid
    let mut r = Renderer::new();
    let out = r.paint(&g, 5, 3, None);
    // window shows rows 8..10, so "last" lands on the visible last row
    assert!(out.contains("last"));
    r.status("HELLO");
    let out2 = r.paint(&g, 5, 3, None);
    assert!(out2.contains("HELLO"));
    // unchanged rows are not repainted
    let out3 = r.paint(&g, 5, 3, None);
    assert!(!out3.contains("last"));
}
