use pane_mirror::grid::Grid;
use pane_mirror::render::Renderer;

const START: &str = "\x1b[?2026h\x1b[?25l";
const END: &str = "\x1b[?2026l";

fn grid(width: usize, height: usize, frame: &str) -> Grid {
    let mut g = Grid::new();
    g.resize(width, height);
    g.apply(frame);
    g
}

/// What a terminal of the given size shows after it was given `painted`.
fn shown(width: usize, height: usize, painted: &[String]) -> Grid {
    let mut screen = Grid::new();
    screen.resize(width, height);
    for p in painted {
        screen.apply(p);
    }
    screen
}

#[test]
fn paints_rows_styles_and_cursor() {
    let g = grid(3, 2, "\x1b[1;1H\x1b[1mab\x1b[2;1H\x1b[0mc\x1b[2;2H");
    let mut r = Renderer::new();
    assert_eq!(
        r.paint(&g, 3, 2, None),
        format!(
            "{START}\x1b[1;1H\x1b[1mab\x1b[0m \x1b[0m\x1b[K\x1b[2;1H\x1b[0mc  \x1b[0m\x1b[K\
             \x1b[2;2H\x1b[?25h{END}"
        )
    );
}

#[test]
fn empty_style_is_the_default_style() {
    let g = grid(2, 1, "a");
    let mut r = Renderer::new();
    let out = r.paint(&g, 2, 1, None);
    // the cell without a style and the one never printed differ in style
    assert!(out.contains("\x1b[1;1H\x1b[0ma\x1b[0m \x1b[0m\x1b[K"));
}

#[test]
fn selection_is_reversed() {
    let g = grid(4, 1, "\x1b[32mabcd\x1b[?25l");
    let mut r = Renderer::new();
    assert_eq!(
        r.paint(&g, 4, 1, Some(((0, 1), (0, 2)))),
        format!(
            "{START}\x1b[1;1H\x1b[32ma\x1b[32m\x1b[7mbc\x1b[32md\x1b[0m\x1b[K{END}"
        )
    );
}

#[test]
fn painting_again_paints_no_row() {
    let g = grid(3, 2, "\x1b[1;1Hab\x1b[2;2H");
    let mut r = Renderer::new();
    r.paint(&g, 3, 2, None);
    assert_eq!(r.paint(&g, 3, 2, None), format!("{START}\x1b[2;2H\x1b[?25h{END}"));
}

#[test]
fn only_changed_rows_are_painted() {
    let mut g = grid(3, 2, "\x1b[1;1Hab\x1b[2;1Hcd\x1b[?25l");
    let mut r = Renderer::new();
    r.paint(&g, 3, 2, None);
    g.apply("\x1b[2;1Hxx\x1b[2;1H");
    assert_eq!(
        r.paint(&g, 3, 2, None),
        format!("{START}\x1b[2;1H\x1b[0mxx\x1b[0m \x1b[0m\x1b[K{END}")
    );
}

#[test]
fn invalidate_paints_every_row() {
    let g = grid(3, 2, "\x1b[1;1Hab\x1b[2;1Hcd");
    let mut r = Renderer::new();
    let first = r.paint(&g, 3, 2, None);
    r.invalidate();
    assert_eq!(r.paint(&g, 3, 2, None), first);
}

#[test]
fn status_takes_the_last_row_and_hides_the_cursor() {
    let g = Grid::new();
    let mut r = Renderer::new();
    r.status("busy");
    let row = "\x1b[2;1H\x1b[0;7m busy \x1b[0m\x1b[K";
    assert_eq!(
        r.paint(&g, 8, 2, None),
        format!("{START}\x1b[1;1H\x1b[0m\x1b[K{row}{END}")
    );
    // the same status again forces the last row
    r.status("busy");
    assert_eq!(r.paint(&g, 8, 2, None), format!("{START}{row}{END}"));
    // no status gives the row back
    r.status("");
    let out = r.paint(&g, 8, 2, None);
    assert!(!out.contains("busy") && out.ends_with("\x1b[1;1H\x1b[?25h\x1b[?2026l"));
}

#[test]
fn status_on_a_terminal_that_shrank() {
    let g = grid(2, 3, "");
    let mut r = Renderer::new();
    r.status("one");
    r.paint(&g, 2, 3, None);
    let out = r.paint(&g, 2, 2, None);
    assert!(out.contains("\x1b[2;1H\x1b[0;7m one "));
    // the same status again forces the last row that the terminal has now
    r.status("one");
    assert_eq!(
        r.paint(&g, 2, 2, None),
        format!("{START}\x1b[2;1H\x1b[0;7m one \x1b[0m\x1b[K{END}")
    );
    r.status("two");
    assert!(r.paint(&g, 2, 2, None).contains("\x1b[2;1H\x1b[0;7m two "));
}

#[test]
fn window_maps_rows() {
    let g = grid(5, 10, "\x1b[9;1Hninth\x1b[10;1Hlast");
    let mut r = Renderer::new();
    let out = r.paint(&g, 5, 3, None);
    let screen = shown(5, 3, &[out]);
    assert_eq!(g.window_offset(3), 7);
    assert_eq!(screen.text_lines(), vec!["", "ninth", "last"]);
    assert_eq!((screen.cursor_row, screen.cursor_col), (2, 4));
}

#[test]
fn cursor_stays_on_the_terminal() {
    let g = grid(8, 1, "\x1b[1;8H");
    let mut r = Renderer::new();
    let out = r.paint(&g, 4, 1, None);
    assert!(out.ends_with(&format!("\x1b[1;4H\x1b[?25h{END}")));
    let out = r.paint(&g, 0, 1, None);
    assert!(out.ends_with(&format!("\x1b[1;1H\x1b[?25h{END}")));
    // the cursor is above the window
    let tall = grid(2, 9, "\x1b[9;1Hx\x1b[1;1H");
    let mut r = Renderer::new();
    assert!(!r.paint(&tall, 2, 3, None).contains("\x1b[?25h"));
    // no rows, no cursor
    let mut r = Renderer::default();
    assert_eq!(r.paint(&tall, 2, 0, None), format!("{START}{END}"));
}

#[test]
fn paint_reaches_the_screen() {
    let mut g = grid(6, 4, "\x1b[1;1H\x1b[31mred\x1b[3;2H\x1b[1;4mB\x1b[4;6Hz\x1b[2;2H");
    let mut r = Renderer::new();
    let mut painted = vec![r.paint(&g, 6, 4, None)];
    assert_eq!(shown(6, 4, &painted).text_lines(), g.text_lines());
    g.apply("\x1b[2;1Hmore\x1b[4;6H \x1b[1;1H");
    painted.push(r.paint(&g, 6, 4, Some(((0, 0), (1, 2)))));
    let screen = shown(6, 4, &painted);
    assert_eq!(screen.text_lines(), g.text_lines());
    assert_eq!((screen.cursor_row, screen.cursor_col), (0, 0));
    assert!(screen.cursor_visible);
    // selected cells are in reverse, the others in their own style or the default one
    let sgr = |r: usize, c: usize| screen.rows[r][c].as_ref().unwrap().sgr.to_string();
    assert_eq!(sgr(0, 0), "\x1b[7m");
    assert_eq!(sgr(1, 2), "\x1b[7m");
    assert_eq!(sgr(1, 3), "\x1b[0m");
    assert_eq!(sgr(2, 1), "\x1b[1;4m");
    assert_eq!(sgr(2, 0), "\x1b[0m");
    assert!(painted[1].contains("\x1b[31m\x1b[7mred"));
    r.status("bye");
    painted.push(r.paint(&g, 6, 4, None));
    let screen = shown(6, 4, &painted);
    assert_eq!(screen.text_lines(), vec!["red", "more", " B", " bye"]);
    assert!(!screen.cursor_visible);
}
