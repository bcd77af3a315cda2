use termii::terminal::{color_from_256, Cell, Color, TerminalGrid, MAX_SCROLLBACK};
use termii::ui::terminal_view::{ordered_selection, selection_text};

fn feed(g: &mut TerminalGrid, text: &str) {
    for c in text.chars() {
        g.print(c);
    }
}

fn row_text(g: &TerminalGrid, r: usize) -> String {
    g.cells[r].iter().map(|c| c.c).collect::<String>()
}

fn csi(g: &mut TerminalGrid, params: &[&[u16]], action: char) {
    let ps: Vec<Vec<u16>> = params.iter().map(|p| p.to_vec()).collect();
    g.csi_dispatch(&ps, &[], false, action);
}

fn private_csi(g: &mut TerminalGrid, params: &[&[u16]], action: char) {
    let ps: Vec<Vec<u16>> = params.iter().map(|p| p.to_vec()).collect();
    g.csi_dispatch(&ps, &[b'?'], false, action);
}

#[test]
fn new_grid_is_blank_with_cursor_home() {
    let g = TerminalGrid::new(4, 2);
    assert_eq!(g.cells.len(), 2);
    assert_eq!(g.cells[0].len(), 4);
    assert_eq!(g.cells[1][3], Cell::default());
    assert_eq!((g.cursor_row, g.cursor_col), (0, 0));
    assert_eq!(g.scroll_bottom, 1);
    assert!(g.cursor_visible);
}

#[test]
fn printing_wraps_and_scrolls_into_scrollback() {
    let mut g = TerminalGrid::new(3, 2);
    feed(&mut g, "abcdefg");
    assert_eq!(row_text(&g, 0), "def");
    assert_eq!(row_text(&g, 1), "g  ");
    assert_eq!(g.scrollback.len(), 1);
    assert_eq!(g.scrollback[0].iter().map(|c| c.c).collect::<String>(), "abc");
    assert_eq!((g.cursor_row, g.cursor_col), (1, 1));
}

#[test]
fn control_bytes_move_the_cursor() {
    let mut g = TerminalGrid::new(20, 3);
    feed(&mut g, "ab");
    g.execute(0x08);
    assert_eq!(g.cursor_col, 1);
    g.execute(b'\t');
    assert_eq!(g.cursor_col, 8);
    g.execute(b'\t');
    assert_eq!(g.cursor_col, 16);
    g.execute(b'\t');
    assert_eq!(g.cursor_col, 19);
    g.execute(b'\r');
    assert_eq!(g.cursor_col, 0);
    g.execute(b'\n');
    assert_eq!(g.cursor_row, 1);
}

#[test]
fn cursor_movement_sequences_clamp_to_the_screen() {
    let mut g = TerminalGrid::new(10, 5);
    csi(&mut g, &[&[3], &[4]], 'H');
    assert_eq!((g.cursor_row, g.cursor_col), (2, 3));
    csi(&mut g, &[&[100]], 'B');
    assert_eq!(g.cursor_row, 4);
    csi(&mut g, &[&[2]], 'A');
    assert_eq!(g.cursor_row, 2);
    csi(&mut g, &[], 'C');
    assert_eq!(g.cursor_col, 4);
    csi(&mut g, &[&[50]], 'D');
    assert_eq!(g.cursor_col, 0);
    csi(&mut g, &[&[0]], 'G');
    assert_eq!(g.cursor_col, 0);
    csi(&mut g, &[&[7]], 'G');
    assert_eq!(g.cursor_col, 6);
    csi(&mut g, &[&[1]], 'E');
    assert_eq!((g.cursor_row, g.cursor_col), (3, 0));
    csi(&mut g, &[&[9]], 'd');
    assert_eq!(g.cursor_row, 4);
}

#[test]
fn erase_in_line_and_display() {
    let mut g = TerminalGrid::new(4, 3);
    feed(&mut g, "abcdefghijk");
    csi(&mut g, &[&[2], &[2]], 'H');
    csi(&mut g, &[], 'K');
    assert_eq!(row_text(&g, 1), "e   ");
    csi(&mut g, &[&[1]], 'K');
    assert_eq!(row_text(&g, 1), "    ");
    csi(&mut g, &[&[1]], 'J');
    assert_eq!(row_text(&g, 0), "    ");
    assert_eq!(row_text(&g, 2), "ijk ");
    csi(&mut g, &[&[2]], 'J');
    assert_eq!(row_text(&g, 2), "    ");
}

#[test]
fn line_and_character_editing() {
    let mut g = TerminalGrid::new(4, 3);
    feed(&mut g, "abcdefghijkl");
    csi(&mut g, &[&[1], &[1]], 'H');
    csi(&mut g, &[], 'L');
    assert_eq!(row_text(&g, 0), "    ");
    assert_eq!(row_text(&g, 1), "abcd");
    assert_eq!(row_text(&g, 2), "efgh");
    csi(&mut g, &[&[2]], 'M');
    assert_eq!(row_text(&g, 0), "efgh");
    assert_eq!(row_text(&g, 1), "    ");
    csi(&mut g, &[&[1], &[2]], 'H');
    csi(&mut g, &[&[2]], 'P');
    assert_eq!(row_text(&g, 0), "eh  ");
    csi(&mut g, &[], '@');
    assert_eq!(row_text(&g, 0), "e h ");
    csi(&mut g, &[&[9]], 'X');
    assert_eq!(row_text(&g, 0), "e   ");
}

#[test]
fn graphic_rendition_sets_the_pen() {
    let mut g = TerminalGrid::new(5, 1);
    csi(&mut g, &[&[1], &[31], &[44]], 'm');
    g.print('x');
    let c = g.cells[0][0];
    assert!(c.bold);
    assert_eq!(c.fg, Color { r: 205, g: 49, b: 49 });
    assert_eq!(c.bg, Color { r: 36, g: 114, b: 200 });
    csi(&mut g, &[&[38], &[5], &[196]], 'm');
    g.print('y');
    assert_eq!(g.cells[0][1].fg, color_from_256(196));
    csi(&mut g, &[&[48], &[2], &[1], &[2], &[300]], 'm');
    g.print('z');
    assert_eq!(g.cells[0][2].bg, Color { r: 1, g: 2, b: 44 });
    csi(&mut g, &[&[7]], 'm');
    g.print('w');
    assert_eq!(g.cells[0][3].fg, Color { r: 1, g: 2, b: 44 });
    csi(&mut g, &[], 'm');
    g.print('v');
    assert_eq!(g.cells[0][4], Cell { c: 'v', ..Cell::default() });
}

#[test]
fn palette_has_ansi_cube_and_greys() {
    assert_eq!(color_from_256(1), Color { r: 205, g: 49, b: 49 });
    assert_eq!(color_from_256(9), Color { r: 241, g: 76, b: 76 });
    assert_eq!(color_from_256(16), Color { r: 0, g: 0, b: 0 });
    assert_eq!(color_from_256(21), Color { r: 0, g: 0, b: 255 });
    assert_eq!(color_from_256(232), Color { r: 8, g: 8, b: 8 });
    assert_eq!(color_from_256(255), Color { r: 238, g: 238, b: 238 });
    assert_eq!(color_from_256(300), Color { r: 204, g: 204, b: 204 });
}

#[test]
fn scroll_region_and_reverse_index() {
    let mut g = TerminalGrid::new(2, 4);
    feed(&mut g, "aabbccdd");
    csi(&mut g, &[&[2], &[3]], 'r');
    assert_eq!((g.scroll_top, g.scroll_bottom), (1, 2));
    assert_eq!((g.cursor_row, g.cursor_col), (0, 0));
    csi(&mut g, &[], 'S');
    assert_eq!(row_text(&g, 0), "aa");
    assert_eq!(row_text(&g, 1), "cc");
    assert_eq!(row_text(&g, 2), "  ");
    assert_eq!(row_text(&g, 3), "dd");
    assert_eq!(g.scrollback.len(), 0);
    csi(&mut g, &[&[2], &[1]], 'H');
    g.esc_dispatch(&[], false, b'M');
    assert_eq!(row_text(&g, 1), "  ");
    assert_eq!(row_text(&g, 2), "cc");
}

#[test]
fn alternate_screen_saves_and_restores() {
    let mut g = TerminalGrid::new(3, 2);
    feed(&mut g, "hi");
    private_csi(&mut g, &[&[1049]], 'h');
    assert!(g.alt_screen);
    assert_eq!(row_text(&g, 0), "   ");
    feed(&mut g, "zz");
    private_csi(&mut g, &[&[1049]], 'l');
    assert!(!g.alt_screen);
    assert_eq!(row_text(&g, 0), "hi ");
    assert_eq!((g.cursor_row, g.cursor_col), (0, 2));
    private_csi(&mut g, &[&[25]], 'l');
    assert!(!g.cursor_visible);
    csi(&mut g, &[&[25]], 'h');
    assert!(!g.cursor_visible);
}

#[test]
fn save_and_restore_cursor() {
    let mut g = TerminalGrid::new(5, 5);
    csi(&mut g, &[&[3], &[3]], 'H');
    g.esc_dispatch(&[], false, b'7');
    csi(&mut g, &[], 'H');
    g.esc_dispatch(&[], false, b'8');
    assert_eq!((g.cursor_row, g.cursor_col), (2, 2));
    g.esc_dispatch(&[], false, b'E');
    assert_eq!((g.cursor_row, g.cursor_col), (3, 0));
}

#[test]
fn resize_keeps_what_fits() {
    let mut g = TerminalGrid::new(4, 2);
    feed(&mut g, "abcdef");
    g.resize(2, 3);
    assert_eq!(g.cells.len(), 3);
    assert_eq!(row_text(&g, 0), "ab");
    assert_eq!(row_text(&g, 1), "ef");
    assert_eq!(row_text(&g, 2), "  ");
    assert_eq!(g.cursor_col, 1);
    assert_eq!(g.scroll_bottom, 2);
}

#[test]
fn scrollback_is_capped() {
    let mut g = TerminalGrid::new(1, 1);
    for _ in 0..(MAX_SCROLLBACK + 5) {
        g.execute(b'\n');
    }
    assert_eq!(g.scrollback.len(), MAX_SCROLLBACK);
}

#[test]
fn selection_text_joins_rows_and_trims() {
    let mut g = TerminalGrid::new(5, 3);
    feed(&mut g, "ab   cd   ef");
    assert_eq!(ordered_selection((2, 1), (0, 3)), ((0, 3), (2, 1)));
    let t = selection_text(&g, Some((2, 1)), Some((0, 1)), 5, 3);
    assert_eq!(t.as_deref(), Some("b\ncd\nef"));
    assert_eq!(selection_text(&g, None, Some((0, 1)), 5, 3), None);
    assert_eq!(selection_text(&g, Some((3, 0)), Some((4, 0)), 5, 3), None);
    assert_eq!(selection_text(&g, Some((0, 3)), Some((0, 4)), 5, 3), None);
}

#[test]
fn alternate_screen_fits_a_grid_resized_meanwhile() {
    let mut g = TerminalGrid::new(10, 4);
    feed(&mut g, "abcdefghij");
    g.execute(b'\r');
    g.execute(b'\n');
    feed(&mut g, "klm");
    private_csi(&mut g, &[&[1049]], 'h');
    g.resize(5, 2);
    private_csi(&mut g, &[&[1049]], 'l');
    assert_eq!(g.cells.len(), 2);
    assert!(g.cells.iter().all(|r| r.len() == 5));
    assert_eq!(row_text(&g, 0), "abcde");
    assert_eq!(row_text(&g, 1), "klm  ");
    assert_eq!((g.cursor_row, g.cursor_col), (1, 3));
    g.resize(8, 3);
    private_csi(&mut g, &[&[1049]], 'h');
    g.resize(4, 1);
    g.resize(8, 3);
    private_csi(&mut g, &[&[1049]], 'l');
    assert_eq!(row_text(&g, 0), "abcde   ");
    assert_eq!(row_text(&g, 1), "klm     ");
    assert_eq!((g.cursor_row, g.cursor_col), (1, 3));
}
