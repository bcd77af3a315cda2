use vstd::prelude::*;

use crate::terminal::csi::{csi_model, csi_param, is_private, scroll_down_times, scroll_up_times};
use crate::terminal::sgr::{extended_color, first_or_zero, param_or_zero, sgr_from};
use crate::terminal::{
    blank_cell, esc_model, execute_model, model_wf, newline_model, print_model, resize_model, scroll_down_model,
    scroll_up_model, spec_ansi_bright, spec_ansi_color, spec_color_from_256, spec_default_bg, spec_default_fg, Cell,
    Color, GridModel,
};

verus! {

/// Erase in display (CSI J) blanks, by its mode, the cells from the cursor to the end of the
/// screen (0, also without a parameter), from the start of the screen to the cursor (1), or the
/// whole screen (2 and 3); every other cell keeps what it held, and nothing but the cells
/// changes. Another mode changes nothing.
pub proof fn lemma_erase_in_display(m: GridModel, ps: Seq<Seq<u16>>, inter: Seq<u8>)
    requires
        model_wf(m),
    ensures
        ({
            let e = csi_model(m, ps, inter, 'J');
            let mode = csi_param(ps, 0, 0);
            &&& e == (GridModel { cells: e.cells, ..m })
            &&& e.cells.len() == m.rows
            &&& forall|r: int| 0 <= r < m.rows ==> (#[trigger] e.cells[r]).len() == m.cols
            &&& forall|r: int, c: int|
                0 <= r < m.rows && 0 <= c < m.cols ==> #[trigger] e.cells[r][c] == (if (mode == 0 && (r > m.cursor_row
                    || (r == m.cursor_row && c >= m.cursor_col))) || (mode == 1 && (r < m.cursor_row || (r
                    == m.cursor_row && c <= m.cursor_col))) || mode == 2 || mode == 3 {
                    blank_cell()
                } else {
                    m.cells[r][c]
                })
        }),
{
}

/// Erase in line (CSI K) blanks, on the cursor's row only, the cells from the cursor to the end
/// of the row (0, also without a parameter), from the start of the row to the cursor (1), or
/// the whole row (2); every other cell keeps what it held, and nothing but the cells changes.
pub proof fn lemma_erase_in_line(m: GridModel, ps: Seq<Seq<u16>>, inter: Seq<u8>)
    requires
        model_wf(m),
    ensures
        ({
            let e = csi_model(m, ps, inter, 'K');
            let mode = csi_param(ps, 0, 0);
            &&& e == (GridModel { cells: e.cells, ..m })
            &&& e.cells.len() == m.rows
            &&& forall|r: int| 0 <= r < m.rows ==> (#[trigger] e.cells[r]).len() == m.cols
            &&& forall|r: int, c: int|
                0 <= r < m.rows && 0 <= c < m.cols ==> #[trigger] e.cells[r][c] == (if r == m.cursor_row && ((mode
                    == 0 && c >= m.cursor_col) || (mode == 1 && c <= m.cursor_col) || mode == 2) {
                    blank_cell()
                } else {
                    m.cells[r][c]
                })
        }),
{
}

/// Scrolling the region up while the alternate screen is shown keeps nothing: the scrollback
/// stays as it was, and the alternate screen stays on.
proof fn lemma_scroll_up_times_on_alt_screen(m: GridModel, n: nat)
    requires
        m.alt_screen,
    ensures
        scroll_up_times(m, n).scrollback == m.scrollback,
        scroll_up_times(m, n).alt_screen,
    decreases n,
{
    if n > 0 {
        lemma_scroll_up_times_on_alt_screen(scroll_up_model(m), (n - 1) as nat);
    }
}

proof fn lemma_scroll_down_times_on_alt_screen(m: GridModel, n: nat)
    ensures
        scroll_down_times(m, n).scrollback == m.scrollback,
        scroll_down_times(m, n).alt_screen == m.alt_screen,
    decreases n,
{
    if n > 0 {
        lemma_scroll_down_times_on_alt_screen(scroll_down_model(m), (n - 1) as nat);
    }
}

/// What a full-screen program does on the alternate screen never reaches the scrollback:
/// while the alternate screen is shown, printing (with wrapping and scrolling), control bytes,
/// escape sequences and control sequences leave the scrollback as it was.
pub proof fn lemma_alt_screen_keeps_scrollback(
    m: GridModel,
    ch: char,
    byte: u8,
    ps: Seq<Seq<u16>>,
    inter: Seq<u8>,
    action: char,
)
    requires
        m.alt_screen,
    ensures
        scroll_up_model(m).scrollback == m.scrollback,
        newline_model(m).scrollback == m.scrollback,
        print_model(m, ch).scrollback == m.scrollback,
        execute_model(m, byte).scrollback == m.scrollback,
        esc_model(m, byte).scrollback == m.scrollback,
        csi_model(m, ps, inter, action).scrollback == m.scrollback,
{
    let n = csi_param(ps, 0, 1) as nat;
    lemma_scroll_up_times_on_alt_screen(m, n);
    lemma_scroll_down_times_on_alt_screen(m, n);
    if ps.len() > 0 {
        crate::terminal::sgr::lemma_sgr_from_pen_only(m, ps, 0);
    }
}

/// On the main screen with the region at the top, scrolling up keeps the line that leaves the
/// screen: it comes last in the scrollback, which keeps at most its capacity of lines.
pub proof fn lemma_main_screen_scroll_keeps_top_line(m: GridModel)
    requires
        model_wf(m),
        !m.alt_screen,
        m.scroll_top == 0,
    ensures
        scroll_up_model(m).scrollback.len() > 0,
        scroll_up_model(m).scrollback.last() == m.cells[0],
        scroll_up_model(m).scrollback.len() == (if m.scrollback.len() < crate::terminal::MAX_SCROLLBACK {
            m.scrollback.len() + 1
        } else {
            m.scrollback.len()
        }),
        m.scrollback.len() < crate::terminal::MAX_SCROLLBACK ==> scroll_up_model(m).scrollback.drop_last()
            == m.scrollback,
        m.scrollback.len() == crate::terminal::MAX_SCROLLBACK ==> scroll_up_model(m).scrollback.drop_last()
            == m.scrollback.drop_first(),
{
    let pushed = m.scrollback.push(m.cells[0]);
    assert(pushed.drop_last() =~= m.scrollback);
    if m.scrollback.len() == crate::terminal::MAX_SCROLLBACK {
        assert(pushed.drop_first().drop_last() =~= m.scrollback.drop_first());
    }
}

/// The grid after one rendition code given alone (CSI code m).
pub open spec fn sgr_one(m: GridModel, code: u16) -> GridModel {
    csi_model(m, seq![seq![code]], Seq::empty(), 'm')
}

/// Each rendition code sets what it names in the pen and nothing else: 0 resets the pen, 1 and
/// 2/22 set and clear bold, 3/23 italic, 4/24 underline, 7 swaps the colours, 30-37 and
/// 90-97 pick the text colour and 40-47 and 100-107 the background from the ANSI palette,
/// 39 and 49 bring back the default text and background colours; any other code changes
/// nothing.
pub proof fn lemma_sgr_codes(m: GridModel, code: u16)
    ensures
        code == 0 ==> sgr_one(m, code) == (GridModel {
            fg: spec_default_fg(),
            bg: spec_default_bg(),
            bold: false,
            italic: false,
            underline: false,
            ..m
        }),
        code == 1 ==> sgr_one(m, code) == (GridModel { bold: true, ..m }),
        (code == 2 || code == 22) ==> sgr_one(m, code) == (GridModel { bold: false, ..m }),
        code == 3 ==> sgr_one(m, code) == (GridModel { italic: true, ..m }),
        code == 4 ==> sgr_one(m, code) == (GridModel { underline: true, ..m }),
        code == 7 ==> sgr_one(m, code) == (GridModel { fg: m.bg, bg: m.fg, ..m }),
        code == 23 ==> sgr_one(m, code) == (GridModel { italic: false, ..m }),
        code == 24 ==> sgr_one(m, code) == (GridModel { underline: false, ..m }),
        30 <= code <= 37 ==> sgr_one(m, code) == (GridModel { fg: spec_ansi_color(code - 30), ..m }),
        code == 39 ==> sgr_one(m, code) == (GridModel { fg: spec_default_fg(), ..m }),
        40 <= code <= 47 ==> sgr_one(m, code) == (GridModel { bg: spec_ansi_color(code - 40), ..m }),
        code == 49 ==> sgr_one(m, code) == (GridModel { bg: spec_default_bg(), ..m }),
        90 <= code <= 97 ==> sgr_one(m, code) == (GridModel { fg: spec_ansi_bright(code - 90), ..m }),
        100 <= code <= 107 ==> sgr_one(m, code) == (GridModel { bg: spec_ansi_bright(code - 100), ..m }),
        !(code <= 4 || code == 7 || 22 <= code <= 24 || 30 <= code <= 49 || 90 <= code <= 97 || 100 <= code
            <= 107) ==> sgr_one(m, code) == m,
{
    let ps = seq![seq![code]];
    assert(first_or_zero(ps[0]) == code);
    if !(code == 38 || code == 48) {
        assert(sgr_from(m, ps, 0) == sgr_from(crate::terminal::sgr::apply_code(m, code), ps, 1));
    }
}

/// Within a sequence of rendition groups, a group 39 sets the default text colour and keeps the
/// rest of the pen; the groups after it act on that pen.
pub proof fn lemma_sgr_39_in_sequence(m: GridModel, ps: Seq<Seq<u16>>, i: int)
    requires
        0 <= i < ps.len(),
        first_or_zero(ps[i]) == 39,
    ensures
        sgr_from(m, ps, i) == sgr_from(GridModel { fg: spec_default_fg(), ..m }, ps, i + 1),
{
}

/// A rendition sequence without parameters resets the pen; in a sequence of groups, a group
/// with a plain code (neither 38 nor 48) acts as that code given alone, and the groups after it
/// act on the pen it leaves.
pub proof fn lemma_sgr_sequence(m: GridModel, ps: Seq<Seq<u16>>, i: int)
    requires
        0 <= i < ps.len(),
        first_or_zero(ps[i]) != 38,
        first_or_zero(ps[i]) != 48,
    ensures
        csi_model(m, Seq::empty(), Seq::empty(), 'm') == sgr_one(m, 0),
        sgr_from(m, ps, i) == sgr_from(sgr_one(m, first_or_zero(ps[i])), ps, i + 1),
{
    let code = first_or_zero(ps[i]);
    let one = seq![seq![code]];
    assert(first_or_zero(one[0]) == code);
    assert(sgr_from(m, one, 0) == sgr_from(crate::terminal::sgr::apply_code(m, code), one, 1));
    let z = seq![seq![0u16]];
    assert(first_or_zero(z[0]) == 0);
    assert(sgr_from(m, z, 0) == sgr_from(crate::terminal::sgr::apply_code(m, 0), z, 1));
}

/// Extended colours: `38;5;n` sets the text colour to entry `n` of the 256-colour palette and
/// `38;2;r;g;b` to the direct colour (r, g, b), each component taken as a byte; `48` does the
/// same for the background. The rest of the pen and of the grid stays as it was. The palette
/// starts with the 8 ANSI colours and their 8 bright forms and ends with 24 greys from
/// (8, 8, 8) up in steps of 10.
pub proof fn lemma_sgr_extended(m: GridModel, n: u16, r: u16, g: u16, b: u16)
    ensures
        csi_model(m, seq![seq![38u16], seq![5u16], seq![n]], Seq::empty(), 'm') == (GridModel {
            fg: spec_color_from_256(n),
            ..m
        }),
        csi_model(m, seq![seq![48u16], seq![5u16], seq![n]], Seq::empty(), 'm') == (GridModel {
            bg: spec_color_from_256(n),
            ..m
        }),
        csi_model(m, seq![seq![38u16], seq![2u16], seq![r], seq![g], seq![b]], Seq::empty(), 'm') == (GridModel {
            fg: Color { r: r as u8, g: g as u8, b: b as u8 },
            ..m
        }),
        csi_model(m, seq![seq![48u16], seq![2u16], seq![r], seq![g], seq![b]], Seq::empty(), 'm') == (GridModel {
            bg: Color { r: r as u8, g: g as u8, b: b as u8 },
            ..m
        }),
        n < 8 ==> spec_color_from_256(n) == spec_ansi_color(n as int),
        8 <= n < 16 ==> spec_color_from_256(n) == spec_ansi_bright(n - 8),
        232 <= n < 256 ==> spec_color_from_256(n) == (Color {
            r: (8 + 10 * (n - 232)) as u8,
            g: (8 + 10 * (n - 232)) as u8,
            b: (8 + 10 * (n - 232)) as u8,
        }),
{
    let p5f = seq![seq![38u16], seq![5u16], seq![n]];
    let p5b = seq![seq![48u16], seq![5u16], seq![n]];
    let p2f = seq![seq![38u16], seq![2u16], seq![r], seq![g], seq![b]];
    let p2b = seq![seq![48u16], seq![2u16], seq![r], seq![g], seq![b]];
    assert(first_or_zero(p5f[0]) == 38 && first_or_zero(p5f[1]) == 5 && first_or_zero(p5f[2]) == n);
    assert(first_or_zero(p5b[0]) == 48 && first_or_zero(p5b[1]) == 5 && first_or_zero(p5b[2]) == n);
    assert(extended_color(p5f, 0) == (Some(spec_color_from_256(n)), 3int));
    assert(extended_color(p5b, 0) == (Some(spec_color_from_256(n)), 3int));
    let mf = GridModel { fg: spec_color_from_256(n), ..m };
    let mb = GridModel { bg: spec_color_from_256(n), ..m };
    assert(sgr_from(mf, p5f, 3) == mf);
    assert(sgr_from(mb, p5b, 3) == mb);
    assert(first_or_zero(p2f[0]) == 38 && first_or_zero(p2f[1]) == 2);
    assert(first_or_zero(p2f[2]) == r && first_or_zero(p2f[3]) == g && first_or_zero(p2f[4]) == b);
    assert(first_or_zero(p2b[0]) == 48 && first_or_zero(p2b[1]) == 2);
    assert(first_or_zero(p2b[2]) == r && first_or_zero(p2b[3]) == g && first_or_zero(p2b[4]) == b);
    let direct = Color { r: r as u8, g: g as u8, b: b as u8 };
    assert(param_or_zero(p2f, 2) == r && param_or_zero(p2f, 3) == g && param_or_zero(p2f, 4) == b);
    assert(param_or_zero(p2b, 2) == r && param_or_zero(p2b, 3) == g && param_or_zero(p2b, 4) == b);
    assert(extended_color(p2f, 0) == (Some(direct), 5int));
    assert(extended_color(p2b, 0) == (Some(direct), 5int));
    let df = GridModel { fg: direct, ..m };
    let db = GridModel { bg: direct, ..m };
    assert(sgr_from(df, p2f, 5) == df);
    assert(sgr_from(db, p2b, 5) == db);
}

/// Private modes: `?25h` and `?25l` show and hide the cursor; `?1049h` saves the main screen
/// and the cursor, shows a blank alternate screen and sends the cursor home; without the `?`
/// these sequences change nothing.
pub proof fn lemma_private_modes(m: GridModel, inter: Seq<u8>)
    requires
        model_wf(m),
    ensures
        is_private(inter) ==> csi_model(m, seq![seq![25u16]], inter, 'h') == (GridModel { cursor_visible: true, ..m }),
        is_private(inter) ==> csi_model(m, seq![seq![25u16]], inter, 'l') == (GridModel { cursor_visible: false, ..m }),
        is_private(inter) ==> {
            let a = csi_model(m, seq![seq![1049u16]], inter, 'h');
            &&& a.alt_screen
            &&& a.saved_cells == Some(m.cells)
            &&& a.saved_cursor == (m.cursor_row, m.cursor_col)
            &&& a.cursor_row == 0 && a.cursor_col == 0
            &&& a.cells.len() == m.rows
            &&& forall|r: int| 0 <= r < m.rows ==> (#[trigger] a.cells[r]).len() == m.cols
            &&& forall|r: int, c: int| 0 <= r < m.rows && 0 <= c < m.cols ==> #[trigger] a.cells[r][c] == blank_cell()
            &&& a.scrollback == m.scrollback && a.rows == m.rows && a.cols == m.cols
        },
        !is_private(inter) ==> csi_model(m, seq![seq![25u16]], inter, 'h') == m
            && csi_model(m, seq![seq![25u16]], inter, 'l') == m
            && csi_model(m, seq![seq![1049u16]], inter, 'h') == m
            && csi_model(m, seq![seq![1049u16]], inter, 'l') == m,
{
    let p25 = seq![seq![25u16]];
    let p1049 = seq![seq![1049u16]];
    assert(param_or_zero(p25, 0) == 25);
    assert(param_or_zero(p1049, 0) == 1049);
}

/// Cursor movement sequences move only the cursor, by the count (1 when missing or 0), and stop
/// at the edges of the screen: up (A), down (B), right (C), left (D), down or up to the start of
/// a line (E, F), to a column (G), to a row and column (H, f) or to a row (d), positions
/// counting from 1.
pub proof fn lemma_cursor_moves(m: GridModel, ps: Seq<Seq<u16>>, inter: Seq<u8>)
    requires
        model_wf(m),
    ensures
        ({
            let n = csi_param(ps, 0, 1) as int;
            let a = csi_model(m, ps, inter, 'A');
            let b = csi_model(m, ps, inter, 'B');
            let c = csi_model(m, ps, inter, 'C');
            let d = csi_model(m, ps, inter, 'D');
            let e = csi_model(m, ps, inter, 'E');
            let f = csi_model(m, ps, inter, 'F');
            let g = csi_model(m, ps, inter, 'G');
            let h = csi_model(m, ps, inter, 'H');
            let hf = csi_model(m, ps, inter, 'f');
            let v = csi_model(m, ps, inter, 'd');
            let col1 = csi_param(ps, 1, 1) as int;
            &&& n >= 1
            &&& a == (GridModel { cursor_row: a.cursor_row, ..m })
            &&& (m.cursor_row >= n ==> a.cursor_row == m.cursor_row - n) && (m.cursor_row < n ==> a.cursor_row == 0)
            &&& b == (GridModel { cursor_row: b.cursor_row, ..m })
            &&& (m.cursor_row + n <= m.rows - 1 ==> b.cursor_row == m.cursor_row + n)
            &&& (m.cursor_row + n > m.rows - 1 ==> b.cursor_row == m.rows - 1)
            &&& c == (GridModel { cursor_col: c.cursor_col, ..m })
            &&& (m.cursor_col + n <= m.cols - 1 ==> c.cursor_col == m.cursor_col + n)
            &&& (m.cursor_col + n > m.cols - 1 ==> c.cursor_col == m.cols - 1)
            &&& d == (GridModel { cursor_col: d.cursor_col, ..m })
            &&& (m.cursor_col >= n ==> d.cursor_col == m.cursor_col - n) && (m.cursor_col < n ==> d.cursor_col == 0)
            &&& e == (GridModel { cursor_row: b.cursor_row, cursor_col: 0, ..m })
            &&& f == (GridModel { cursor_row: a.cursor_row, cursor_col: 0, ..m })
            &&& g == (GridModel { cursor_col: if n <= m.cols { n - 1 } else { m.cols - 1 }, ..m })
            &&& h == (GridModel {
                cursor_row: if n <= m.rows { n - 1 } else { m.rows - 1 },
                cursor_col: if col1 <= m.cols { col1 - 1 } else { m.cols - 1 },
                ..m
            })
            &&& hf == h
            &&& v == (GridModel { cursor_row: if n <= m.rows { n - 1 } else { m.rows - 1 }, ..m })
            &&& 0 <= a.cursor_row < m.rows && 0 <= b.cursor_row < m.rows && 0 <= h.cursor_row < m.rows
            &&& 0 <= c.cursor_col < m.cols && 0 <= d.cursor_col <= m.cols && 0 <= h.cursor_col < m.cols
        }),
{
}

/// Inserting lines (CSI L) at a cursor inside the scroll region puts `n` blank lines at the
/// cursor's row, moves the lines below down within the region (those pushed past its bottom are
/// lost), and leaves the lines outside the region and everything but the screen as they were;
/// deleting lines (CSI M) moves the lines below the cursor up by `n` within the region, blank
/// lines coming in at its bottom. Below the region neither changes anything.
pub proof fn lemma_insert_delete_lines(m: GridModel, ps: Seq<Seq<u16>>, inter: Seq<u8>)
    requires
        model_wf(m),
    ensures
        ({
            let n = csi_param(ps, 0, 1) as int;
            let ins = csi_model(m, ps, inter, 'L');
            let del = csi_model(m, ps, inter, 'M');
            let top = m.cursor_row;
            let bottom = m.scroll_bottom;
            &&& ins == (GridModel { cells: ins.cells, ..m })
            &&& del == (GridModel { cells: del.cells, ..m })
            &&& (top > bottom ==> ins == m && del == m)
            &&& (top <= bottom ==> {
                &&& ins.cells.len() == m.rows && del.cells.len() == m.rows
                &&& forall|r: int| 0 <= r < m.rows && (r < top || r > bottom) ==> #[trigger] ins.cells[r] == m.cells[r]
                    && del.cells[r] == m.cells[r]
                &&& forall|r: int| top <= r <= bottom && r < top + n ==> (#[trigger] ins.cells[r]).len() == m.cols
                    && forall|c: int| 0 <= c < m.cols ==> ins.cells[r][c] == blank_cell()
                &&& forall|r: int| top + n <= r <= bottom ==> #[trigger] ins.cells[r] == m.cells[r - n]
                &&& forall|r: int| top <= r <= bottom && r + n <= bottom ==> #[trigger] del.cells[r] == m.cells[r + n]
                &&& forall|r: int| top <= r <= bottom && r + n > bottom ==> (#[trigger] del.cells[r]).len() == m.cols
                    && forall|c: int| 0 <= c < m.cols ==> del.cells[r][c] == blank_cell()
            })
        }),
{
}

/// On the cursor's row, deleting characters (CSI P) moves the cells after the cursor left by
/// `n` (blanks coming in at the end), inserting (CSI @) moves them right by `n` (blanks at the
/// cursor, cells falling off the end), and erasing (CSI X) blanks `n` cells from the cursor;
/// the count never reaches past the end of the row. Other rows and everything but the screen
/// stay as they were.
pub proof fn lemma_character_editing(m: GridModel, ps: Seq<Seq<u16>>, inter: Seq<u8>)
    requires
        model_wf(m),
        m.cursor_col < m.cols,
    ensures
        ({
            let n = csi_param(ps, 0, 1) as int;
            let k = if n <= m.cols - m.cursor_col { n } else { m.cols - m.cursor_col };
            let row = m.cursor_row;
            let col = m.cursor_col;
            let p = csi_model(m, ps, inter, 'P');
            let i = csi_model(m, ps, inter, '@');
            let x = csi_model(m, ps, inter, 'X');
            &&& p == (GridModel { cells: p.cells, ..m })
            &&& i == (GridModel { cells: i.cells, ..m })
            &&& x == (GridModel { cells: x.cells, ..m })
            &&& p.cells.len() == m.rows && i.cells.len() == m.rows && x.cells.len() == m.rows
            &&& forall|r: int| 0 <= r < m.rows && r != row ==> #[trigger] p.cells[r] == m.cells[r] && i.cells[r]
                == m.cells[r] && x.cells[r] == m.cells[r]
            &&& p.cells[row].len() == m.cols && i.cells[row].len() == m.cols && x.cells[row].len() == m.cols
            &&& forall|c: int| 0 <= c < m.cols ==> #[trigger] p.cells[row][c] == (if c < col {
                m.cells[row][c]
            } else if c + k < m.cols {
                m.cells[row][c + k]
            } else {
                blank_cell()
            })
            &&& forall|c: int| 0 <= c < m.cols ==> #[trigger] i.cells[row][c] == (if c < col {
                m.cells[row][c]
            } else if c < col + k {
                blank_cell()
            } else {
                m.cells[row][c - k]
            })
            &&& forall|c: int| 0 <= c < m.cols ==> #[trigger] x.cells[row][c] == (if col <= c < col + k {
                blank_cell()
            } else {
                m.cells[row][c]
            })
        }),
{
}

/// Setting the scroll region (CSI r) takes its top and bottom lines (counting from 1; the
/// bottom defaults to the last row), kept on the screen, and sends the cursor home.
pub proof fn lemma_set_scroll_region(m: GridModel, ps: Seq<Seq<u16>>, inter: Seq<u8>)
    requires
        model_wf(m),
    ensures
        ({
            let top = csi_param(ps, 0, 1) as int;
            let bottom = csi_param(ps, 1, m.rows as u16) as int;
            let r = csi_model(m, ps, inter, 'r');
            &&& r == (GridModel {
                scroll_top: if top <= m.rows { top - 1 } else { m.rows - 1 },
                scroll_bottom: if bottom <= m.rows { bottom - 1 } else { m.rows - 1 },
                cursor_row: 0,
                cursor_col: 0,
                ..m
            })
        }),
{
}

/// The pen a character is printed with.
pub open spec fn pen_cell(m: GridModel, ch: char) -> Cell {
    Cell { c: ch, fg: m.fg, bg: m.bg, bold: m.bold, italic: m.italic, underline: m.underline }
}

/// Printing a character with the cursor on the screen puts it, in the current pen, in the
/// cursor's cell and moves the cursor one column right; no other cell and nothing else
/// changes. With the cursor waiting past the last column, the line wraps first: the cursor
/// goes to the start of the next line (scrolling at the region's bottom) and the character
/// lands there.
pub proof fn lemma_print(m: GridModel, ch: char)
    requires
        model_wf(m),
    ensures
        m.cursor_col < m.cols ==> {
            let p = print_model(m, ch);
            &&& p == (GridModel { cells: p.cells, cursor_col: m.cursor_col + 1, ..m })
            &&& p.cells.len() == m.rows
            &&& forall|r: int| 0 <= r < m.rows && r != m.cursor_row ==> #[trigger] p.cells[r] == m.cells[r]
            &&& p.cells[m.cursor_row].len() == m.cols
            &&& forall|c: int| 0 <= c < m.cols ==> #[trigger] p.cells[m.cursor_row][c] == (if c == m.cursor_col {
                pen_cell(m, ch)
            } else {
                m.cells[m.cursor_row][c]
            })
        },
        m.cursor_col >= m.cols ==> {
            let w = newline_model(GridModel { cursor_col: 0, ..m });
            let p = print_model(m, ch);
            &&& p.cursor_row == w.cursor_row
            &&& p.cursor_col == 1
            &&& p.cells[w.cursor_row][0] == pen_cell(m, ch)
            &&& p.scrollback == w.scrollback
        },
{
}

/// A line feed moves the cursor down a line; at the bottom of the scroll region the region
/// scrolls up one line instead (its top line going to the scrollback when the region starts at
/// the top of the main screen, its other lines moving up and a blank line coming in at its
/// bottom); on the last row outside the region nothing moves. The column never changes.
pub proof fn lemma_line_feed(m: GridModel)
    requires
        model_wf(m),
    ensures
        ({
            let l = newline_model(m);
            &&& l.cursor_col == m.cursor_col
            &&& (m.cursor_row != m.scroll_bottom && m.cursor_row < m.rows - 1) ==> l == (GridModel {
                cursor_row: m.cursor_row + 1,
                ..m
            })
            &&& (m.cursor_row != m.scroll_bottom && m.cursor_row == m.rows - 1) ==> l == m
            &&& m.cursor_row == m.scroll_bottom ==> {
                &&& l.cursor_row == m.cursor_row
                &&& l.cells.len() == m.rows
                &&& forall|r: int| m.scroll_top <= r < m.scroll_bottom ==> #[trigger] l.cells[r] == m.cells[r + 1]
                &&& l.cells[m.scroll_bottom].len() == m.cols
                &&& forall|c: int| 0 <= c < m.cols ==> #[trigger] l.cells[m.scroll_bottom][c] == blank_cell()
                &&& forall|r: int|
                    0 <= r < m.rows && r != m.scroll_bottom && (r < m.scroll_top || r > m.scroll_bottom)
                        ==> #[trigger] l.cells[r] == m.cells[r]
            }
        }),
{
}

/// Control bytes: carriage return goes to column 0, backspace one column left (not past 0), tab
/// to the next multiple of 8 (at most the last column), line feed, vertical tab and form feed
/// as a line feed; other bytes change nothing. Only the cursor (and, for line feeds, the
/// scrolled screen) changes.
pub proof fn lemma_control_bytes(m: GridModel, byte: u8)
    requires
        model_wf(m),
    ensures
        byte == 0x0D ==> execute_model(m, byte) == (GridModel { cursor_col: 0, ..m }),
        byte == 0x08 ==> execute_model(m, byte) == (GridModel {
            cursor_col: if m.cursor_col >= 1 { m.cursor_col - 1 } else { 0 },
            ..m
        }),
        byte == 0x09 ==> {
            let t = execute_model(m, byte);
            &&& t == (GridModel { cursor_col: t.cursor_col, ..m })
            &&& t.cursor_col % 8 == 0 || t.cursor_col == m.cols - 1
            &&& t.cursor_col <= m.cols - 1
            &&& (t.cursor_col > m.cursor_col || t.cursor_col == m.cols - 1)
            &&& t.cursor_col <= m.cursor_col + 8
        },
        (byte == 0x0A || byte == 0x0B || byte == 0x0C) ==> execute_model(m, byte) == newline_model(m),
        !(byte == 0x0D || byte == 0x08 || byte == 0x09 || byte == 0x0A || byte == 0x0B || byte == 0x0C)
            ==> execute_model(m, byte) == m,
{
}

/// Saving the cursor (ESC 7) and restoring it (ESC 8) with nothing in between gives the cursor
/// back where it was, on the screen.
pub proof fn lemma_save_restore_cursor(m: GridModel)
    requires
        model_wf(m),
        m.cursor_col < m.cols,
    ensures
        esc_model(esc_model(m, 0x37), 0x38) == (GridModel { saved_cursor: (m.cursor_row, m.cursor_col), ..m }),
{
}

/// Resizing keeps every cell that lies inside both sizes, fills the rest with blanks, keeps
/// the cursor on the new screen (clamped to its last row and column), puts the region's bottom
/// on the last row, and keeps the scrollback; resizing to the same size changes nothing.
pub proof fn lemma_resize(m: GridModel, cols: int, rows: int)
    requires
        model_wf(m),
        cols >= 1,
        rows >= 1,
    ensures
        ({
            let z = resize_model(m, cols, rows);
            &&& (cols == m.cols && rows == m.rows) ==> z == m
            &&& !(cols == m.cols && rows == m.rows) ==> {
                &&& z.rows == rows && z.cols == cols
                &&& z.cells.len() == rows
                &&& forall|r: int| 0 <= r < rows ==> (#[trigger] z.cells[r]).len() == cols
                &&& forall|r: int, c: int|
                    0 <= r < rows && 0 <= c < cols ==> #[trigger] z.cells[r][c] == (if r < m.rows && c < m.cols {
                        m.cells[r][c]
                    } else {
                        blank_cell()
                    })
                &&& z.cursor_row == (if m.cursor_row <= rows - 1 { m.cursor_row } else { rows - 1 })
                &&& z.cursor_col == (if m.cursor_col <= cols - 1 { m.cursor_col } else { cols - 1 })
                &&& z.scroll_bottom == rows - 1
                &&& z.scrollback == m.scrollback
                &&& z.saved_cells == m.saved_cells
            }
        }),
{
}

/// Scrolling the region down one line (reverse index at its top, CSI T) puts a blank line at
/// the region's top, moves its other lines down one (the bottom one is lost) and keeps the
/// lines outside the region, the cursor and the scrollback.
pub proof fn lemma_scroll_down_lines(m: GridModel)
    requires
        model_wf(m),
        m.scroll_top <= m.scroll_bottom,
    ensures
        ({
            let d = scroll_down_model(m);
            &&& d == (GridModel { cells: d.cells, ..m })
            &&& d.cells.len() == m.rows
            &&& d.cells[m.scroll_top].len() == m.cols
            &&& forall|c: int| 0 <= c < m.cols ==> #[trigger] d.cells[m.scroll_top][c] == blank_cell()
            &&& forall|r: int| m.scroll_top < r <= m.scroll_bottom ==> #[trigger] d.cells[r] == m.cells[r - 1]
            &&& forall|r: int| 0 <= r < m.rows && (r < m.scroll_top || r > m.scroll_bottom) ==> #[trigger] d.cells[r]
                == m.cells[r]
        }),
{
}

/// Escape sequences: index (ESC D) is a line feed, next line (ESC E) a carriage return and a
/// line feed, and reverse index (ESC M) moves the cursor up a line, scrolling the region down
/// instead when the cursor is on its top line.
pub proof fn lemma_escape_sequences(m: GridModel)
    requires
        model_wf(m),
    ensures
        esc_model(m, 0x44) == newline_model(m),
        esc_model(m, 0x45) == newline_model(execute_model(m, 0x0D)),
        m.cursor_row == m.scroll_top ==> esc_model(m, 0x4D) == scroll_down_model(m),
        m.cursor_row != m.scroll_top ==> esc_model(m, 0x4D) == (GridModel {
            cursor_row: if m.cursor_row >= 1 { m.cursor_row - 1 } else { 0 },
            ..m
        }),
{
}

/// Scroll up (CSI S) and scroll down (CSI T) by a count (1 when missing or 0) scroll the region
/// that many lines, one line at a time, moving only the screen (and, scrolling up on the main
/// screen with the region at the top, the scrollback).
pub proof fn lemma_scroll_sequences(m: GridModel, ps: Seq<Seq<u16>>, inter: Seq<u8>)
    ensures
        ({
            let n = csi_param(ps, 0, 1) as nat;
            &&& n >= 1
            &&& csi_model(m, ps, inter, 'S') == scroll_up_times(m, n)
            &&& csi_model(m, ps, inter, 'T') == scroll_down_times(m, n)
            &&& scroll_up_times(m, 1) == scroll_up_model(m)
            &&& scroll_down_times(m, 1) == scroll_down_model(m)
            &&& n >= 2 ==> scroll_up_times(m, n) == scroll_up_times(scroll_up_model(m), (n - 1) as nat)
            &&& n >= 2 ==> scroll_down_times(m, n) == scroll_down_times(scroll_down_model(m), (n - 1) as nat)
        }),
{
    assert(scroll_up_times(scroll_up_model(m), 0) == scroll_up_model(m));
    assert(scroll_down_times(scroll_down_model(m), 0) == scroll_down_model(m));
}

/// A fresh grid is blank, with the cursor home and shown, the default pen, an empty
/// scrollback, the scroll region over the whole screen and the main screen shown.
pub proof fn lemma_new_grid(cols: int, rows: int)
    requires
        1 <= cols <= usize::MAX,
        1 <= rows <= usize::MAX,
    ensures
        ({
            let g = crate::terminal::new_model(cols, rows);
            &&& model_wf(g)
            &&& g.rows == rows && g.cols == cols
            &&& forall|r: int, c: int| 0 <= r < rows && 0 <= c < cols ==> #[trigger] g.cells[r][c] == blank_cell()
            &&& g.cursor_row == 0 && g.cursor_col == 0 && g.cursor_visible
            &&& g.fg == spec_default_fg() && g.bg == spec_default_bg() && !g.bold && !g.italic && !g.underline
            &&& g.scrollback.len() == 0
            &&& g.scroll_top == 0 && g.scroll_bottom == rows - 1
            &&& !g.alt_screen && g.saved_cells is None
        }),
{
}

} // verus!
