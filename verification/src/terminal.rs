use vstd::prelude::*;

use std::collections::VecDeque;

pub mod csi;
pub mod laws;
pub mod sgr;

verus! {

/// How many lines the scrollback keeps.
pub const MAX_SCROLLBACK: usize = 10000;

/// An opaque RGB colour.
#[derive(Debug, Clone, Copy, PartialEq, Eq, Structural)]
pub struct Color {
    pub r: u8,
    pub g: u8,
    pub b: u8,
}

pub open spec fn rgb(r: u8, g: u8, b: u8) -> Color {
    Color { r, g, b }
}

/// The eight standard ANSI colours.
pub open spec fn spec_ansi_color(i: int) -> Color {
    if i == 0 {
        rgb(0, 0, 0)
    } else if i == 1 {
        rgb(205, 49, 49)
    } else if i == 2 {
        rgb(13, 188, 121)
    } else if i == 3 {
        rgb(229, 229, 16)
    } else if i == 4 {
        rgb(36, 114, 200)
    } else if i == 5 {
        rgb(188, 63, 188)
    } else if i == 6 {
        rgb(17, 168, 205)
    } else {
        rgb(229, 229, 229)
    }
}

/// The eight bright ANSI colours.
pub open spec fn spec_ansi_bright(i: int) -> Color {
    if i == 0 {
        rgb(102, 102, 102)
    } else if i == 1 {
        rgb(241, 76, 76)
    } else if i == 2 {
        rgb(35, 209, 139)
    } else if i == 3 {
        rgb(245, 245, 67)
    } else if i == 4 {
        rgb(59, 142, 234)
    } else if i == 5 {
        rgb(214, 112, 214)
    } else if i == 6 {
        rgb(41, 184, 219)
    } else {
        rgb(255, 255, 255)
    }
}

/// Standard ANSI colour `i` (0 to 7).
pub fn ansi_color(i: u16) -> (c: Color)
    requires
        i < 8,
    ensures
        c == spec_ansi_color(i as int),
{
    match i {
        0 => Color { r: 0, g: 0, b: 0 },
        1 => Color { r: 205, g: 49, b: 49 },
        2 => Color { r: 13, g: 188, b: 121 },
        3 => Color { r: 229, g: 229, b: 16 },
        4 => Color { r: 36, g: 114, b: 200 },
        5 => Color { r: 188, g: 63, b: 188 },
        6 => Color { r: 17, g: 168, b: 205 },
        _ => Color { r: 229, g: 229, b: 229 },
    }
}

/// Bright ANSI colour `i` (0 to 7).
pub fn ansi_bright(i: u16) -> (c: Color)
    requires
        i < 8,
    ensures
        c == spec_ansi_bright(i as int),
{
    match i {
        0 => Color { r: 102, g: 102, b: 102 },
        1 => Color { r: 241, g: 76, b: 76 },
        2 => Color { r: 35, g: 209, b: 139 },
        3 => Color { r: 245, g: 245, b: 67 },
        4 => Color { r: 59, g: 142, b: 234 },
        5 => Color { r: 214, g: 112, b: 214 },
        6 => Color { r: 41, g: 184, b: 219 },
        _ => Color { r: 255, g: 255, b: 255 },
    }
}

pub open spec fn spec_default_fg() -> Color {
    rgb(204, 204, 204)
}

pub open spec fn spec_default_bg() -> Color {
    rgb(30, 30, 30)
}

/// The default text colour.
pub fn default_fg() -> (c: Color)
    ensures
        c == spec_default_fg(),
{
    Color { r: 204, g: 204, b: 204 }
}

/// The default background colour.
pub fn default_bg() -> (c: Color)
    ensures
        c == spec_default_bg(),
{
    Color { r: 30, g: 30, b: 30 }
}

/// One level of the 6x6x6 colour cube.
pub open spec fn cube_level(v: int) -> u8 {
    if v == 0 {
        0
    } else {
        (55 + 40 * v) as u8
    }
}

/// Colour `idx` of the 256-colour palette: the 16 ANSI colours, the 6x6x6 cube, then 24 greys;
/// the default text colour past 255.
pub open spec fn spec_color_from_256(idx: u16) -> Color {
    if idx < 8 {
        spec_ansi_color(idx as int)
    } else if idx < 16 {
        spec_ansi_bright(idx - 8)
    } else if idx < 232 {
        let i = idx - 16;
        rgb(cube_level(i / 36), cube_level((i % 36) / 6), cube_level(i % 6))
    } else if idx < 256 {
        let v = (8 + 10 * (idx - 232)) as u8;
        rgb(v, v, v)
    } else {
        spec_default_fg()
    }
}

fn cube(v: u16) -> (r: u8)
    requires
        v < 6,
    ensures
        r == cube_level(v as int),
{
    if v == 0 {
        0
    } else {
        (55 + 40 * v) as u8
    }
}

/// Colour `idx` of the 256-colour palette.
pub fn color_from_256(idx: u16) -> (c: Color)
    ensures
        c == spec_color_from_256(idx),
{
    if idx < 8 {
        ansi_color(idx)
    } else if idx < 16 {
        ansi_bright(idx - 8)
    } else if idx < 232 {
        let i = idx - 16;
        Color { r: cube(i / 36), g: cube((i % 36) / 6), b: cube(i % 6) }
    } else if idx < 256 {
        let v = (8 + 10 * (idx - 232)) as u8;
        Color { r: v, g: v, b: v }
    } else {
        default_fg()
    }
}

/// One character cell of the screen with its attributes.
#[derive(Debug, Clone, Copy, PartialEq, Eq, Structural)]
pub struct Cell {
    pub c: char,
    pub fg: Color,
    pub bg: Color,
    pub bold: bool,
    pub italic: bool,
    pub underline: bool,
}

/// A blank cell: a space in the default colours, no attributes.
pub open spec fn blank_cell() -> Cell {
    Cell { c: ' ', fg: spec_default_fg(), bg: spec_default_bg(), bold: false, italic: false, underline: false }
}

impl Default for Cell {
    fn default() -> (c: Cell)
        ensures
            c == blank_cell(),
    {
        Cell { c: ' ', fg: default_fg(), bg: default_bg(), bold: false, italic: false, underline: false }
    }
}

/// A row of `n` blank cells.
pub open spec fn blank_row(n: int) -> Seq<Cell> {
    Seq::new(n as nat, |c: int| blank_cell())
}

/// A screen of blank rows.
pub open spec fn blank_screen(rows: int, cols: int) -> Seq<Seq<Cell>> {
    Seq::new(rows as nat, |r: int| blank_row(cols))
}

/// The rows of a grid by their cells.
pub open spec fn rows_view(rows: Seq<Vec<Cell>>) -> Seq<Seq<Cell>> {
    rows.map_values(|row: Vec<Cell>| row@)
}

/// What a terminal grid holds.
pub ghost struct GridModel {
    pub cells: Seq<Seq<Cell>>,
    pub cursor_row: int,
    pub cursor_col: int,
    pub rows: int,
    pub cols: int,
    pub scrollback: Seq<Seq<Cell>>,
    pub scroll_offset: int,
    pub fg: Color,
    pub bg: Color,
    pub bold: bool,
    pub italic: bool,
    pub underline: bool,
    pub scroll_top: int,
    pub scroll_bottom: int,
    pub cursor_visible: bool,
    pub alt_screen: bool,
    pub saved_cells: Option<Seq<Seq<Cell>>>,
    pub saved_cursor: (int, int),
}

/// A grid whose screen has `rows` rows of `cols` cells, with the cursor on the screen (or just
/// past the last column, waiting to wrap) and the scroll region's bottom on it.
pub open spec fn model_wf(m: GridModel) -> bool {
    &&& 1 <= m.rows <= usize::MAX
    &&& 1 <= m.cols <= usize::MAX
    &&& m.cells.len() == m.rows
    &&& forall|r: int| 0 <= r < m.rows ==> (#[trigger] m.cells[r]).len() == m.cols
    &&& 0 <= m.cursor_row < m.rows
    &&& 0 <= m.cursor_col <= m.cols
    &&& 0 <= m.scroll_bottom < m.rows
    &&& 0 <= m.scroll_top <= usize::MAX
    &&& 0 <= m.saved_cursor.0 <= usize::MAX
    &&& 0 <= m.saved_cursor.1 <= usize::MAX
    &&& 0 <= m.scroll_offset <= usize::MAX
    &&& m.scrollback.len() <= MAX_SCROLLBACK
}

/// The character grid of a terminal: screen, cursor, attributes, scroll region, scrollback and
/// the alternate screen.
pub struct TerminalGrid {
    pub cells: Vec<Vec<Cell>>,
    pub cursor_row: usize,
    pub cursor_col: usize,
    pub rows: usize,
    pub cols: usize,
    pub scrollback: VecDeque<Vec<Cell>>,
    pub scroll_offset: usize,
    pub cur_fg: Color,
    pub cur_bg: Color,
    pub cur_bold: bool,
    pub cur_italic: bool,
    pub cur_underline: bool,
    pub scroll_top: usize,
    pub scroll_bottom: usize,
    pub cursor_visible: bool,
    pub alt_screen: bool,
    pub saved_cells: Option<Vec<Vec<Cell>>>,
    pub saved_cursor: (usize, usize),
}

/// The model of a fresh `cols` x `rows` grid.
pub open spec fn new_model(cols: int, rows: int) -> GridModel {
    GridModel {
        cells: blank_screen(rows, cols),
        cursor_row: 0,
        cursor_col: 0,
        rows,
        cols,
        scrollback: Seq::empty(),
        scroll_offset: 0,
        fg: spec_default_fg(),
        bg: spec_default_bg(),
        bold: false,
        italic: false,
        underline: false,
        scroll_top: 0,
        scroll_bottom: if rows > 0 { rows - 1 } else { 0 },
        cursor_visible: true,
        alt_screen: false,
        saved_cells: None,
        saved_cursor: (0, 0),
    }
}

/// The model after resizing to `cols` x `rows`: the overlapping part of the screen kept, the
/// rest blank, the scroll bottom on the last row, the cursor clamped.
pub open spec fn resize_model(m: GridModel, cols: int, rows: int) -> GridModel {
    if cols == m.cols && rows == m.rows {
        m
    } else {
        GridModel {
            cells: Seq::new(
                rows as nat,
                |r: int|
                    Seq::new(
                        cols as nat,
                        |c: int|
                            if r < m.rows && c < m.cols {
                                m.cells[r][c]
                            } else {
                                blank_cell()
                            },
                    ),
            ),
            rows,
            cols,
            scroll_bottom: rows - 1,
            cursor_row: if m.cursor_row < rows - 1 { m.cursor_row } else { rows - 1 },
            cursor_col: if m.cursor_col < cols - 1 { m.cursor_col } else { cols - 1 },
            ..m
        }
    }
}

/// The model after scrolling the region up one line: the region's top line goes to the
/// scrollback when the region starts at the top of the main screen.
pub open spec fn scroll_up_model(m: GridModel) -> GridModel {
    let sb = if m.scroll_top == 0 && !m.alt_screen {
        let pushed = m.scrollback.push(m.cells[0]);
        if pushed.len() > MAX_SCROLLBACK {
            pushed.drop_first()
        } else {
            pushed
        }
    } else {
        m.scrollback
    };
    GridModel {
        cells: Seq::new(
            m.rows as nat,
            |r: int|
                if m.scroll_top <= r < m.scroll_bottom {
                    m.cells[r + 1]
                } else if r == m.scroll_bottom {
                    blank_row(m.cols)
                } else {
                    m.cells[r]
                },
        ),
        scrollback: sb,
        ..m
    }
}

/// The model after scrolling the region down one line.
pub open spec fn scroll_down_model(m: GridModel) -> GridModel {
    GridModel {
        cells: Seq::new(
            m.rows as nat,
            |r: int|
                if r == m.scroll_top {
                    blank_row(m.cols)
                } else if m.scroll_top < r <= m.scroll_bottom {
                    m.cells[r - 1]
                } else {
                    m.cells[r]
                },
        ),
        ..m
    }
}

/// The model after a line feed: scroll at the region's bottom, else move down unless on the
/// last row.
pub open spec fn newline_model(m: GridModel) -> GridModel {
    if m.cursor_row == m.scroll_bottom {
        scroll_up_model(m)
    } else if m.cursor_row < m.rows - 1 {
        GridModel { cursor_row: m.cursor_row + 1, ..m }
    } else {
        m
    }
}

/// The model after printing `ch`: wrap first if the cursor waits past the last column, then
/// write the character with the current attributes and advance.
pub open spec fn print_model(m: GridModel, ch: char) -> GridModel {
    let m1 = if m.cursor_col >= m.cols {
        newline_model(GridModel { cursor_col: 0, ..m })
    } else {
        m
    };
    let cell = Cell { c: ch, fg: m1.fg, bg: m1.bg, bold: m1.bold, italic: m1.italic, underline: m1.underline };
    GridModel {
        cells: m1.cells.update(m1.cursor_row, m1.cells[m1.cursor_row].update(m1.cursor_col, cell)),
        cursor_col: m1.cursor_col + 1,
        ..m1
    }
}

/// The model after a control byte: line feeds, carriage return, backspace and tab.
pub open spec fn execute_model(m: GridModel, byte: u8) -> GridModel {
    if byte == 0x0A || byte == 0x0B || byte == 0x0C {
        newline_model(m)
    } else if byte == 0x0D {
        GridModel { cursor_col: 0, ..m }
    } else if byte == 0x08 {
        GridModel { cursor_col: if m.cursor_col > 0 { m.cursor_col - 1 } else { 0 }, ..m }
    } else if byte == 0x09 {
        let next = (m.cursor_col + 8) / 8 * 8;
        GridModel { cursor_col: if next < m.cols - 1 { next } else { m.cols - 1 }, ..m }
    } else {
        m
    }
}

/// The model after an escape sequence: reverse index (`M`), index (`D`), next line (`E`),
/// save (`7`) and restore (`8`) of the cursor.
pub open spec fn esc_model(m: GridModel, byte: u8) -> GridModel {
    if byte == 0x4D {
        if m.cursor_row == m.scroll_top {
            scroll_down_model(m)
        } else {
            GridModel { cursor_row: if m.cursor_row > 0 { m.cursor_row - 1 } else { 0 }, ..m }
        }
    } else if byte == 0x44 {
        newline_model(m)
    } else if byte == 0x45 {
        newline_model(GridModel { cursor_col: 0, ..m })
    } else if byte == 0x37 {
        GridModel { saved_cursor: (m.cursor_row, m.cursor_col), ..m }
    } else if byte == 0x38 {
        GridModel {
            cursor_row: if m.saved_cursor.0 < m.rows - 1 { m.saved_cursor.0 } else { m.rows - 1 },
            cursor_col: if m.saved_cursor.1 < m.cols - 1 { m.saved_cursor.1 } else { m.cols - 1 },
            ..m
        }
    } else {
        m
    }
}

/// Printing, control bytes and escape sequences keep the screen's size, the scroll region and
/// the saved screen.
pub proof fn lemma_print_execute_esc_keep_saved_screen(m: GridModel, ch: char, byte: u8)
    ensures
        print_model(m, ch).rows == m.rows && print_model(m, ch).cols == m.cols
            && print_model(m, ch).scroll_top == m.scroll_top && print_model(m, ch).saved_cells == m.saved_cells,
        execute_model(m, byte).rows == m.rows && execute_model(m, byte).cols == m.cols
            && execute_model(m, byte).scroll_top == m.scroll_top && execute_model(m, byte).saved_cells == m.saved_cells,
        esc_model(m, byte).rows == m.rows && esc_model(m, byte).cols == m.cols
            && esc_model(m, byte).scroll_top == m.scroll_top && esc_model(m, byte).saved_cells == m.saved_cells,
{
}

impl TerminalGrid {
    /// What this grid holds.
    pub open spec fn model(&self) -> GridModel {
        GridModel {
            cells: rows_view(self.cells@),
            cursor_row: self.cursor_row as int,
            cursor_col: self.cursor_col as int,
            rows: self.rows as int,
            cols: self.cols as int,
            scrollback: rows_view(self.scrollback@),
            scroll_offset: self.scroll_offset as int,
            fg: self.cur_fg,
            bg: self.cur_bg,
            bold: self.cur_bold,
            italic: self.cur_italic,
            underline: self.cur_underline,
            scroll_top: self.scroll_top as int,
            scroll_bottom: self.scroll_bottom as int,
            cursor_visible: self.cursor_visible,
            alt_screen: self.alt_screen,
            saved_cells: match self.saved_cells {
                Some(c) => Some(rows_view(c@)),
                None => None,
            },
            saved_cursor: (self.saved_cursor.0 as int, self.saved_cursor.1 as int),
        }
    }

    /// Whether the grid is consistent.
    pub open spec fn wf(&self) -> bool {
        model_wf(self.model())
    }
}

/// `n` blank cells.
fn blank_row_vec(n: usize) -> (v: Vec<Cell>)
    ensures
        v@ == blank_row(n as int),
{
    let mut v: Vec<Cell> = Vec::new();
    let mut i: usize = 0;
    while i < n
        invariant
            i <= n,
            v@ == blank_row(i as int),
        decreases n - i,
    {
        v.push(Cell::default());
        assert(v@ =~= blank_row(i + 1));
        i += 1;
    }
    v
}

/// A screen of `rows` blank rows of `cols` cells.
fn blank_screen_vec(rows: usize, cols: usize) -> (v: Vec<Vec<Cell>>)
    ensures
        v@.len() == rows,
        rows_view(v@) == blank_screen(rows as int, cols as int),
{
    let mut cells: Vec<Vec<Cell>> = Vec::new();
    let mut r: usize = 0;
    while r < rows
        invariant
            r <= rows,
            cells@.len() == r,
            forall|k: int| 0 <= k < r ==> (#[trigger] cells@[k])@ == blank_row(cols as int),
        decreases rows - r,
    {
        cells.push(blank_row_vec(cols));
        r += 1;
    }
    assert(rows_view(cells@) =~= blank_screen(rows as int, cols as int));
    cells
}

impl TerminalGrid {
    /// A blank `cols` x `rows` grid with the cursor at the top left. A grid has at least one
    /// row and one column: without them there is no cell for the cursor, and the next character
    /// printed would be written past the end of the screen. The terminal view never asks for
    /// fewer (it shows at least one row of one column).
    pub fn new(cols: usize, rows: usize) -> (g: TerminalGrid)
        requires
            cols >= 1,
            rows >= 1,
        ensures
            g.wf(),
            g.model() == new_model(cols as int, rows as int),
    {
        let cells = blank_screen_vec(rows, cols);
        let g = TerminalGrid {
            cells,
            cursor_row: 0,
            cursor_col: 0,
            rows,
            cols,
            scrollback: VecDeque::new(),
            scroll_offset: 0,
            cur_fg: default_fg(),
            cur_bg: default_bg(),
            cur_bold: false,
            cur_italic: false,
            cur_underline: false,
            scroll_top: 0,
            scroll_bottom: rows - 1,
            cursor_visible: true,
            alt_screen: false,
            saved_cells: None,
            saved_cursor: (0, 0),
        };
        assert(g.model().scrollback =~= Seq::<Seq<Cell>>::empty());
        g
    }
}

impl TerminalGrid {
    /// Changes the screen to `new_cols` x `new_rows`, keeping what fits. As with `new`, the new
    /// screen has at least one row and one column: an empty screen has no cell for the cursor,
    /// and printing on it would write past its end. The terminal view always asks for at least
    /// one of each.
    pub fn resize(&mut self, new_cols: usize, new_rows: usize)
        requires
            old(self).wf(),
            new_cols >= 1,
            new_rows >= 1,
        ensures
            final(self).wf(),
            final(self).model() == resize_model(old(self).model(), new_cols as int, new_rows as int),
    {
        if new_cols == self.cols && new_rows == self.rows {
            return;
        }
        let ghost m = self.model();
        let mut new_cells: Vec<Vec<Cell>> = Vec::new();
        let mut r: usize = 0;
        while r < new_rows
            invariant
                r <= new_rows,
                m == self.model(),
                model_wf(m),
                new_cells@.len() == r,
                forall|k: int| 0 <= k < r ==> (#[trigger] new_cells@[k])@ == Seq::new(
                    new_cols as nat,
                    |c: int| if k < m.rows && c < m.cols { m.cells[k][c] } else { blank_cell() },
                ),
            decreases new_rows - r,
        {
            let mut row: Vec<Cell> = Vec::new();
            let mut c: usize = 0;
            while c < new_cols
                invariant
                    c <= new_cols,
                    r < new_rows,
                    m == self.model(),
                    model_wf(m),
                    row@.len() == c,
                    forall|q: int| 0 <= q < c ==> #[trigger] row@[q] == (if r < m.rows && q < m.cols { m.cells[r as int][q] } else { blank_cell() }),
                decreases new_cols - c,
            {
                if r < self.rows && c < self.cols {
                    assert(self.cells@[r as int]@ == m.cells[r as int]);
                    row.push(self.cells[r][c]);
                } else {
                    row.push(Cell::default());
                }
                c += 1;
            }
            assert(row@ =~= Seq::new(
                new_cols as nat,
                |q: int| if r < m.rows && q < m.cols { m.cells[r as int][q] } else { blank_cell() },
            ));
            new_cells.push(row);
            r += 1;
        }
        self.cells = new_cells;
        self.rows = new_rows;
        self.cols = new_cols;
        self.scroll_bottom = new_rows - 1;
        if self.cursor_row > new_rows - 1 {
            self.cursor_row = new_rows - 1;
        }
        if self.cursor_col > new_cols - 1 {
            self.cursor_col = new_cols - 1;
        }
        assert(self.model().cells =~= resize_model(m, new_cols as int, new_rows as int).cells);
    }
}

/// A copy of a row.
fn copy_row(row: &Vec<Cell>) -> (r: Vec<Cell>)
    ensures
        r@ == row@,
{
    let mut r: Vec<Cell> = Vec::new();
    let mut i: usize = 0;
    while i < row.len()
        invariant
            i <= row.len(),
            r@ == row@.take(i as int),
        decreases row.len() - i,
    {
        r.push(row[i]);
        assert(row@.take(i + 1) == row@.take(i as int).push(row@[i as int]));
        i += 1;
    }
    assert(row@.take(row@.len() as int) == row@);
    r
}

/// A copy of a screen.
fn copy_screen(cells: &Vec<Vec<Cell>>) -> (r: Vec<Vec<Cell>>)
    ensures
        r@.len() == cells@.len(),
        rows_view(r@) == rows_view(cells@),
{
    let mut r: Vec<Vec<Cell>> = Vec::new();
    let mut i: usize = 0;
    while i < cells.len()
        invariant
            i <= cells.len(),
            r@.len() == i,
            forall|k: int| 0 <= k < i ==> (#[trigger] r@[k])@ == cells@[k]@,
        decreases cells.len() - i,
    {
        r.push(copy_row(&cells[i]));
        i += 1;
    }
    assert(rows_view(r@) =~= rows_view(cells@));
    r
}

/// Moves rows `top + 1 ..= bottom` up by one and blanks row `bottom`.
fn shift_rows_up(cells: &mut Vec<Vec<Cell>>, top: usize, bottom: usize, cols: usize)
    requires
        bottom < old(cells)@.len(),
    ensures
        final(cells)@.len() == old(cells)@.len(),
        forall|k: int|
            0 <= k < old(cells)@.len() ==> (#[trigger] final(cells)@[k])@ == (if top <= k < bottom {
                old(cells)@[k + 1]@
            } else if k == bottom {
                blank_row(cols as int)
            } else {
                old(cells)@[k]@
            }),
{
    let ghost o = cells@;
    let mut r = top;
    while r < bottom
        invariant
            bottom < o.len(),
            cells@.len() == o.len(),
            top <= r,
            r <= bottom || r == top,
            forall|k: int|
                0 <= k < o.len() ==> (#[trigger] cells@[k])@ == (if top <= k < r {
                    o[k + 1]@
                } else {
                    o[k]@
                }),
        decreases bottom - r,
    {
        let next = copy_row(&cells[r + 1]);
        cells[r] = next;
        r += 1;
    }
    cells[bottom] = blank_row_vec(cols);
}

/// Moves rows `top ..= bottom - 1` down by one and blanks row `top`.
fn shift_rows_down(cells: &mut Vec<Vec<Cell>>, top: usize, bottom: usize, cols: usize)
    requires
        top < old(cells)@.len(),
        bottom < old(cells)@.len(),
    ensures
        final(cells)@.len() == old(cells)@.len(),
        forall|k: int|
            0 <= k < old(cells)@.len() ==> (#[trigger] final(cells)@[k])@ == (if k == top {
                blank_row(cols as int)
            } else if top < k <= bottom {
                old(cells)@[k - 1]@
            } else {
                old(cells)@[k]@
            }),
{
    let ghost o = cells@;
    let mut r = bottom;
    while r > top
        invariant
            top < o.len(),
            bottom < o.len(),
            r <= bottom,
            cells@.len() == o.len(),
            forall|k: int|
                0 <= k < o.len() ==> (#[trigger] cells@[k])@ == (if r < k <= bottom && k > top {
                    o[k - 1]@
                } else {
                    o[k]@
                }),
        decreases r,
    {
        let prev = copy_row(&cells[r - 1]);
        cells[r] = prev;
        r -= 1;
    }
    cells[top] = blank_row_vec(cols);
}

/// Writes `cell` at row `r`, column `c`.
fn set_cell(cells: &mut Vec<Vec<Cell>>, r: usize, c: usize, cell: Cell)
    requires
        r < old(cells)@.len(),
        c < old(cells)@[r as int]@.len(),
    ensures
        rows_view(final(cells)@) == rows_view(old(cells)@).update(
            r as int,
            old(cells)@[r as int]@.update(c as int, cell),
        ),
{
    let ghost o = cells@;
    let row = &mut cells[r];
    row.set(c, cell);
    assert(rows_view(cells@) =~= rows_view(o).update(r as int, o[r as int]@.update(c as int, cell)));
}

impl TerminalGrid {
    fn scroll_up(&mut self)
        requires
            old(self).wf(),
        ensures
            final(self).wf(),
            final(self).model() == scroll_up_model(old(self).model()),
    {
        let ghost m = self.model();
        if self.scroll_top == 0 && !self.alt_screen {
            let row = copy_row(&self.cells[0]);
            self.scrollback.push_back(row);
            if self.scrollback.len() > MAX_SCROLLBACK {
                self.scrollback.pop_front();
            }
            assert(rows_view(self.scrollback@) =~= scroll_up_model(m).scrollback);
        }
        shift_rows_up(&mut self.cells, self.scroll_top, self.scroll_bottom, self.cols);
        assert(rows_view(self.cells@) =~= scroll_up_model(m).cells);
    }

    fn scroll_down(&mut self)
        requires
            old(self).wf(),
            old(self).scroll_top < old(self).rows,
        ensures
            final(self).wf(),
            final(self).model() == scroll_down_model(old(self).model()),
    {
        let ghost m = self.model();
        shift_rows_down(&mut self.cells, self.scroll_top, self.scroll_bottom, self.cols);
        assert(rows_view(self.cells@) =~= scroll_down_model(m).cells);
    }

    fn newline(&mut self)
        requires
            old(self).wf(),
        ensures
            final(self).wf(),
            final(self).model() == newline_model(old(self).model()),
    {
        if self.cursor_row == self.scroll_bottom {
            self.scroll_up();
        } else if self.cursor_row < self.rows - 1 {
            self.cursor_row += 1;
        }
    }

    fn reset_attributes(&mut self)
        ensures
            final(self).model() == (GridModel {
                fg: spec_default_fg(),
                bg: spec_default_bg(),
                bold: false,
                italic: false,
                underline: false,
                ..old(self).model()
            }),
    {
        self.cur_fg = default_fg();
        self.cur_bg = default_bg();
        self.cur_bold = false;
        self.cur_italic = false;
        self.cur_underline = false;
    }

    fn current_cell(&self) -> (c: Cell)
        ensures
            c == (Cell { c: ' ', fg: self.cur_fg, bg: self.cur_bg, bold: self.cur_bold, italic: self.cur_italic, underline: self.cur_underline }),
    {
        Cell {
            c: ' ',
            fg: self.cur_fg,
            bg: self.cur_bg,
            bold: self.cur_bold,
            italic: self.cur_italic,
            underline: self.cur_underline,
        }
    }

    /// Writes a printable character at the cursor and advances it, wrapping first when the
    /// cursor waits past the last column.
    pub fn print(&mut self, c: char)
        requires
            old(self).wf(),
        ensures
            final(self).wf(),
            final(self).model() == print_model(old(self).model(), c),
    {
        if self.cursor_col >= self.cols {
            self.cursor_col = 0;
            self.newline();
        }
        let mut cell = self.current_cell();
        cell.c = c;
        set_cell(&mut self.cells, self.cursor_row, self.cursor_col, cell);
        self.cursor_col += 1;
    }

    /// Acts on a control byte: line feed (also VT and FF), carriage return, backspace, tab.
    pub fn execute(&mut self, byte: u8)
        requires
            old(self).wf(),
        ensures
            final(self).wf(),
            final(self).model() == execute_model(old(self).model(), byte),
    {
        if byte == 0x0A || byte == 0x0B || byte == 0x0C {
            self.newline();
        } else if byte == 0x0D {
            self.cursor_col = 0;
        } else if byte == 0x08 {
            if self.cursor_col > 0 {
                self.cursor_col -= 1;
            }
        } else if byte == 0x09 {
            let base = self.cursor_col - self.cursor_col % 8;
            let last = self.cols - 1;
            if base >= last || last - base <= 8 {
                self.cursor_col = last;
            } else {
                self.cursor_col = base + 8;
            }
            assert((self.cursor_col as int + 0) == self.cursor_col);
        }
    }

    /// Acts on an escape sequence by its final byte; the intermediates do not matter.
    pub fn esc_dispatch(&mut self, intermediates: &[u8], ignore: bool, byte: u8)
        requires
            old(self).wf(),
        ensures
            final(self).wf(),
            final(self).model() == esc_model(old(self).model(), byte),
    {
        if byte == 0x4D {
            if self.cursor_row == self.scroll_top {
                self.scroll_down();
            } else if self.cursor_row > 0 {
                self.cursor_row -= 1;
            }
        } else if byte == 0x44 {
            self.newline();
        } else if byte == 0x45 {
            self.cursor_col = 0;
            self.newline();
        } else if byte == 0x37 {
            self.saved_cursor = (self.cursor_row, self.cursor_col);
        } else if byte == 0x38 {
            let last_row = self.rows - 1;
            let last_col = self.cols - 1;
            self.cursor_row = if self.saved_cursor.0 < last_row {
                self.saved_cursor.0
            } else {
                last_row
            };
            self.cursor_col = if self.saved_cursor.1 < last_col {
                self.saved_cursor.1
            } else {
                last_col
            };
        }
    }
}

} // verus!
