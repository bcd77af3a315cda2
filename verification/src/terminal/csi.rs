use vstd::prelude::*;

use crate::terminal::sgr::{lemma_sgr_from_pen_only, param_or_zero, param_value, params_view, sgr_model};
use crate::terminal::{blank_screen_vec, copy_screen};
use crate::terminal::{
    blank_cell, blank_row, blank_row_vec, blank_screen, execute_model, lemma_print_execute_esc_keep_saved_screen,
    model_wf, print_model, rows_view,
    scroll_down_model, scroll_up_model, Cell, GridModel, TerminalGrid,
};

verus! {

broadcast use vstd::slice::group_slice_axioms;

/// Numeric parameter `idx` of a control sequence: its first value, or `default` where it is
/// missing or 0.
pub open spec fn csi_param(ps: Seq<Seq<u16>>, idx: int, default: u16) -> u16 {
    let v = param_or_zero(ps, idx);
    if v != 0 {
        v
    } else {
        default
    }
}

/// Whether a control sequence is a private one (its intermediates start with `?`).
pub open spec fn is_private(inter: Seq<u8>) -> bool {
    inter.len() > 0 && inter[0] == 0x3F
}

pub open spec fn lesser(a: int, b: int) -> int {
    if a < b {
        a
    } else {
        b
    }
}

/// `a - b`, or 0 where that is negative.
pub open spec fn sub_or_zero(a: int, b: int) -> int {
    if a > b {
        a - b
    } else {
        0
    }
}

/// A row with the cells from `from` up to (not including) `to` blanked.
pub open spec fn erase_cells(row: Seq<Cell>, from: int, to: int) -> Seq<Cell> {
    Seq::new(row.len(), |c: int| if from <= c < to { blank_cell() } else { row[c] })
}

/// A row with `n` cells deleted at `col`, the rest moved left and blanks coming in at the end.
pub open spec fn delete_chars_row(row: Seq<Cell>, col: int, n: int) -> Seq<Cell> {
    Seq::new(
        row.len(),
        |c: int|
            if c < col {
                row[c]
            } else if c + n < row.len() {
                row[c + n]
            } else {
                blank_cell()
            },
    )
}

/// A row with `n` blanks inserted at `col`, the rest moved right and cut at the row's length.
pub open spec fn insert_chars_row(row: Seq<Cell>, col: int, n: int) -> Seq<Cell> {
    Seq::new(
        row.len(),
        |c: int|
            if c < col {
                row[c]
            } else if c < col + n {
                blank_cell()
            } else {
                row[c - n]
            },
    )
}

/// The screen with `n` blank lines inserted at `row`, lines moving down within the region that
/// ends at `bottom` and falling off there.
pub open spec fn insert_lines_cells(
    cells: Seq<Seq<Cell>>,
    row: int,
    bottom: int,
    n: int,
    cols: int,
) -> Seq<Seq<Cell>> {
    Seq::new(
        cells.len(),
        |r: int|
            if row <= r <= bottom {
                if r < row + n {
                    blank_row(cols)
                } else {
                    cells[r - n]
                }
            } else {
                cells[r]
            },
    )
}

/// The screen with `n` lines deleted at `row`, lines below moving up within the region that
/// ends at `bottom` and blank lines coming in there.
pub open spec fn delete_lines_cells(
    cells: Seq<Seq<Cell>>,
    row: int,
    bottom: int,
    n: int,
    cols: int,
) -> Seq<Seq<Cell>> {
    Seq::new(
        cells.len(),
        |r: int|
            if row <= r <= bottom {
                if r + n <= bottom {
                    cells[r + n]
                } else {
                    blank_row(cols)
                }
            } else {
                cells[r]
            },
    )
}

/// The grid after erasing in the display (CSI J): 0 from the cursor to the end, 1 from the
/// start to the cursor, 2 or 3 everything.
pub open spec fn erase_display_model(m: GridModel, mode: u16) -> GridModel {
    if mode == 0 {
        GridModel {
            cells: Seq::new(
                m.rows as nat,
                |r: int|
                    if r == m.cursor_row {
                        erase_cells(m.cells[r], m.cursor_col, m.cols)
                    } else if r > m.cursor_row {
                        blank_row(m.cols)
                    } else {
                        m.cells[r]
                    },
            ),
            ..m
        }
    } else if mode == 1 {
        GridModel {
            cells: Seq::new(
                m.rows as nat,
                |r: int|
                    if r == m.cursor_row {
                        erase_cells(m.cells[r], 0, m.cursor_col + 1)
                    } else if r < m.cursor_row {
                        blank_row(m.cols)
                    } else {
                        m.cells[r]
                    },
            ),
            ..m
        }
    } else if mode == 2 || mode == 3 {
        GridModel { cells: blank_screen(m.rows, m.cols), ..m }
    } else {
        m
    }
}

/// The grid with the cursor's row replaced.
pub open spec fn with_cursor_row(m: GridModel, row: Seq<Cell>) -> GridModel {
    GridModel { cells: m.cells.update(m.cursor_row, row), ..m }
}

/// The grid after erasing in the cursor's line (CSI K): 0 from the cursor to the end, 1 from
/// the start to the cursor, 2 the whole line.
pub open spec fn erase_line_model(m: GridModel, mode: u16) -> GridModel {
    if mode == 0 {
        with_cursor_row(m, erase_cells(m.cells[m.cursor_row], m.cursor_col, m.cols))
    } else if mode == 1 {
        with_cursor_row(m, erase_cells(m.cells[m.cursor_row], 0, m.cursor_col + 1))
    } else if mode == 2 {
        with_cursor_row(m, blank_row(m.cols))
    } else {
        m
    }
}

/// The grid after inserting `n` lines at the cursor (CSI L); nothing happens below the region.
pub open spec fn insert_lines_model(m: GridModel, n: int) -> GridModel {
    if m.cursor_row <= m.scroll_bottom {
        GridModel {
            cells: insert_lines_cells(m.cells, m.cursor_row, m.scroll_bottom, n, m.cols),
            ..m
        }
    } else {
        m
    }
}

/// The grid after deleting `n` lines at the cursor (CSI M); nothing happens below the region.
pub open spec fn delete_lines_model(m: GridModel, n: int) -> GridModel {
    if m.cursor_row <= m.scroll_bottom {
        GridModel {
            cells: delete_lines_cells(m.cells, m.cursor_row, m.scroll_bottom, n, m.cols),
            ..m
        }
    } else {
        m
    }
}

/// The grid after scrolling its region up `n` times.
pub open spec fn scroll_up_times(m: GridModel, n: nat) -> GridModel
    decreases n,
{
    if n == 0 {
        m
    } else {
        scroll_up_times(scroll_up_model(m), (n - 1) as nat)
    }
}

/// The grid after scrolling its region down `n` times.
pub open spec fn scroll_down_times(m: GridModel, n: nat) -> GridModel
    decreases n,
{
    if n == 0 {
        m
    } else {
        scroll_down_times(scroll_down_model(m), (n - 1) as nat)
    }
}

/// The grid after switching to the alternate screen: the main screen and the cursor are saved,
/// the screen is blanked and the cursor goes home.
pub open spec fn enter_alt_screen_model(m: GridModel) -> GridModel {
    GridModel {
        saved_cells: Some(m.cells),
        saved_cursor: (m.cursor_row, m.cursor_col),
        cells: blank_screen(m.rows, m.cols),
        cursor_row: 0,
        cursor_col: 0,
        alt_screen: true,
        ..m
    }
}

/// A saved screen brought to `rows` x `cols`: its cells where it has them, blanks elsewhere.
pub open spec fn fitted_screen(saved: Seq<Seq<Cell>>, rows: int, cols: int) -> Seq<Seq<Cell>> {
    Seq::new(
        rows as nat,
        |r: int| Seq::new(cols as nat, |c: int| if r < saved.len() && c < saved[r].len() { saved[r][c] } else { blank_cell() }),
    )
}

/// A saved screen of the grid's own size comes back as it was.
pub proof fn lemma_fitted_screen_same_size(saved: Seq<Seq<Cell>>, rows: int, cols: int)
    requires
        rows >= 0,
        cols >= 0,
        saved.len() == rows,
        forall|r: int| 0 <= r < rows ==> (#[trigger] saved[r]).len() == cols,
    ensures
        fitted_screen(saved, rows, cols) == saved,
{
    assert forall|r: int| 0 <= r < rows implies fitted_screen(saved, rows, cols)[r] == saved[r] by {
        assert(fitted_screen(saved, rows, cols)[r] =~= saved[r]);
    }
    assert(fitted_screen(saved, rows, cols) =~= saved);
}

/// The grid after leaving the alternate screen: a saved screen and cursor come back, brought
/// to the grid's size where it was resized meanwhile (kept cells, blanks elsewhere, the cursor
/// kept on the screen).
pub open spec fn leave_alt_screen_model(m: GridModel) -> GridModel {
    match m.saved_cells {
        Some(saved) => GridModel {
            cells: fitted_screen(saved, m.rows, m.cols),
            cursor_row: lesser(m.saved_cursor.0, m.rows - 1),
            cursor_col: lesser(m.saved_cursor.1, m.cols),
            saved_cells: None,
            alt_screen: false,
            ..m
        },
        None => GridModel { alt_screen: false, ..m },
    }
}

/// Going to the alternate screen and back, with nothing in between, gives the main screen and
/// the cursor back as they were.
pub proof fn lemma_alt_screen_round_trip(m: GridModel)
    requires
        model_wf(m),
    ensures
        leave_alt_screen_model(enter_alt_screen_model(m)) == (GridModel {
            saved_cells: None,
            saved_cursor: (m.cursor_row, m.cursor_col),
            alt_screen: false,
            ..m
        }),
{
    lemma_fitted_screen_same_size(m.cells, m.rows, m.cols);
}

/// The control sequences on which the grid's handling is defined: erasing up to a cursor that
/// waits past the last column, a region whose default bottom is a row count that is a multiple
/// of 65536, and scrolling down from a region top below the screen are left out.
pub open spec fn csi_defined(m: GridModel, ps: Seq<Seq<u16>>, inter: Seq<u8>, action: char) -> bool {
    &&& ((action == 'J' || action == 'K') && csi_param(ps, 0, 0) == 1 ==> m.cursor_col < m.cols)
    &&& (action == 'r' ==> csi_param(ps, 1, m.rows as u16) != 0)
    &&& (action == 'T' ==> m.scroll_top < m.rows)
}

/// The grid after a control sequence with parameter groups `ps`, intermediates `inter` and
/// final character `action`.
pub open spec fn csi_model(m: GridModel, ps: Seq<Seq<u16>>, inter: Seq<u8>, action: char) -> GridModel {
    let n = csi_param(ps, 0, 1) as int;
    if action == 'A' {
        GridModel { cursor_row: sub_or_zero(m.cursor_row, n), ..m }
    } else if action == 'B' {
        GridModel { cursor_row: lesser(m.cursor_row + n, m.rows - 1), ..m }
    } else if action == 'C' {
        GridModel { cursor_col: lesser(m.cursor_col + n, m.cols - 1), ..m }
    } else if action == 'D' {
        GridModel { cursor_col: sub_or_zero(m.cursor_col, n), ..m }
    } else if action == 'E' {
        GridModel { cursor_row: lesser(m.cursor_row + n, m.rows - 1), cursor_col: 0, ..m }
    } else if action == 'F' {
        GridModel { cursor_row: sub_or_zero(m.cursor_row, n), cursor_col: 0, ..m }
    } else if action == 'G' {
        GridModel { cursor_col: lesser(n - 1, m.cols - 1), ..m }
    } else if action == 'H' || action == 'f' {
        GridModel {
            cursor_row: lesser(n - 1, m.rows - 1),
            cursor_col: lesser(csi_param(ps, 1, 1) - 1, m.cols - 1),
            ..m
        }
    } else if action == 'J' {
        erase_display_model(m, csi_param(ps, 0, 0))
    } else if action == 'K' {
        erase_line_model(m, csi_param(ps, 0, 0))
    } else if action == 'L' {
        insert_lines_model(m, n)
    } else if action == 'M' {
        delete_lines_model(m, n)
    } else if action == 'P' {
        with_cursor_row(
            m,
            delete_chars_row(m.cells[m.cursor_row], m.cursor_col, lesser(n, m.cols - m.cursor_col)),
        )
    } else if action == '@' {
        with_cursor_row(
            m,
            insert_chars_row(m.cells[m.cursor_row], m.cursor_col, lesser(n, m.cols - m.cursor_col)),
        )
    } else if action == 'X' {
        with_cursor_row(
            m,
            erase_cells(
                m.cells[m.cursor_row],
                m.cursor_col,
                m.cursor_col + lesser(n, m.cols - m.cursor_col),
            ),
        )
    } else if action == 'd' {
        GridModel { cursor_row: lesser(n - 1, m.rows - 1), ..m }
    } else if action == 'm' {
        sgr_model(m, ps)
    } else if action == 'r' {
        let bottom = csi_param(ps, 1, m.rows as u16) as int;
        GridModel {
            scroll_top: lesser(n - 1, m.rows - 1),
            scroll_bottom: lesser(bottom - 1, m.rows - 1),
            cursor_row: 0,
            cursor_col: 0,
            ..m
        }
    } else if action == 'h' {
        if is_private(inter) && csi_param(ps, 0, 0) == 25 {
            GridModel { cursor_visible: true, ..m }
        } else if is_private(inter) && csi_param(ps, 0, 0) == 1049 {
            enter_alt_screen_model(m)
        } else {
            m
        }
    } else if action == 'l' {
        if is_private(inter) && csi_param(ps, 0, 0) == 25 {
            GridModel { cursor_visible: false, ..m }
        } else if is_private(inter) && csi_param(ps, 0, 0) == 1049 {
            leave_alt_screen_model(m)
        } else {
            m
        }
    } else if action == 'S' {
        scroll_up_times(m, n as nat)
    } else if action == 'T' {
        scroll_down_times(m, n as nat)
    } else {
        m
    }
}

/// Scrolling keeps the screen's size, the scroll region and the saved screen.
proof fn lemma_scroll_times_keep(m: GridModel, n: nat)
    ensures
        scroll_up_times(m, n).rows == m.rows && scroll_up_times(m, n).cols == m.cols
            && scroll_up_times(m, n).scroll_top == m.scroll_top && scroll_up_times(m, n).saved_cells == m.saved_cells
            && scroll_up_times(m, n).saved_cursor == m.saved_cursor,
        scroll_down_times(m, n).rows == m.rows && scroll_down_times(m, n).cols == m.cols
            && scroll_down_times(m, n).scroll_top == m.scroll_top && scroll_down_times(m, n).saved_cells == m.saved_cells
            && scroll_down_times(m, n).saved_cursor == m.saved_cursor,
    decreases n,
{
    if n > 0 {
        lemma_scroll_times_keep(scroll_up_model(m), (n - 1) as nat);
        lemma_scroll_times_keep(scroll_down_model(m), (n - 1) as nat);
    }
}

/// A control sequence keeps the scroll region's top on the screen (setting the region puts it
/// there), and only switching to or from the alternate screen touches the saved screen: a
/// screen saved by `?1049h` comes back unchanged after any other control sequences.
pub proof fn lemma_csi_keeps_region_and_saved_screen(m: GridModel, ps: Seq<Seq<u16>>, inter: Seq<u8>, action: char)
    requires
        model_wf(m),
        m.scroll_top < m.rows,
    ensures
        csi_model(m, ps, inter, action).rows == m.rows,
        csi_model(m, ps, inter, action).cols == m.cols,
        csi_model(m, ps, inter, action).scroll_top < m.rows,
        !((action == 'h' || action == 'l') && is_private(inter) && csi_param(ps, 0, 0) == 1049)
            ==> csi_model(m, ps, inter, action).saved_cells == m.saved_cells,
{
    lemma_scroll_times_keep(m, csi_param(ps, 0, 1) as nat);
    if ps.len() > 0 {
        lemma_sgr_from_pen_only(m, ps, 0);
    }
}

/// Every control sequence but the switches to and from the alternate screen keeps the
/// screen's size, the saved screen and the saved cursor.
pub proof fn lemma_csi_keeps_saved(m: GridModel, ps: Seq<Seq<u16>>, inter: Seq<u8>, action: char)
    requires
        !((action == 'h' || action == 'l') && is_private(inter) && csi_param(ps, 0, 0) == 1049),
    ensures
        csi_model(m, ps, inter, action).rows == m.rows,
        csi_model(m, ps, inter, action).cols == m.cols,
        csi_model(m, ps, inter, action).saved_cells == m.saved_cells,
        csi_model(m, ps, inter, action).saved_cursor == m.saved_cursor,
{
    lemma_scroll_times_keep(m, csi_param(ps, 0, 1) as nat);
    if ps.len() > 0 {
        lemma_sgr_from_pen_only(m, ps, 0);
    }
}

/// One step of what a session feeds the grid: a printed character, a control byte, or a
/// control sequence with its parameter groups, intermediates and final character.
pub ghost enum GridStep {
    Print(char),
    Execute(u8),
    Csi(Seq<Seq<u16>>, Seq<u8>, char),
}

/// The grid after one step.
pub open spec fn step_model(m: GridModel, s: GridStep) -> GridModel {
    match s {
        GridStep::Print(c) => print_model(m, c),
        GridStep::Execute(b) => execute_model(m, b),
        GridStep::Csi(ps, inter, action) => csi_model(m, ps, inter, action),
    }
}

/// The grid after the steps, in order.
pub open spec fn steps_model(m: GridModel, steps: Seq<GridStep>) -> GridModel
    decreases steps.len(),
{
    if steps.len() == 0 {
        m
    } else {
        steps_model(step_model(m, steps[0]), steps.drop_first())
    }
}

/// Whether a step leaves the alternate screen alone: not a `?1049h` or `?1049l`.
pub open spec fn keeps_alt_screen(s: GridStep) -> bool {
    match s {
        GridStep::Csi(ps, inter, action) => !((action == 'h' || action == 'l') && is_private(inter) && csi_param(
            ps,
            0,
            0,
        ) == 1049),
        _ => true,
    }
}

proof fn lemma_steps_keep_saved(m: GridModel, steps: Seq<GridStep>)
    requires
        forall|i: int| 0 <= i < steps.len() ==> keeps_alt_screen(#[trigger] steps[i]),
    ensures
        steps_model(m, steps).rows == m.rows,
        steps_model(m, steps).cols == m.cols,
        steps_model(m, steps).saved_cells == m.saved_cells,
        steps_model(m, steps).saved_cursor == m.saved_cursor,
    decreases steps.len(),
{
    if steps.len() > 0 {
        let s = steps[0];
        assert(keeps_alt_screen(s));
        match s {
            GridStep::Print(c) => lemma_print_execute_esc_keep_saved_screen(m, c, 0),
            GridStep::Execute(b) => lemma_print_execute_esc_keep_saved_screen(m, ' ', b),
            GridStep::Csi(ps, inter, action) => lemma_csi_keeps_saved(m, ps, inter, action),
        }
        assert forall|i: int| 0 <= i < steps.drop_first().len() implies keeps_alt_screen(#[trigger] steps.drop_first()[i]) by {
            assert(steps.drop_first()[i] == steps[i + 1]);
        }
        lemma_steps_keep_saved(step_model(m, s), steps.drop_first());
    }
}

/// Going to the alternate screen (`?1049h`), then printing, control bytes and any control
/// sequences but another switch of screens, and coming back (`?1049l`), gives the main screen
/// and the cursor back as they were before.
pub proof fn lemma_alt_screen_survives_steps(m: GridModel, steps: Seq<GridStep>)
    requires
        model_wf(m),
        forall|i: int| 0 <= i < steps.len() ==> keeps_alt_screen(#[trigger] steps[i]),
    ensures
        leave_alt_screen_model(steps_model(enter_alt_screen_model(m), steps)).cells == m.cells,
        leave_alt_screen_model(steps_model(enter_alt_screen_model(m), steps)).cursor_row == m.cursor_row,
        leave_alt_screen_model(steps_model(enter_alt_screen_model(m), steps)).cursor_col == m.cursor_col,
{
    lemma_steps_keep_saved(enter_alt_screen_model(m), steps);
    lemma_fitted_screen_same_size(m.cells, m.rows, m.cols);
}

/// Numeric parameter `idx`, or `default` where it is missing or 0.
pub fn csi_param_value(ps: &Vec<Vec<u16>>, idx: usize, default: u16) -> (v: u16)
    ensures
        v == csi_param(params_view(ps@), idx as int, default),
{
    let v = param_value(ps, idx);
    if v != 0 {
        v
    } else {
        default
    }
}

/// A copy of `row` with the cells from `from` up to `to` blanked.
fn erased_row(row: &Vec<Cell>, from: usize, to: usize) -> (r: Vec<Cell>)
    ensures
        r@ == erase_cells(row@, from as int, to as int),
{
    let mut r: Vec<Cell> = Vec::new();
    let mut c: usize = 0;
    while c < row.len()
        invariant
            c <= row.len(),
            r@.len() == c,
            forall|q: int| 0 <= q < c ==> #[trigger] r@[q] == erase_cells(row@, from as int, to as int)[q],
        decreases row.len() - c,
    {
        if from <= c && c < to {
            r.push(Cell::default());
        } else {
            r.push(row[c]);
        }
        c += 1;
    }
    assert(r@ =~= erase_cells(row@, from as int, to as int));
    r
}

/// Deletes `n` cells at `col`, pulling the rest left and pushing blanks at the end, one cell at
/// a time.
fn delete_chars_in(row: &mut Vec<Cell>, col: usize, n: usize)
    requires
        col + n <= old(row)@.len(),
    ensures
        final(row)@ == delete_chars_row(old(row)@, col as int, n as int),
{
    let ghost o = row@;
    let mut j: usize = 0;
    while j < n
        invariant
            j <= n,
            col + n <= o.len(),
            row@ == delete_chars_row(o, col as int, j as int),
        decreases n - j,
    {
        if col < row.len() {
            let ghost before = row@;
            row.remove(col);
            row.push(Cell::default());
            assert(row@ =~= delete_chars_row(o, col as int, j + 1));
        }
        j += 1;
    }
}

/// Inserts `n` blanks at `col`, one at a time, cutting the row back to its length each time.
fn insert_chars_in(row: &mut Vec<Cell>, col: usize, n: usize, cols: usize)
    requires
        old(row)@.len() == cols,
        col + n <= cols,
    ensures
        final(row)@ == insert_chars_row(old(row)@, col as int, n as int),
{
    let ghost o = row@;
    let mut j: usize = 0;
    while j < n
        invariant
            j <= n,
            col + n <= cols,
            o.len() == cols,
            row@ == insert_chars_row(o, col as int, j as int),
        decreases n - j,
    {
        row.insert(col, Cell::default());
        row.truncate(cols);
        assert(row@ =~= insert_chars_row(o, col as int, j + 1));
        j += 1;
    }
}

/// Blanks the cells from `col` on for `n` cells.
fn erase_chars_in(row: &mut Vec<Cell>, col: usize, n: usize)
    requires
        col + n <= old(row)@.len(),
    ensures
        final(row)@ == erase_cells(old(row)@, col as int, col + n),
{
    let ghost o = row@;
    let mut i: usize = 0;
    while i < n
        invariant
            i <= n,
            col + n <= o.len(),
            row.len() == o.len(),
            row@ == erase_cells(o, col as int, col + i),
        decreases n - i,
    {
        row.set(col + i, Cell::default());
        assert(row@ =~= erase_cells(o, col as int, col + i + 1));
        i += 1;
    }
    assert(row@ =~= erase_cells(o, col as int, col + n));
}

/// Inserts `n` blank lines at `row` within the region ending at `bottom`, one at a time: the
/// region's last line leaves, a blank line comes in at `row`.
fn insert_lines_in(cells: &mut Vec<Vec<Cell>>, row: usize, bottom: usize, n: usize, cols: usize)
    requires
        row <= bottom < old(cells)@.len(),
    ensures
        final(cells)@.len() == old(cells)@.len(),
        rows_view(final(cells)@) == insert_lines_cells(
            rows_view(old(cells)@),
            row as int,
            bottom as int,
            n as int,
            cols as int,
        ),
{
    let ghost o = rows_view(cells@);
    let mut j: usize = 0;
    while j < n
        invariant
            j <= n,
            row <= bottom < o.len(),
            cells@.len() == o.len(),
            rows_view(cells@) == insert_lines_cells(o, row as int, bottom as int, j as int, cols as int),
        decreases n - j,
    {
        let ghost before = rows_view(cells@);
        cells.remove(bottom);
        let ghost removed = rows_view(cells@);
        assert(removed =~= before.remove(bottom as int));
        cells.insert(row, blank_row_vec(cols));
        assert(rows_view(cells@) =~= removed.insert(row as int, blank_row(cols as int)));
        assert(rows_view(cells@) =~= insert_lines_cells(o, row as int, bottom as int, j + 1, cols as int));
        j += 1;
    }
}

/// Deletes `n` lines at `row` within the region ending at `bottom`, one at a time: the line at
/// `row` leaves, a blank line comes in at `bottom`.
fn delete_lines_in(cells: &mut Vec<Vec<Cell>>, row: usize, bottom: usize, n: usize, cols: usize)
    requires
        row <= bottom < old(cells)@.len(),
    ensures
        final(cells)@.len() == old(cells)@.len(),
        rows_view(final(cells)@) == delete_lines_cells(
            rows_view(old(cells)@),
            row as int,
            bottom as int,
            n as int,
            cols as int,
        ),
{
    let ghost o = rows_view(cells@);
    let mut j: usize = 0;
    while j < n
        invariant
            j <= n,
            row <= bottom < o.len(),
            cells@.len() == o.len(),
            rows_view(cells@) == delete_lines_cells(o, row as int, bottom as int, j as int, cols as int),
        decreases n - j,
    {
        let ghost before = rows_view(cells@);
        cells.remove(row);
        let ghost removed = rows_view(cells@);
        assert(removed =~= before.remove(row as int));
        cells.insert(bottom, blank_row_vec(cols));
        assert(rows_view(cells@) =~= removed.insert(bottom as int, blank_row(cols as int)));
        assert(rows_view(cells@) =~= delete_lines_cells(o, row as int, bottom as int, j + 1, cols as int));
        j += 1;
    }
}

/// Blanks the rows from `from` up to `to`.
fn blank_rows(cells: &mut Vec<Vec<Cell>>, from: usize, to: usize, cols: usize)
    requires
        to <= old(cells)@.len(),
    ensures
        final(cells)@.len() == old(cells)@.len(),
        forall|k: int|
            0 <= k < old(cells)@.len() ==> (#[trigger] final(cells)@[k])@ == (if from <= k < to {
                blank_row(cols as int)
            } else {
                old(cells)@[k]@
            }),
{
    let ghost o = cells@;
    let mut r = from;
    while r < to
        invariant
            from <= r,
            r <= to || r == from,
            to <= o.len(),
            cells@.len() == o.len(),
            forall|k: int|
                0 <= k < o.len() ==> (#[trigger] cells@[k])@ == (if from <= k < r {
                    blank_row(cols as int)
                } else {
                    o[k]@
                }),
        decreases to - r,
    {
        cells.set(r, blank_row_vec(cols));
        r += 1;
    }
}

/// A saved screen brought to `rows` x `cols`.
fn fit_screen(saved: &Vec<Vec<Cell>>, rows: usize, cols: usize) -> (out: Vec<Vec<Cell>>)
    ensures
        out@.len() == rows,
        rows_view(out@) == fitted_screen(rows_view(saved@), rows as int, cols as int),
{
    let ghost sv = rows_view(saved@);
    let mut out: Vec<Vec<Cell>> = Vec::new();
    let mut r: usize = 0;
    while r < rows
        invariant
            r <= rows,
            sv == rows_view(saved@),
            out@.len() == r,
            forall|k: int| 0 <= k < r ==> (#[trigger] out@[k])@ == fitted_screen(sv, rows as int, cols as int)[k],
        decreases rows - r,
    {
        let mut row: Vec<Cell> = Vec::new();
        let mut c: usize = 0;
        while c < cols
            invariant
                c <= cols,
                r < rows,
                sv == rows_view(saved@),
                row@.len() == c,
                forall|q: int| 0 <= q < c ==> #[trigger] row@[q] == (if r < sv.len() && q < sv[r as int].len() { sv[r as int][q] } else { blank_cell() }),
            decreases cols - c,
        {
            if r < saved.len() && c < saved[r].len() {
                assert(saved@[r as int]@ == sv[r as int]);
                row.push(saved[r][c]);
            } else {
                if r < saved.len() {
                    assert(saved@[r as int]@ == sv[r as int]);
                }
                row.push(Cell::default());
            }
            c += 1;
        }
        assert(row@ =~= fitted_screen(sv, rows as int, cols as int)[r as int]);
        out.push(row);
        r += 1;
    }
    assert(rows_view(out@) =~= fitted_screen(sv, rows as int, cols as int));
    out
}

impl TerminalGrid {
    /// Erases in the display (CSI J).
    fn erase_display(&mut self, mode: u16)
        requires
            old(self).wf(),
            mode == 1 ==> old(self).cursor_col < old(self).cols,
        ensures
            final(self).wf(),
            final(self).model() == erase_display_model(old(self).model(), mode),
    {
        let ghost m = self.model();
        let row = self.cursor_row;
        if mode == 0 {
            let erased = erased_row(&self.cells[row], self.cursor_col, self.cols);
            self.cells.set(row, erased);
            blank_rows(&mut self.cells, row + 1, self.rows, self.cols);
            assert(rows_view(self.cells@) =~= erase_display_model(m, mode).cells);
        } else if mode == 1 {
            blank_rows(&mut self.cells, 0, row, self.cols);
            let erased = erased_row(&self.cells[row], 0, self.cursor_col + 1);
            self.cells.set(row, erased);
            assert(rows_view(self.cells@) =~= erase_display_model(m, mode).cells);
        } else if mode == 2 || mode == 3 {
            blank_rows(&mut self.cells, 0, self.rows, self.cols);
            assert(rows_view(self.cells@) =~= erase_display_model(m, mode).cells);
        }
    }

    /// Erases in the cursor's line (CSI K).
    fn erase_line(&mut self, mode: u16)
        requires
            old(self).wf(),
            mode == 1 ==> old(self).cursor_col < old(self).cols,
        ensures
            final(self).wf(),
            final(self).model() == erase_line_model(old(self).model(), mode),
    {
        let ghost m = self.model();
        let row = self.cursor_row;
        if mode == 0 {
            let erased = erased_row(&self.cells[row], self.cursor_col, self.cols);
            self.cells.set(row, erased);
            assert(rows_view(self.cells@) =~= erase_line_model(m, mode).cells);
        } else if mode == 1 {
            let erased = erased_row(&self.cells[row], 0, self.cursor_col + 1);
            self.cells.set(row, erased);
            assert(rows_view(self.cells@) =~= erase_line_model(m, mode).cells);
        } else if mode == 2 {
            self.cells.set(row, blank_row_vec(self.cols));
            assert(rows_view(self.cells@) =~= erase_line_model(m, mode).cells);
        }
    }

    /// Inserts `n` blank lines at the cursor (CSI L).
    fn insert_lines(&mut self, n: usize)
        requires
            old(self).wf(),
        ensures
            final(self).wf(),
            final(self).model() == insert_lines_model(old(self).model(), n as int),
    {
        if self.cursor_row <= self.scroll_bottom {
            insert_lines_in(&mut self.cells, self.cursor_row, self.scroll_bottom, n, self.cols);
        }
    }

    /// Deletes `n` lines at the cursor (CSI M).
    fn delete_lines(&mut self, n: usize)
        requires
            old(self).wf(),
        ensures
            final(self).wf(),
            final(self).model() == delete_lines_model(old(self).model(), n as int),
    {
        if self.cursor_row <= self.scroll_bottom {
            delete_lines_in(&mut self.cells, self.cursor_row, self.scroll_bottom, n, self.cols);
        }
    }

    /// How many cells of the cursor's line from the cursor on an edit of `n` cells reaches.
    fn cells_from_cursor(&self, n: usize) -> (k: usize)
        requires
            self.wf(),
        ensures
            k == lesser(n as int, self.cols - self.cursor_col),
    {
        let room = self.cols - self.cursor_col;
        if n < room {
            n
        } else {
            room
        }
    }

    /// Edits the cursor's line (CSI P, @ and X): deletes, inserts or blanks `n` cells at the
    /// cursor, as far as the line reaches.
    fn edit_chars(&mut self, action: char, n: usize)
        requires
            old(self).wf(),
            action == 'P' || action == '@' || action == 'X',
        ensures
            final(self).wf(),
            final(self).model() == (if action == 'P' {
                with_cursor_row(
                    old(self).model(),
                    delete_chars_row(
                        old(self).model().cells[old(self).cursor_row as int],
                        old(self).cursor_col as int,
                        lesser(n as int, old(self).cols - old(self).cursor_col),
                    ),
                )
            } else if action == '@' {
                with_cursor_row(
                    old(self).model(),
                    insert_chars_row(
                        old(self).model().cells[old(self).cursor_row as int],
                        old(self).cursor_col as int,
                        lesser(n as int, old(self).cols - old(self).cursor_col),
                    ),
                )
            } else {
                with_cursor_row(
                    old(self).model(),
                    erase_cells(
                        old(self).model().cells[old(self).cursor_row as int],
                        old(self).cursor_col as int,
                        old(self).cursor_col + lesser(n as int, old(self).cols - old(self).cursor_col),
                    ),
                )
            }),
    {
        let ghost m = self.model();
        let k = self.cells_from_cursor(n);
        let row = self.cursor_row;
        let col = self.cursor_col;
        let cols = self.cols;
        assert(self.cells@[row as int]@ == m.cells[row as int]);
        if action == 'P' {
            delete_chars_in(&mut self.cells[row], col, k);
        } else if action == '@' {
            insert_chars_in(&mut self.cells[row], col, k, cols);
        } else {
            erase_chars_in(&mut self.cells[row], col, k);
        }
        assert(rows_view(self.cells@) =~= with_cursor_row(m, self.cells@[row as int]@).cells);
    }

    /// Sets the scroll region (CSI r) from 1-based `top` and `bottom`, clamped to the screen,
    /// and sends the cursor home.
    fn set_scroll_region(&mut self, top: usize, bottom: usize)
        requires
            old(self).wf(),
            top >= 1,
            bottom >= 1,
        ensures
            final(self).wf(),
            final(self).model() == (GridModel {
                scroll_top: lesser(top - 1, old(self).rows - 1),
                scroll_bottom: lesser(bottom - 1, old(self).rows - 1),
                cursor_row: 0,
                cursor_col: 0,
                ..old(self).model()
            }),
    {
        let last = self.rows - 1;
        self.scroll_top = if top - 1 < last {
            top - 1
        } else {
            last
        };
        self.scroll_bottom = if bottom - 1 < last {
            bottom - 1
        } else {
            last
        };
        self.cursor_row = 0;
        self.cursor_col = 0;
    }

    /// Switches to the alternate screen, saving the main screen and the cursor.
    fn enter_alt_screen(&mut self)
        requires
            old(self).wf(),
        ensures
            final(self).wf(),
            final(self).model() == enter_alt_screen_model(old(self).model()),
    {
        let saved = copy_screen(&self.cells);
        self.saved_cells = Some(saved);
        self.saved_cursor = (self.cursor_row, self.cursor_col);
        self.cells = blank_screen_vec(self.rows, self.cols);
        self.cursor_row = 0;
        self.cursor_col = 0;
        self.alt_screen = true;
    }

    /// Leaves the alternate screen, bringing back a saved screen and cursor, fitted to the
    /// grid's size.
    fn leave_alt_screen(&mut self)
        requires
            old(self).wf(),
        ensures
            final(self).wf(),
            final(self).model() == leave_alt_screen_model(old(self).model()),
    {
        let ghost m = self.model();
        let saved = self.saved_cells.take();
        match saved {
            Some(s) => {
                let fitted = fit_screen(&s, self.rows, self.cols);
                self.cells = fitted;
                self.cursor_row = if self.saved_cursor.0 < self.rows - 1 {
                    self.saved_cursor.0
                } else {
                    self.rows - 1
                };
                self.cursor_col = if self.saved_cursor.1 < self.cols {
                    self.saved_cursor.1
                } else {
                    self.cols
                };
            },
            None => {},
        }
        self.alt_screen = false;
    }

    /// Scrolls the region up `n` times (CSI S).
    fn scroll_up_lines(&mut self, n: usize)
        requires
            old(self).wf(),
        ensures
            final(self).wf(),
            final(self).model() == scroll_up_times(old(self).model(), n as nat),
    {
        let ghost m0 = self.model();
        let mut i: usize = 0;
        while i < n
            invariant
                i <= n,
                self.wf(),
                scroll_up_times(m0, n as nat) == scroll_up_times(self.model(), (n - i) as nat),
            decreases n - i,
        {
            self.scroll_up();
            i += 1;
        }
    }

    /// Scrolls the region down `n` times (CSI T).
    fn scroll_down_lines(&mut self, n: usize)
        requires
            old(self).wf(),
            old(self).scroll_top < old(self).rows,
        ensures
            final(self).wf(),
            final(self).model() == scroll_down_times(old(self).model(), n as nat),
    {
        let ghost m0 = self.model();
        let mut i: usize = 0;
        while i < n
            invariant
                i <= n,
                self.wf(),
                self.scroll_top < self.rows,
                scroll_down_times(m0, n as nat) == scroll_down_times(self.model(), (n - i) as nat),
            decreases n - i,
        {
            self.scroll_down();
            i += 1;
        }
    }

    /// Acts on a control sequence: cursor movement, erasing, line and character editing,
    /// graphic rendition, the scroll region, cursor visibility, the alternate screen and
    /// scrolling. Other sequences leave the grid as it is.
    pub fn csi_dispatch(&mut self, params: &Vec<Vec<u16>>, intermediates: &[u8], ignore: bool, action: char)
        requires
            old(self).wf(),
            csi_defined(old(self).model(), params_view(params@), intermediates@, action),
        ensures
            final(self).wf(),
            final(self).model() == csi_model(old(self).model(), params_view(params@), intermediates@, action),
    {
        let ghost ps = params_view(params@);
        let n = csi_param_value(params, 0, 1) as usize;
        let private = intermediates.len() > 0 && intermediates[0] == 0x3F;
        let last_row = self.rows - 1;
        let last_col = self.cols - 1;
        if action == 'A' {
            self.cursor_row = if self.cursor_row > n {
                self.cursor_row - n
            } else {
                0
            };
        } else if action == 'B' || action == 'E' {
            self.cursor_row = if n >= last_row - self.cursor_row {
                last_row
            } else {
                self.cursor_row + n
            };
            if action == 'E' {
                self.cursor_col = 0;
            }
        } else if action == 'C' {
            self.cursor_col = if self.cursor_col >= last_col || n >= last_col - self.cursor_col {
                last_col
            } else {
                self.cursor_col + n
            };
        } else if action == 'D' {
            self.cursor_col = if self.cursor_col > n {
                self.cursor_col - n
            } else {
                0
            };
        } else if action == 'F' {
            self.cursor_row = if self.cursor_row > n {
                self.cursor_row - n
            } else {
                0
            };
            self.cursor_col = 0;
        } else if action == 'G' {
            self.cursor_col = if n - 1 < last_col {
                n - 1
            } else {
                last_col
            };
        } else if action == 'H' || action == 'f' {
            let col = csi_param_value(params, 1, 1) as usize;
            self.cursor_row = if n - 1 < last_row {
                n - 1
            } else {
                last_row
            };
            self.cursor_col = if col - 1 < last_col {
                col - 1
            } else {
                last_col
            };
        } else if action == 'J' {
            self.erase_display(csi_param_value(params, 0, 0));
        } else if action == 'K' {
            self.erase_line(csi_param_value(params, 0, 0));
        } else if action == 'L' {
            self.insert_lines(n);
        } else if action == 'M' {
            self.delete_lines(n);
        } else if action == 'P' || action == '@' || action == 'X' {
            self.edit_chars(action, n);
        } else if action == 'd' {
            self.cursor_row = if n - 1 < last_row {
                n - 1
            } else {
                last_row
            };
        } else if action == 'm' {
            self.handle_sgr(params);
        } else if action == 'r' {
            let default_bottom = #[verifier::truncate] (self.rows as u16);
            let bottom = csi_param_value(params, 1, default_bottom) as usize;
            self.set_scroll_region(n, bottom);
        } else if action == 'h' {
            let mode = csi_param_value(params, 0, 0);
            if private && mode == 25 {
                self.cursor_visible = true;
            } else if private && mode == 1049 {
                self.enter_alt_screen();
            }
        } else if action == 'l' {
            let mode = csi_param_value(params, 0, 0);
            if private && mode == 25 {
                self.cursor_visible = false;
            } else if private && mode == 1049 {
                self.leave_alt_screen();
            }
        } else if action == 'S' {
            self.scroll_up_lines(n);
        } else if action == 'T' {
            self.scroll_down_lines(n);
        }
    }
}

} // verus!
