use vstd::prelude::*;

use crate::terminal::{rows_view, Cell, TerminalGrid};

verus! {

/// The two ends of a selection, the one that comes first (by row, then column) first.
pub open spec fn spec_ordered_selection(a: (usize, usize), b: (usize, usize)) -> ((usize, usize), (usize, usize)) {
    if a.0 < b.0 || (a.0 == b.0 && a.1 <= b.1) {
        (a, b)
    } else {
        (b, a)
    }
}

pub fn ordered_selection(a: (usize, usize), b: (usize, usize)) -> (r: ((usize, usize), (usize, usize)))
    ensures
        r == spec_ordered_selection(a, b),
{
    if a.0 < b.0 || (a.0 == b.0 && a.1 <= b.1) {
        (a, b)
    } else {
        (b, a)
    }
}

/// Dragging a selection either way selects the same text: the copied text does not depend on
/// which end the drag started at.
pub proof fn lemma_selection_direction_irrelevant(
    cells: Seq<Seq<Cell>>,
    rows: int,
    cols: int,
    a: (usize, usize),
    b: (usize, usize),
    visible_cols: int,
    visible_rows: int,
)
    ensures
        spec_selection_text(cells, rows, cols, Some(a), Some(b), visible_cols, visible_rows)
            == spec_selection_text(cells, rows, cols, Some(b), Some(a), visible_cols, visible_rows),
{
    assert(spec_ordered_selection(a, b) == spec_ordered_selection(b, a));
}

pub open spec fn min_int(a: int, b: int) -> int {
    if a < b {
        a
    } else {
        b
    }
}

/// `a - 1`, or 0 for 0.
pub open spec fn last_index(a: int) -> int {
    if a > 0 {
        a - 1
    } else {
        0
    }
}

/// The character a cell shows in copied text: NUL as a space.
pub open spec fn shown(c: char) -> char {
    if c == '\0' {
        ' '
    } else {
        c
    }
}

/// `s` without its trailing spaces.
pub open spec fn trim_spaces_end(s: Seq<char>) -> Seq<char>
    decreases s.len(),
{
    if s.len() > 0 && s.last() == ' ' {
        trim_spaces_end(s.drop_last())
    } else {
        s
    }
}

/// Trimming leaves no space at the end.
proof fn lemma_trim_spaces_end_no_trailing(s: Seq<char>)
    ensures
        trim_spaces_end(s).len() == 0 || trim_spaces_end(s).last() != ' ',
    decreases s.len(),
{
    if s.len() > 0 && s.last() == ' ' {
        lemma_trim_spaces_end_no_trailing(s.drop_last());
    }
}

/// Every line that a selection copies ends without a space: trailing blanks of a row are not
/// copied.
pub proof fn lemma_selected_line_no_trailing_space(
    cells: Seq<Seq<Cell>>,
    row: int,
    start: (usize, usize),
    end: (usize, usize),
    end_row: int,
    vis_end: int,
)
    ensures
        selected_line(cells, row, start, end, end_row, vis_end) matches Some(line) ==> line.len() == 0 || line.last() != ' ',
{
    let rc = cells[row];
    if rc.len() > 0 {
        let raw_start = if row == start.0 { start.1 as int } else { 0 };
        let raw_end = if row == end_row { end.1 as int } else { vis_end };
        let a = min_int(raw_start, rc.len() - 1);
        let b = min_int(raw_end, rc.len() - 1);
        lemma_trim_spaces_end_no_trailing(Seq::new((b - a + 1) as nat, |i: int| shown(rc[a + i].c)));
    }
}

/// The text that row `row` of a selection contributes: from the selection's start column on
/// its first row (column 0 on others) to its end column on its last row (`vis_end` on others),
/// both clamped to the row; none for an empty row or where the start passes the end.
pub open spec fn selected_line(
    cells: Seq<Seq<Cell>>,
    row: int,
    start: (usize, usize),
    end: (usize, usize),
    end_row: int,
    vis_end: int,
) -> Option<Seq<char>> {
    let rc = cells[row];
    if rc.len() == 0 {
        None
    } else {
        let raw_start = if row == start.0 {
            start.1 as int
        } else {
            0
        };
        let raw_end = if row == end_row {
            end.1 as int
        } else {
            vis_end
        };
        let a = min_int(raw_start, rc.len() - 1);
        let b = min_int(raw_end, rc.len() - 1);
        if a > b {
            None
        } else {
            Some(trim_spaces_end(Seq::new((b - a + 1) as nat, |i: int| shown(rc[a + i].c))))
        }
    }
}

/// The text of the selection's rows before `r`, lines joined by newlines; a line comes after
/// a newline only once some text was taken.
pub open spec fn selected_text_until(
    cells: Seq<Seq<Cell>>,
    start: (usize, usize),
    end: (usize, usize),
    end_row: int,
    vis_end: int,
    r: int,
) -> Seq<char>
    decreases r - start.0,
{
    if r <= start.0 {
        Seq::empty()
    } else {
        let prev = selected_text_until(cells, start, end, end_row, vis_end, r - 1);
        match selected_line(cells, r - 1, start, end, end_row, vis_end) {
            None => prev,
            Some(l) => if prev.len() == 0 {
                l
            } else {
                prev + seq!['\n'] + l
            },
        }
    }
}

/// The text of a selection of the grid (rows `rows`, columns `cols`, screen `cells`) as seen in
/// a view of `visible_cols` x `visible_rows`: none without both ends, when it starts below the
/// last visible row, when a row is missing, or when no text is selected.
pub open spec fn spec_selection_text(
    cells: Seq<Seq<Cell>>,
    rows: int,
    cols: int,
    sel_start: Option<(usize, usize)>,
    sel_end: Option<(usize, usize)>,
    visible_cols: int,
    visible_rows: int,
) -> Option<Seq<char>> {
    match (sel_start, sel_end) {
        (Some(a), Some(b)) => {
            let (start, end) = spec_ordered_selection(a, b);
            let max_row = last_index(min_int(visible_rows, rows));
            if start.0 > max_row {
                None
            } else {
                let end_row = min_int(end.0 as int, max_row);
                if end_row >= cells.len() {
                    None
                } else {
                    let t = selected_text_until(
                        cells,
                        start,
                        end,
                        end_row,
                        last_index(min_int(visible_cols, cols)),
                        end_row + 1,
                    );
                    if t.len() == 0 {
                        None
                    } else {
                        Some(t)
                    }
                }
            }
        },
        _ => None,
    }
}

proof fn lemma_selected_text_until_no_trailing_space(
    cells: Seq<Seq<Cell>>,
    start: (usize, usize),
    end: (usize, usize),
    end_row: int,
    vis_end: int,
    r: int,
)
    ensures
        selected_text_until(cells, start, end, end_row, vis_end, r).len() == 0
            || selected_text_until(cells, start, end, end_row, vis_end, r).last() != ' ',
    decreases r - start.0,
{
    if r > start.0 {
        lemma_selected_text_until_no_trailing_space(cells, start, end, end_row, vis_end, r - 1);
        lemma_selected_line_no_trailing_space(cells, r - 1, start, end, end_row, vis_end);
        let prev = selected_text_until(cells, start, end, end_row, vis_end, r - 1);
        match selected_line(cells, r - 1, start, end, end_row, vis_end) {
            None => {},
            Some(l) => {
                if prev.len() > 0 {
                    let t = prev + seq!['\n'] + l;
                    if l.len() > 0 {
                        assert(t.last() == l.last());
                    } else {
                        assert(t.last() == '\n');
                    }
                }
            },
        }
    }
}

/// What a selection copies: nothing without both ends or when it starts below the last visible
/// row; otherwise, when anything, a non-empty text, the selected lines joined by newlines,
/// that does not end with a space (the trailing blanks of each row are left out).
pub proof fn lemma_selection_text_shape(
    cells: Seq<Seq<Cell>>,
    rows: int,
    cols: int,
    sel_start: Option<(usize, usize)>,
    sel_end: Option<(usize, usize)>,
    visible_cols: int,
    visible_rows: int,
)
    ensures
        (sel_start is None || sel_end is None) ==> spec_selection_text(cells, rows, cols, sel_start, sel_end, visible_cols, visible_rows) is None,
        (sel_start matches Some(a) && sel_end matches Some(b) && spec_ordered_selection(a, b).0.0 > last_index(min_int(visible_rows, rows)))
            ==> spec_selection_text(cells, rows, cols, sel_start, sel_end, visible_cols, visible_rows) is None,
        spec_selection_text(cells, rows, cols, sel_start, sel_end, visible_cols, visible_rows) matches Some(t)
            ==> t.len() > 0 && t.last() != ' ',
{
    match (sel_start, sel_end) {
        (Some(a), Some(b)) => {
            let (start, end) = spec_ordered_selection(a, b);
            let max_row = last_index(min_int(visible_rows, rows));
            let end_row = min_int(end.0 as int, max_row);
            lemma_selected_text_until_no_trailing_space(
                cells,
                start,
                end,
                end_row,
                last_index(min_int(visible_cols, cols)),
                end_row + 1,
            );
        },
        _ => {},
    }
}

fn lesser(a: usize, b: usize) -> (r: usize)
    ensures
        r == min_int(a as int, b as int),
{
    if a < b {
        a
    } else {
        b
    }
}

fn minus_one(a: usize) -> (r: usize)
    ensures
        r == last_index(a as int),
{
    if a > 0 {
        a - 1
    } else {
        0
    }
}

/// The characters of cells `a ..= b` of a row, trailing spaces dropped.
fn line_chars(rc: &Vec<Cell>, a: usize, b: usize) -> (line: Vec<char>)
    requires
        a <= b < rc@.len(),
    ensures
        line@ == trim_spaces_end(Seq::new((b - a + 1) as nat, |i: int| shown(rc@[a + i].c))),
{
    let ghost full = Seq::new((b - a + 1) as nat, |i: int| shown(rc@[a + i].c));
    let mut line: Vec<char> = Vec::new();
    let mut k: usize = a;
    while k <= b
        invariant
            a <= k <= b + 1,
            b < rc.len(),
            full == Seq::new((b - a + 1) as nat, |i: int| shown(rc@[a + i].c)),
            line@ == full.take(k - a),
        decreases b + 1 - k,
    {
        let c = rc[k].c;
        line.push(if c == '\0' {
            ' '
        } else {
            c
        });
        assert(full.take(k + 1 - a) == full.take(k - a).push(full[k - a]));
        k += 1;
    }
    assert(full.take(b + 1 - a) == full);
    while line.len() > 0 && line[line.len() - 1] == ' '
        invariant
            trim_spaces_end(line@) == trim_spaces_end(full),
        decreases line.len(),
    {
        line.pop();
    }
    line
}

/// The text of the current selection, as copied to the clipboard.
pub fn selection_text(
    grid: &TerminalGrid,
    selection_start: Option<(usize, usize)>,
    selection_end: Option<(usize, usize)>,
    visible_cols: usize,
    visible_rows: usize,
) -> (r: Option<String>)
    ensures
        match r {
            Some(s) => spec_selection_text(
                rows_view(grid.cells@),
                grid.rows as int,
                grid.cols as int,
                selection_start,
                selection_end,
                visible_cols as int,
                visible_rows as int,
            ) == Some(s@),
            None => spec_selection_text(
                rows_view(grid.cells@),
                grid.rows as int,
                grid.cols as int,
                selection_start,
                selection_end,
                visible_cols as int,
                visible_rows as int,
            ) is None,
        },
{
    let (a, b) = match (selection_start, selection_end) {
        (Some(a), Some(b)) => (a, b),
        _ => {
            return None;
        },
    };
    let (start, end) = ordered_selection(a, b);
    let max_row = minus_one(lesser(visible_rows, grid.rows));
    if start.0 > max_row {
        return None;
    }
    let end_row = lesser(end.0, max_row);
    if end_row >= grid.cells.len() {
        return None;
    }
    let vis_end = minus_one(lesser(visible_cols, grid.cols));
    let ghost cells = rows_view(grid.cells@);
    let mut out: Vec<char> = Vec::new();
    let mut row = start.0;
    while row <= end_row
        invariant
            start.0 <= row <= end_row + 1,
            end_row < grid.cells.len(),
            cells == rows_view(grid.cells@),
            out@ == selected_text_until(cells, start, end, end_row as int, vis_end as int, row as int),
        decreases end_row + 1 - row,
    {
        let rc = &grid.cells[row];
        assert(rc@ == cells[row as int]);
        if rc.len() > 0 {
            let raw_start = if row == start.0 {
                start.1
            } else {
                0
            };
            let raw_end = if row == end_row {
                end.1
            } else {
                vis_end
            };
            let max_col = rc.len() - 1;
            let ra = lesser(raw_start, max_col);
            let rb = lesser(raw_end, max_col);
            if ra <= rb {
                let line = line_chars(rc, ra, rb);
                if out.len() > 0 {
                    out.push('\n');
                }
                let mut k: usize = 0;
                let ghost before = out@;
                while k < line.len()
                    invariant
                        k <= line.len(),
                        out@ == before + line@.take(k as int),
                    decreases line.len() - k,
                {
                    out.push(line[k]);
                    assert(line@.take(k + 1) == line@.take(k as int).push(line@[k as int]));
                    k += 1;
                }
                assert(line@.take(line@.len() as int) == line@);
            }
        }
        row += 1;
    }
    if out.len() == 0 {
        None
    } else {
        let mut s = String::new();
        let mut k: usize = 0;
        while k < out.len()
            invariant
                k <= out.len(),
                s@ == out@.take(k as int),
            decreases out.len() - k,
        {
            s.push(out[k]);
            assert(out@.take(k + 1) == out@.take(k as int).push(out@[k as int]));
            k += 1;
        }
        assert(out@.take(out@.len() as int) == out@);
        Some(s)
    }
}

/// A key of the keyboard as the terminal view tells keys apart.
#[derive(Debug, Clone, Copy, PartialEq, Eq, Structural)]
pub enum TermKey {
    Enter,
    Backspace,
    Tab,
    Escape,
    ArrowUp,
    ArrowDown,
    ArrowRight,
    ArrowLeft,
    Home,
    End,
    PageUp,
    PageDown,
    Delete,
    Insert,
    /// A function key, 1 to 12.
    F(u8),
    /// A letter key, by its capital.
    Letter(char),
    Other,
}

/// The control byte that Ctrl with a letter key sends: the letters A to F, K, L, N, P, R, T,
/// U, W and Z, as their position in the alphabet.
pub open spec fn spec_ctrl_byte(key: TermKey) -> Option<u8> {
    match key {
        TermKey::Letter(c) => if c == 'A' || c == 'B' || c == 'C' || c == 'D' || c == 'E' || c == 'F' || c == 'K' || c == 'L'
            || c == 'N' || c == 'P' || c == 'R' || c == 'T' || c == 'U' || c == 'W' || c == 'Z' {
            Some((c as u32 - 0x40) as u8)
        } else {
            None
        },
        _ => None,
    }
}

/// The control byte that Ctrl with `key` sends, if any.
pub fn ctrl_key_byte(key: TermKey) -> (b: Option<u8>)
    ensures
        b == spec_ctrl_byte(key),
{
    match key {
        TermKey::Letter(c) => {
            if c == 'A' || c == 'B' || c == 'C' || c == 'D' || c == 'E' || c == 'F' || c == 'K' || c == 'L'
                || c == 'N' || c == 'P' || c == 'R' || c == 'T' || c == 'U' || c == 'W' || c == 'Z' {
                Some((c as u32 - 0x40) as u8)
            } else {
                None
            }
        },
        _ => None,
    }
}

/// What Ctrl with an arrow key or Delete sends: a word move left or right, or deleting the
/// word after the cursor.
pub open spec fn spec_ctrl_sequence(key: TermKey) -> Option<Seq<u8>> {
    match key {
        TermKey::ArrowLeft => Some(seq![0x1bu8, 0x5b, 0x31, 0x3b, 0x35, 0x44]),
        TermKey::ArrowRight => Some(seq![0x1bu8, 0x5b, 0x31, 0x3b, 0x35, 0x43]),
        TermKey::Delete => Some(seq![0x1bu8, 0x64]),
        _ => None,
    }
}

pub fn ctrl_key_sequence(key: TermKey) -> (r: Option<Vec<u8>>)
    ensures
        match spec_ctrl_sequence(key) {
            Some(s) => r matches Some(v) && v@ == s,
            None => r is None,
        },
{
    match key {
        TermKey::ArrowLeft => Some(vec![0x1bu8, 0x5b, 0x31, 0x3b, 0x35, 0x44]),
        TermKey::ArrowRight => Some(vec![0x1bu8, 0x5b, 0x31, 0x3b, 0x35, 0x43]),
        TermKey::Delete => Some(vec![0x1bu8, 0x64]),
        _ => None,
    }
}

/// What a key without Ctrl sends (xterm sequences): Enter a carriage return, Backspace DEL,
/// Tab, Escape, the cursor and editing keys as CSI sequences, F1 to F4 as SS3 sequences and
/// F5 to F12 as CSI numbers; other keys nothing.
pub open spec fn spec_key_sequence(key: TermKey) -> Option<Seq<u8>> {
    match key {
        TermKey::Enter => Some(seq![0x0du8]),
        TermKey::Backspace => Some(seq![0x7fu8]),
        TermKey::Tab => Some(seq![0x09u8]),
        TermKey::Escape => Some(seq![0x1bu8]),
        TermKey::ArrowUp => Some(seq![0x1bu8, 0x5b, 0x41]),
        TermKey::ArrowDown => Some(seq![0x1bu8, 0x5b, 0x42]),
        TermKey::ArrowRight => Some(seq![0x1bu8, 0x5b, 0x43]),
        TermKey::ArrowLeft => Some(seq![0x1bu8, 0x5b, 0x44]),
        TermKey::Home => Some(seq![0x1bu8, 0x5b, 0x48]),
        TermKey::End => Some(seq![0x1bu8, 0x5b, 0x46]),
        TermKey::PageUp => Some(seq![0x1bu8, 0x5b, 0x35, 0x7e]),
        TermKey::PageDown => Some(seq![0x1bu8, 0x5b, 0x36, 0x7e]),
        TermKey::Delete => Some(seq![0x1bu8, 0x5b, 0x33, 0x7e]),
        TermKey::Insert => Some(seq![0x1bu8, 0x5b, 0x32, 0x7e]),
        TermKey::F(n) => if n == 1 {
            Some(seq![0x1bu8, 0x4f, 0x50])
        } else if n == 2 {
            Some(seq![0x1bu8, 0x4f, 0x51])
        } else if n == 3 {
            Some(seq![0x1bu8, 0x4f, 0x52])
        } else if n == 4 {
            Some(seq![0x1bu8, 0x4f, 0x53])
        } else if n == 5 {
            Some(seq![0x1bu8, 0x5b, 0x31, 0x35, 0x7e])
        } else if n == 6 {
            Some(seq![0x1bu8, 0x5b, 0x31, 0x37, 0x7e])
        } else if n == 7 {
            Some(seq![0x1bu8, 0x5b, 0x31, 0x38, 0x7e])
        } else if n == 8 {
            Some(seq![0x1bu8, 0x5b, 0x31, 0x39, 0x7e])
        } else if n == 9 {
            Some(seq![0x1bu8, 0x5b, 0x32, 0x30, 0x7e])
        } else if n == 10 {
            Some(seq![0x1bu8, 0x5b, 0x32, 0x31, 0x7e])
        } else if n == 11 {
            Some(seq![0x1bu8, 0x5b, 0x32, 0x33, 0x7e])
        } else if n == 12 {
            Some(seq![0x1bu8, 0x5b, 0x32, 0x34, 0x7e])
        } else {
            None
        },
        _ => None,
    }
}

pub fn key_sequence(key: TermKey) -> (r: Option<Vec<u8>>)
    ensures
        match spec_key_sequence(key) {
            Some(s) => r matches Some(v) && v@ == s,
            None => r is None,
        },
{
    match key {
        TermKey::Enter => Some(vec![0x0du8]),
        TermKey::Backspace => Some(vec![0x7fu8]),
        TermKey::Tab => Some(vec![0x09u8]),
        TermKey::Escape => Some(vec![0x1bu8]),
        TermKey::ArrowUp => Some(vec![0x1bu8, 0x5b, 0x41]),
        TermKey::ArrowDown => Some(vec![0x1bu8, 0x5b, 0x42]),
        TermKey::ArrowRight => Some(vec![0x1bu8, 0x5b, 0x43]),
        TermKey::ArrowLeft => Some(vec![0x1bu8, 0x5b, 0x44]),
        TermKey::Home => Some(vec![0x1bu8, 0x5b, 0x48]),
        TermKey::End => Some(vec![0x1bu8, 0x5b, 0x46]),
        TermKey::PageUp => Some(vec![0x1bu8, 0x5b, 0x35, 0x7e]),
        TermKey::PageDown => Some(vec![0x1bu8, 0x5b, 0x36, 0x7e]),
        TermKey::Delete => Some(vec![0x1bu8, 0x5b, 0x33, 0x7e]),
        TermKey::Insert => Some(vec![0x1bu8, 0x5b, 0x32, 0x7e]),
        TermKey::F(n) => {
            if n == 1 {
                Some(vec![0x1bu8, 0x4f, 0x50])
            } else if n == 2 {
                Some(vec![0x1bu8, 0x4f, 0x51])
            } else if n == 3 {
                Some(vec![0x1bu8, 0x4f, 0x52])
            } else if n == 4 {
                Some(vec![0x1bu8, 0x4f, 0x53])
            } else if n == 5 {
                Some(vec![0x1bu8, 0x5b, 0x31, 0x35, 0x7e])
            } else if n == 6 {
                Some(vec![0x1bu8, 0x5b, 0x31, 0x37, 0x7e])
            } else if n == 7 {
                Some(vec![0x1bu8, 0x5b, 0x31, 0x38, 0x7e])
            } else if n == 8 {
                Some(vec![0x1bu8, 0x5b, 0x31, 0x39, 0x7e])
            } else if n == 9 {
                Some(vec![0x1bu8, 0x5b, 0x32, 0x30, 0x7e])
            } else if n == 10 {
                Some(vec![0x1bu8, 0x5b, 0x32, 0x31, 0x7e])
            } else if n == 11 {
                Some(vec![0x1bu8, 0x5b, 0x32, 0x33, 0x7e])
            } else if n == 12 {
                Some(vec![0x1bu8, 0x5b, 0x32, 0x34, 0x7e])
            } else {
                None
            }
        },
        _ => None,
    }
}

/// Whether typed text passes a character on to the shell: printable ones, not DEL.
pub fn typed_char_sent(c: char) -> (r: bool)
    ensures
        r == (c >= ' ' && c != '\x7f'),
{
    c >= ' ' && c != '\x7f'
}

/// The scroll position after Page Up: a screen further back, at most the whole scrollback.
pub fn page_up_offset(offset: usize, visible_rows: usize, scrollback_len: usize) -> (r: usize)
    ensures
        r == min_int(offset + visible_rows, scrollback_len as int),
{
    if offset >= scrollback_len || visible_rows >= scrollback_len - offset {
        scrollback_len
    } else {
        offset + visible_rows
    }
}

/// The scroll position after Page Down: a screen nearer, at least the live screen.
pub fn page_down_offset(offset: usize, visible_rows: usize) -> (r: usize)
    ensures
        r == last_index_by(offset as int, visible_rows as int),
{
    if offset > visible_rows {
        offset - visible_rows
    } else {
        0
    }
}

/// `a - b`, or 0 where that is negative.
pub open spec fn last_index_by(a: int, b: int) -> int {
    if a > b {
        a - b
    } else {
        0
    }
}

/// The scroll position after the wheel moved `lines` lines: kept between the live screen and
/// the start of the scrollback.
pub fn wheel_offset(offset: usize, lines: i32, scrollback_len: usize) -> (r: usize)
    requires
        offset <= i32::MAX,
        scrollback_len <= i32::MAX,
        offset + lines <= i32::MAX,
    ensures
        r == (if offset + lines < 0 {
            0
        } else if offset + lines > scrollback_len {
            scrollback_len as int
        } else {
            offset + lines
        }),
{
    let target = offset as i64 + lines as i64;
    if target < 0 {
        0
    } else if target > scrollback_len as i64 {
        scrollback_len
    } else {
        target as usize
    }
}

/// The first line shown, counting the scrollback lines before the screen's rows: the view
/// ends `scroll_offset` lines before the end.
pub open spec fn spec_first_shown_line(scrollback_len: int, rows: int, visible_rows: int, scroll_offset: int) -> int {
    last_index_by(scrollback_len + rows, min_int(visible_rows, rows) + scroll_offset)
}

/// The first line shown, counting the scrollback lines before the screen's rows.
pub fn first_shown_line(scrollback_len: usize, rows: usize, visible_rows: usize, scroll_offset: usize) -> (r: usize)
    requires
        scrollback_len + rows <= usize::MAX,
    ensures
        r == spec_first_shown_line(scrollback_len as int, rows as int, visible_rows as int, scroll_offset as int),
{
    let total = scrollback_len + rows;
    let view = lesser(visible_rows, rows);
    if scroll_offset >= total || view >= total - scroll_offset {
        0
    } else {
        total - (view + scroll_offset)
    }
}

/// The highlighted cells of a selection, row by row: `(row, first column, last column)` for
/// each row from the selection's start to its end (at most the last visible row), the columns
/// clamped to the visible ones; rows where the start column passes the end column are skipped.
pub open spec fn selection_spans_until(
    start: (usize, usize),
    end: (usize, usize),
    end_row: int,
    max_col: int,
    r: int,
) -> Seq<(usize, usize, usize)>
    decreases r - start.0,
{
    if r <= start.0 {
        Seq::empty()
    } else {
        let prev = selection_spans_until(start, end, end_row, max_col, r - 1);
        let row = r - 1;
        let a = if row == start.0 {
            start.1 as int
        } else {
            0
        };
        let b = if row == end_row {
            end.1 as int
        } else {
            max_col
        };
        if a > b {
            prev
        } else {
            prev.push((row as usize, min_int(a, max_col) as usize, min_int(b, max_col) as usize))
        }
    }
}

/// The highlighted cells of the selection between `a` and `b` in a view of `visible_cols` x
/// `visible_rows` of a grid with `rows` x `cols`.
pub fn selection_spans(
    a: (usize, usize),
    b: (usize, usize),
    visible_cols: usize,
    visible_rows: usize,
    rows: usize,
    cols: usize,
) -> (spans: Vec<(usize, usize, usize)>)
    ensures
        spans@ == ({
            let (start, end) = spec_ordered_selection(a, b);
            let max_row = last_index(min_int(visible_rows as int, rows as int));
            let end_row = min_int(end.0 as int, max_row);
            selection_spans_until(
                start,
                end,
                end_row,
                last_index(min_int(visible_cols as int, cols as int)),
                end_row + 1,
            )
        }),
{
    let (start, end) = ordered_selection(a, b);
    let max_row = minus_one(lesser(visible_rows, rows));
    let max_col = minus_one(lesser(visible_cols, cols));
    let end_row = lesser(end.0, max_row);
    let mut spans: Vec<(usize, usize, usize)> = Vec::new();
    if start.0 > end_row {
        return spans;
    }
    let mut row = start.0;
    while row <= end_row
        invariant
            start.0 <= row <= end_row + 1,
            end_row <= max_row,
            max_row < usize::MAX,
            spans@ == selection_spans_until(start, end, end_row as int, max_col as int, row as int),
        decreases end_row + 1 - row,
    {
        let ra = if row == start.0 {
            start.1
        } else {
            0
        };
        let rb = if row == end_row {
            end.1
        } else {
            max_col
        };
        if ra <= rb {
            spans.push((row, lesser(ra, max_col), lesser(rb, max_col)));
        }
        row += 1;
    }
    spans
}

} // verus!
