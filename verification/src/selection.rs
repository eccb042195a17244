//! Text taken from the viewport: the whole of it, what a selection covers,
//! and the word or line to select around a cell.

use vstd::prelude::*;
use vstd::string::*;
use crate::color::push_char;
use crate::grid::{GridCell, GridLine, Selection};
use crate::shaper::shown_char;
use crate::spans::low16;

verus! {

/// Whether a character is alphanumeric as Unicode has it.
pub uninterp spec fn alphanumeric(c: char) -> bool;

/// `char::is_alphanumeric` of the standard library.
#[verifier::external_body]
fn is_alphanumeric(c: char) -> (b: bool)
    ensures
        b == alphanumeric(c),
{
    c.is_alphanumeric()
}

/// A character of a word: alphanumeric or an underscore.
pub open spec fn word_char(c: char) -> bool {
    alphanumeric(c) || c == '_'
}

/// What the cells of a row show, one character each.
pub open spec fn row_chars(cells: Seq<GridCell>) -> Seq<char> {
    cells.map_values(|c: GridCell| shown_char(c))
}

/// A text without its trailing spaces.
pub open spec fn trimmed(s: Seq<char>) -> Seq<char>
    decreases s.len(),
{
    if s.len() > 0 && s.last() == ' ' {
        trimmed(s.drop_last())
    } else {
        s
    }
}

/// The first `upto` rows of a grid as text: each row without its trailing
/// spaces, a line feed after each but the last row of the grid.
pub open spec fn grid_text(grid: Seq<GridLine>, upto: int) -> Seq<char>
    decreases upto,
{
    if upto <= 0 {
        Seq::empty()
    } else {
        let row = trimmed(row_chars(grid[upto - 1]@));
        let before = grid_text(grid, upto - 1) + row;
        if upto < grid.len() {
            before.push('\n')
        } else {
            before
        }
    }
}

/// The columns of row `row` that a selection from `start` to `end` covers,
/// as a range: from the start column in the first row, through the end
/// column in the last, and to the end of the line otherwise.
pub open spec fn selected_range(len: int, row: int, start: (u16, u16), end: (u16, u16)) -> (int, int) {
    let from: int = if row == start.1 {
        start.0 as int
    } else {
        0
    };
    let to: int = if row == end.1 && end.0 + 1 < len {
        end.0 + 1
    } else {
        len
    };
    (from, to)
}

/// The text of a selection in the rows from `start.1` up to, not including,
/// `upto`: after each row the trailing spaces of the text so far are
/// dropped, and a line feed follows each row but the last of the selection.
pub open spec fn selected_text_upto(
    grid: Seq<GridLine>,
    start: (u16, u16),
    end: (u16, u16),
    upto: int,
) -> Seq<char>
    decreases upto - start.1,
{
    if upto <= start.1 || upto > grid.len() {
        Seq::empty()
    } else {
        let row = upto - 1;
        let chars = row_chars(grid[row]@);
        let (from, to) = selected_range(chars.len() as int, row, start, end);
        let part = if from < to {
            chars.subrange(from, to)
        } else {
            Seq::empty()
        };
        let text = trimmed(selected_text_upto(grid, start, end, row) + part);
        if row < end.1 {
            text.push('\n')
        } else {
            text
        }
    }
}

/// The text of a selection whose ends are `(col, row)` in reading order.
pub open spec fn selected_text(grid: Seq<GridLine>, start: (u16, u16), end: (u16, u16)) -> Seq<char> {
    let last: int = if end.1 + 1 < grid.len() {
        end.1 + 1
    } else {
        grid.len() as int
    };
    selected_text_upto(grid, start, end, last)
}

fn shown(cell: &GridCell) -> (c: char)
    ensures
        c == shown_char(*cell),
{
    if cell.c == '\0' {
        ' '
    } else {
        cell.c
    }
}

fn trim_end(buf: &mut Vec<char>)
    ensures
        final(buf)@ == trimmed(old(buf)@),
{
    while buf.len() > 0 && buf[buf.len() - 1] == ' '
        invariant
            trimmed(buf@) == trimmed(old(buf)@),
        decreases buf@.len(),
    {
        let ghost before = buf@;
        let _ = buf.pop();
        assert(buf@ =~= before.drop_last());
    }
}

fn to_text(buf: &Vec<char>) -> (s: String)
    ensures
        s@ == buf@,
{
    let mut s = String::new();
    let mut i: usize = 0;
    while i < buf.len()
        invariant
            i <= buf@.len(),
            s@ == buf@.take(i as int),
        decreases buf@.len() - i,
    {
        push_char(&mut s, buf[i]);
        assert(s@ =~= buf@.take(i + 1));
        i += 1;
    }
    assert(buf@.take(i as int) =~= buf@);
    s
}

/// The viewport as text.
pub fn grid_to_text(grid: &[GridLine]) -> (text: String)
    ensures
        text@ == grid_text(grid@, grid@.len() as int),
{
    let mut out: Vec<char> = Vec::new();
    let mut r: usize = 0;
    while r < grid.len()
        invariant
            r <= grid@.len(),
            out@ == grid_text(grid@, r as int),
        decreases grid@.len() - r,
    {
        let line = &grid[r];
        let mut row: Vec<char> = Vec::new();
        let mut c: usize = 0;
        while c < line.cells.len()
            invariant
                c <= line.cells@.len(),
                row@ == row_chars(line@).take(c as int),
            decreases line.cells@.len() - c,
        {
            row.push(shown(&line.cells[c]));
            assert(row@ =~= row_chars(line@).take(c + 1));
            c += 1;
        }
        assert(row_chars(line@).take(c as int) =~= row_chars(line@));
        trim_end(&mut row);
        let ghost before = out@;
        let mut k: usize = 0;
        while k < row.len()
            invariant
                k <= row@.len(),
                out@ == before + row@.take(k as int),
            decreases row@.len() - k,
        {
            out.push(row[k]);
            assert(out@ =~= before + row@.take(k + 1));
            k += 1;
        }
        assert(row@.take(k as int) =~= row@);
        if r + 1 < grid.len() {
            out.push('\n');
        }
        r += 1;
    }
    to_text(&out)
}

/// The text that a selection covers, whose ends are `(col, row)` in reading
/// order; nothing where that text is empty.
pub fn get_selected_text(grid: &[GridLine], start: (u16, u16), end: (u16, u16)) -> (text: Option<
    String,
>)
    ensures
        match text {
            Some(t) => t@ == selected_text(grid@, start, end) && t@.len() > 0,
            None => selected_text(grid@, start, end).len() == 0,
        },
{
    let mut out: Vec<char> = Vec::new();
    let last: usize = if (end.1 as usize) + 1 < grid.len() {
        end.1 as usize + 1
    } else {
        grid.len()
    };
    let mut row: usize = start.1 as usize;
    while row < last
        invariant
            start.1 <= row,
            row == start.1 || row <= last,
            last <= grid@.len(),
            last <= end.1 + 1,
            out@ == selected_text_upto(grid@, start, end, row as int),
        decreases last - row,
    {
        let line = &grid[row];
        let n = line.cells.len();
        let from: usize = if row == start.1 as usize {
            start.0 as usize
        } else {
            0
        };
        let to: usize = if row == end.1 as usize && (end.0 as usize) + 1 < n {
            end.0 as usize + 1
        } else {
            n
        };
        let ghost before = out@;
        let ghost chars = row_chars(line@);
        let mut col: usize = from;
        while col < to
            invariant
                from <= col,
                col == from || col <= to,
                to <= n,
                n == line.cells@.len(),
                chars == row_chars(line@),
                out@ == before + (if from < col {
                    chars.subrange(from as int, col as int)
                } else {
                    Seq::empty()
                }),
            decreases to - col,
        {
            out.push(shown(&line.cells[col]));
            assert(out@ =~= before + chars.subrange(from as int, col + 1));
            col += 1;
        }
        assert(out@ =~= before + (if from < to {
            chars.subrange(from as int, to as int)
        } else {
            Seq::empty()
        }));
        trim_end(&mut out);
        if row < end.1 as usize {
            out.push('\n');
        }
        row += 1;
    }
    assert(out@ == selected_text_upto(grid@, start, end, last as int));
    if out.len() == 0 {
        None
    } else {
        Some(to_text(&out))
    }
}

/// The selection of the whole row, for a terminal of `cols` columns.
pub fn line_selection_at(cols: u16, row: u16) -> (s: Selection)
    ensures
        s.start == (0u16, row),
        s.end == (
            if cols > 0 {
                (cols - 1) as u16
            } else {
                0u16
            },
            row,
        ),
{
    Selection { start: (0, row), end: (if cols > 0 {
        cols - 1
    } else {
        0
    }, row) }
}

fn is_word_char(c: char) -> (b: bool)
    ensures
        b == word_char(c),
{
    is_alphanumeric(c) || c == '_'
}

/// The columns `from` to `to` hold characters of a word, `col` among them,
/// and the word goes no further on either side.
pub open spec fn is_word_around(cells: Seq<GridCell>, col: int, from: int, to: int) -> bool {
    &&& 0 <= from <= col <= to < cells.len()
    &&& forall|k: int| from <= k <= to ==> word_char((#[trigger] cells[k]).c)
    &&& from > 0 ==> !word_char(cells[from - 1].c)
    &&& to + 1 < cells.len() ==> !word_char(cells[to + 1].c)
}

/// The selection for a double click on a cell: the word around it where the
/// cell holds a character of a word, else the cell alone.
pub fn word_selection_at(grid: &[GridLine], col: u16, row: u16) -> (s: Selection)
    ensures
        s.start.1 == row && s.end.1 == row,
        row < grid@.len() && col < grid@[row as int]@.len() && word_char(
            grid@[row as int]@[col as int].c,
        ) ==> exists|from: int, to: int|
            is_word_around(grid@[row as int]@, col as int, from, to) && s.start.0 == low16(from)
                && s.end.0 == low16(to),
        !(row < grid@.len() && col < grid@[row as int]@.len() && word_char(
            grid@[row as int]@[col as int].c,
        )) ==> s.start.0 == col && s.end.0 == col,
{
    if (row as usize) < grid.len() {
        let cells = &grid[row as usize].cells;
        let c = col as usize;
        if c < cells.len() && is_word_char(cells[c].c) {
            let mut start: usize = c;
            while start > 0 && is_word_char(cells[start - 1].c)
                invariant
                    start <= c < cells@.len(),
                    forall|k: int| start <= k <= c ==> word_char((#[trigger] cells@[k]).c),
                decreases start,
            {
                start -= 1;
            }
            let mut end: usize = c;
            while end < cells.len() - 1 && is_word_char(cells[end + 1].c)
                invariant
                    c <= end < cells@.len(),
                    forall|k: int| c <= k <= end ==> word_char((#[trigger] cells@[k]).c),
                decreases cells@.len() - end,
            {
                end += 1;
            }
            assert(is_word_around(grid@[row as int]@, col as int, start as int, end as int));
            return Selection {
                start: ((start % 65536) as u16, row),
                end: ((end % 65536) as u16, row),
            };
        }
    }
    Selection { start: (col, row), end: (col, row) }
}


/// What a cell adds to the checksum of a region: its character, the red of
/// its foreground and the blue of its background.
pub open spec fn cell_weight(cell: GridCell) -> int {
    cell.c as u32 as int + cell.fg.r as int + cell.bg.b as int
}

/// The sum of the weights of the cells from `from` up to `to`.
pub open spec fn weight_of(cells: Seq<GridCell>, from: int, to: int) -> int
    decreases to - from,
{
    if to <= from {
        0
    } else {
        weight_of(cells, from, to - 1) + cell_weight(cells[to - 1])
    }
}

/// The number of cells that a selection covers in the rows from `start.1` up
/// to, not including, `upto`, and the sum of their weights.
pub open spec fn region_upto(grid: Seq<GridLine>, start: (u16, u16), end: (u16, u16), upto: int) -> (
    int,
    int,
)
    decreases upto - start.1,
{
    if upto <= start.1 || upto > grid.len() {
        (0, 0)
    } else {
        let row = upto - 1;
        let before = region_upto(grid, start, end, row);
        let (from, to) = selected_range(grid[row]@.len() as int, row, start, end);
        if from < to {
            (before.0 + (to - from), before.1 + weight_of(grid[row]@, from, to))
        } else {
            before
        }
    }
}

/// Counts the cells that a selection covers, whose ends are `(col, row)` in
/// reading order, and sums their weights modulo `2^64`.
pub fn scan_selection_region(grid: &[GridLine], start: (u16, u16), end: (u16, u16)) -> (r: (
    usize,
    u64,
))
    ensures
        ({
            let last: int = if end.1 + 1 < grid@.len() {
                end.1 + 1
            } else {
                grid@.len() as int
            };
            let all = region_upto(grid@, start, end, last);
            r.0 as int == all.0 % (usize::MAX as int + 1) && r.1 as int == all.1
                % 0x1_0000_0000_0000_0000
        }),
{
    let last: usize = if (end.1 as usize) + 1 < grid.len() {
        end.1 as usize + 1
    } else {
        grid.len()
    };
    let mut cells: usize = 0;
    let mut checksum: u64 = 0;
    let mut row: usize = start.1 as usize;
    while row < last
        invariant
            start.1 <= row,
            row == start.1 || row <= last,
            last <= grid@.len(),
            last <= end.1 + 1,
            cells as int == region_upto(grid@, start, end, row as int).0 % (usize::MAX as int + 1),
            checksum as int == region_upto(grid@, start, end, row as int).1
                % 0x1_0000_0000_0000_0000,
        decreases last - row,
    {
        let line = &grid[row];
        let n = line.cells.len();
        let from: usize = if row == start.1 as usize {
            start.0 as usize
        } else {
            0
        };
        let to: usize = if row == end.1 as usize && (end.0 as usize) + 1 < n {
            end.0 as usize + 1
        } else {
            n
        };
        let ghost before = region_upto(grid@, start, end, row as int);
        let mut col: usize = from;
        while col < to
            invariant
                from <= col,
                col == from || col <= to,
                to <= n,
                n == line.cells@.len(),
                cells as int == (before.0 + (col - from)) % (usize::MAX as int + 1),
                checksum as int == (before.1 + weight_of(line@, from as int, col as int))
                    % 0x1_0000_0000_0000_0000,
            decreases to - col,
        {
            let cell = line.cells[col];
            proof {
                let m = usize::MAX as int + 1;
                vstd::arithmetic::div_mod::lemma_add_mod_noop(before.0 + (col - from), 1, m);
                vstd::arithmetic::div_mod::lemma_small_mod(1, m as nat);
                if cells == usize::MAX {
                    vstd::arithmetic::div_mod::lemma_mod_self_0(m);
                } else {
                    vstd::arithmetic::div_mod::lemma_small_mod((cells + 1) as nat, m as nat);
                }
            }
            cells = if cells == usize::MAX {
                0
            } else {
                cells + 1
            };
            let w: u64 = cell.c as u32 as u64 + cell.fg.r as u64 + cell.bg.b as u64;
            checksum = if checksum > u64::MAX - w {
                checksum - (u64::MAX - w) - 1
            } else {
                checksum + w
            };
            col += 1;
        }
        row += 1;
    }
    (cells, checksum)
}

} // verus!
