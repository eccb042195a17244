//! Background spans: horizontal runs of cells that share a background other
//! than the default, and the runs that a selection highlights.

use vstd::prelude::*;
use crate::color::RgbColor;
use crate::grid::{GridCell, GridLine, row_major_le};

verus! {

/// A run of `width` cells in row `row`, starting at column `col`, painted in
/// one colour.
#[derive(Debug, Clone, Copy, PartialEq, Eq, Structural)]
pub struct BgSpan {
    pub col: u16,
    pub row: u16,
    pub width: u16,
    pub color: RgbColor,
}

/// The low sixteen bits of a count: span coordinates are kept in 16 bits.
pub open spec fn low16(n: int) -> u16 {
    (n % 0x10000) as u16
}

/// The end of the run of cells with background `bg` that starts at `from`:
/// the first index at or after `from` that is past the line or has another
/// background.
pub open spec fn run_end(cells: Seq<GridCell>, bg: RgbColor, from: int) -> int
    decreases cells.len() - from,
{
    if 0 <= from < cells.len() && cells[from].bg == bg {
        run_end(cells, bg, from + 1)
    } else {
        from
    }
}

/// The spans of the cells from column `col` on: one for each maximal run of
/// equal backgrounds other than `default_bg`, from left to right.
pub open spec fn row_spans_from(
    cells: Seq<GridCell>,
    row: int,
    default_bg: RgbColor,
    col: int,
) -> Seq<BgSpan>
    decreases cells.len() - col,
{
    if col < 0 || col >= cells.len() {
        Seq::empty()
    } else if cells[col].bg == default_bg {
        row_spans_from(cells, row, default_bg, col + 1)
    } else {
        let end = run_end(cells, cells[col].bg, col + 1);
        let next = if col < end <= cells.len() {
            end
        } else {
            col + 1
        };
        seq![
            BgSpan {
                col: low16(col),
                row: low16(row),
                width: low16(next - col),
                color: cells[col].bg,
            },
        ] + row_spans_from(cells, row, default_bg, next)
    }
}

/// The spans of one row.
pub open spec fn row_spans(cells: Seq<GridCell>, row: int, default_bg: RgbColor) -> Seq<BgSpan> {
    row_spans_from(cells, row, default_bg, 0)
}

/// The spans of the first `upto` rows of a grid, row after row.
pub open spec fn grid_spans(grid: Seq<GridLine>, default_bg: RgbColor, upto: int) -> Seq<BgSpan>
    decreases upto,
{
    if upto <= 0 {
        Seq::empty()
    } else {
        grid_spans(grid, default_bg, upto - 1) + row_spans(grid[upto - 1]@, upto - 1, default_bg)
    }
}

/// The spans that lie in none of the rows `dirty`, in their order.
pub open spec fn kept_spans(spans: Seq<BgSpan>, dirty: Seq<usize>) -> Seq<BgSpan>
    decreases spans.len(),
{
    if spans.len() == 0 {
        Seq::empty()
    } else {
        let before = kept_spans(spans.drop_last(), dirty);
        if dirty.contains(spans.last().row as usize) {
            before
        } else {
            before.push(spans.last())
        }
    }
}

/// The spans of the first `upto` rows listed in `dirty`, in the order of the
/// list; a listed row past the grid gives none.
pub open spec fn emitted_spans(
    grid: Seq<GridLine>,
    dirty: Seq<usize>,
    default_bg: RgbColor,
    upto: int,
) -> Seq<BgSpan>
    decreases upto,
{
    if upto <= 0 {
        Seq::empty()
    } else {
        let row = dirty[upto - 1] as int;
        let before = emitted_spans(grid, dirty, default_bg, upto - 1);
        if row < grid.len() {
            before + row_spans(grid[row]@, row, default_bg)
        } else {
            before
        }
    }
}

/// The span that a selection from `start` to `end`, each `(col, row)` and in
/// reading order, highlights in row `row` of `len` cells: from the start
/// column in the first row, through the end column in the last row, the whole
/// line between, cut off at the end of the line.
pub open spec fn selection_row_span(
    len: int,
    row: u16,
    start: (u16, u16),
    end: (u16, u16),
    color: RgbColor,
) -> Option<BgSpan> {
    let col_start: int = if row == start.1 {
        start.0 as int
    } else {
        0
    };
    let line_end: int = low16(len) as int;
    let col_end: int = if row == end.1 {
        if end.0 == u16::MAX {
            u16::MAX as int
        } else {
            end.0 + 1
        }
    } else {
        line_end
    };
    let clamped: int = if col_end < line_end {
        col_end
    } else {
        line_end
    };
    if clamped <= col_start {
        None
    } else {
        Some(BgSpan { col: col_start as u16, row, width: (clamped - col_start) as u16, color })
    }
}

/// The spans of a selection in the rows from `start.1` up to, not including,
/// `upto`.
pub open spec fn selection_spans_upto(
    grid: Seq<GridLine>,
    start: (u16, u16),
    end: (u16, u16),
    color: RgbColor,
    upto: int,
) -> Seq<BgSpan>
    decreases upto - start.1,
{
    if upto <= start.1 || upto > grid.len() {
        Seq::empty()
    } else {
        let before = selection_spans_upto(grid, start, end, color, upto - 1);
        match selection_row_span(grid[upto - 1]@.len() as int, (upto - 1) as u16, start, end, color) {
            Some(span) => before.push(span),
            None => before,
        }
    }
}

/// The spans of a selection: one for each row from the first to the last that
/// the grid has, where the selection covers a cell of it. No selection gives
/// none.
pub open spec fn selection_spans(
    grid: Seq<GridLine>,
    selection: Option<((u16, u16), (u16, u16))>,
    color: RgbColor,
) -> Seq<BgSpan> {
    match selection {
        None => Seq::empty(),
        Some((start, end)) => {
            let last: int = if end.1 + 1 < grid.len() {
                end.1 + 1
            } else {
                grid.len() as int
            };
            selection_spans_upto(grid, start, end, color, last)
        },
    }
}

pub proof fn lemma_run_end(cells: Seq<GridCell>, bg: RgbColor, from: int)
    requires
        0 <= from <= cells.len(),
    ensures
        from <= run_end(cells, bg, from) <= cells.len(),
        forall|k: int| from <= k < run_end(cells, bg, from) ==> (#[trigger] cells[k]).bg == bg,
        run_end(cells, bg, from) < cells.len() ==> cells[run_end(cells, bg, from)].bg != bg,
    decreases cells.len() - from,
{
    if from < cells.len() && cells[from].bg == bg {
        lemma_run_end(cells, bg, from + 1);
    }
}

/// `s` is a run of at least one cell at or after column `col` inside the row,
/// all of one background that is not the default, which cannot be extended
/// to the right.
pub open spec fn is_run(cells: Seq<GridCell>, default_bg: RgbColor, col: int, s: BgSpan) -> bool {
    &&& s.width >= 1
    &&& col <= s.col
    &&& s.col + s.width <= cells.len()
    &&& s.color != default_bg
    &&& forall|k: int| s.col <= k < s.col + s.width ==> (#[trigger] cells[k]).bg == s.color
    &&& (s.col + s.width < cells.len() ==> cells[s.col + s.width].bg != s.color)
}

/// Every span of a row of at most 65535 cells is such a run.
pub proof fn lemma_row_spans_runs(cells: Seq<GridCell>, row: int, default_bg: RgbColor, col: int)
    requires
        0 <= col <= cells.len(),
        cells.len() <= 0xffff,
    ensures
        forall|i: int|
            0 <= i < row_spans_from(cells, row, default_bg, col).len() ==> is_run(
                cells,
                default_bg,
                col,
                #[trigger] row_spans_from(cells, row, default_bg, col)[i],
            ),
    decreases cells.len() - col,
{
    let all = row_spans_from(cells, row, default_bg, col);
    if col >= cells.len() {
    } else if cells[col].bg == default_bg {
        lemma_row_spans_runs(cells, row, default_bg, col + 1);
        let rest = row_spans_from(cells, row, default_bg, col + 1);
        assert forall|i: int| 0 <= i < all.len() implies is_run(
            cells,
            default_bg,
            col,
            #[trigger] all[i],
        ) by {
            assert(is_run(cells, default_bg, col + 1, rest[i]));
        }
    } else {
        let bg = cells[col].bg;
        lemma_run_end(cells, bg, col + 1);
        let end = run_end(cells, bg, col + 1);
        lemma_row_spans_runs(cells, row, default_bg, end);
        let rest = row_spans_from(cells, row, default_bg, end);
        assert forall|i: int| 0 <= i < all.len() implies is_run(
            cells,
            default_bg,
            col,
            #[trigger] all[i],
        ) by {
            if i == 0 {
                let s = all[0];
                assert(s.col == col && s.width == end - col && s.color == bg);
                assert forall|k: int| s.col <= k < s.col + s.width implies (#[trigger] cells[k]).bg
                    == s.color by {
                    if k > col {
                        assert(cells[k].bg == bg);
                    }
                }
            } else {
                assert(all[i] == rest[i - 1]);
                assert(is_run(cells, default_bg, end, rest[i - 1]));
            }
        }
    }
}

/// Appends the spans of one row.
pub fn emit_bg_spans_for_row(
    out: &mut Vec<BgSpan>,
    line: &GridLine,
    row_idx: usize,
    default_bg: RgbColor,
)
    ensures
        final(out)@ == old(out)@ + row_spans(line@, row_idx as int, default_bg),
{
    let n = line.cells.len();
    let ghost cells = line@;
    let ghost row = row_idx as int;
    let mut col: usize = 0;
    assert(out@ + row_spans_from(cells, row, default_bg, 0) =~= old(out)@ + row_spans(cells, row, default_bg));
    while col < n
        invariant
            col <= n,
            n == line.cells@.len(),
            cells == line@,
            row == row_idx as int,
            out@ + row_spans_from(cells, row, default_bg, col as int) == old(out)@ + row_spans(
                cells,
                row,
                default_bg,
            ),
        decreases n - col,
    {
        let cell_bg = line.cells[col].bg;
        if cell_bg == default_bg {
            col += 1;
        } else {
            let mut end: usize = col + 1;
            while end < n && line.cells[end].bg == cell_bg
                invariant
                    col < end <= n,
                    n == line.cells@.len(),
                    cells == line@,
                    run_end(cells, cell_bg, end as int) == run_end(cells, cell_bg, col + 1),
                decreases n - end,
            {
                end += 1;
            }
            assert(run_end(cells, cell_bg, end as int) == end);
            let span = BgSpan {
                col: (col % 65536) as u16,
                row: (row_idx % 65536) as u16,
                width: ((end - col) % 65536) as u16,
                color: cell_bg,
            };
            let ghost before = out@;
            out.push(span);
            assert(row_spans_from(cells, row, default_bg, col as int) == seq![span]
                + row_spans_from(cells, row, default_bg, end as int));
            assert(out@ + row_spans_from(cells, row, default_bg, end as int) =~= before
                + row_spans_from(cells, row, default_bg, col as int));
            col = end;
        }
    }
    assert(out@ + row_spans_from(cells, row, default_bg, col as int) =~= out@);
}

/// Replaces the spans by those of the whole grid.
pub fn rebuild_content_bg_spans(out: &mut Vec<BgSpan>, grid: &[GridLine], default_bg: RgbColor)
    ensures
        final(out)@ == grid_spans(grid@, default_bg, grid@.len() as int),
{
    out.clear();
    let mut row: usize = 0;
    while row < grid.len()
        invariant
            row <= grid@.len(),
            out@ == grid_spans(grid@, default_bg, row as int),
        decreases grid@.len() - row,
    {
        emit_bg_spans_for_row(out, &grid[row], row, default_bg);
        row += 1;
    }
}

fn row_listed(dirty_rows: &[usize], row: usize) -> (b: bool)
    ensures
        b == dirty_rows@.contains(row),
{
    let mut i: usize = 0;
    while i < dirty_rows.len()
        invariant
            i <= dirty_rows@.len(),
            forall|j: int| 0 <= j < i ==> dirty_rows@[j] != row,
        decreases dirty_rows@.len() - i,
    {
        if dirty_rows[i] == row {
            return true;
        }
        i += 1;
    }
    false
}

/// Drops the spans of the rows `dirty_rows` and appends the spans that these
/// rows have now, in the order of the list. Spans of other rows stay as they
/// are and where they are.
pub fn incremental_update_bg_spans(
    out: &mut Vec<BgSpan>,
    grid: &[GridLine],
    default_bg: RgbColor,
    dirty_rows: &[usize],
)
    ensures
        final(out)@ == kept_spans(old(out)@, dirty_rows@) + emitted_spans(
            grid@,
            dirty_rows@,
            default_bg,
            dirty_rows@.len() as int,
        ),
{
    let mut kept: Vec<BgSpan> = Vec::new();
    let mut i: usize = 0;
    while i < out.len()
        invariant
            i <= out@.len(),
            out@ == old(out)@,
            kept@ == kept_spans(out@.take(i as int), dirty_rows@),
        decreases out@.len() - i,
    {
        let span = out[i];
        assert(out@.take(i + 1).drop_last() =~= out@.take(i as int));
        if !row_listed(dirty_rows, span.row as usize) {
            kept.push(span);
        }
        i += 1;
    }
    assert(out@.take(i as int) =~= out@);
    let ghost base = kept@;
    let mut k: usize = 0;
    while k < dirty_rows.len()
        invariant
            k <= dirty_rows@.len(),
            kept@ == base + emitted_spans(grid@, dirty_rows@, default_bg, k as int),
        decreases dirty_rows@.len() - k,
    {
        let row_idx = dirty_rows[k];
        let ghost before = kept@;
        if row_idx < grid.len() {
            emit_bg_spans_for_row(&mut kept, &grid[row_idx], row_idx, default_bg);
            assert(kept@ =~= base + emitted_spans(grid@, dirty_rows@, default_bg, k + 1));
        }
        k += 1;
    }
    *out = kept;
}

/// Replaces the spans by those of the selection, whose ends are `(col, row)`
/// in reading order.
pub fn rebuild_selection_bg_spans(
    out: &mut Vec<BgSpan>,
    grid: &[GridLine],
    selection: Option<((u16, u16), (u16, u16))>,
    selection_bg: RgbColor,
)
    ensures
        final(out)@ == selection_spans(grid@, selection, selection_bg),
{
    out.clear();
    let (start, end) = match selection {
        None => {
            return ;
        },
        Some(ends) => ends,
    };
    let mut row: usize = start.1 as usize;
    let last: usize = if (end.1 as usize) + 1 < grid.len() {
        end.1 as usize + 1
    } else {
        grid.len()
    };
    while row < last
        invariant
            start.1 <= row,
            row == start.1 || row <= last,
            last <= grid@.len(),
            last <= end.1 + 1,
            out@ == selection_spans_upto(grid@, start, end, selection_bg, row as int),
        decreases last - row,
    {
        let line = &grid[row];
        let row16: u16 = row as u16;
        let line_end: u16 = (line.cells.len() % 65536) as u16;
        let col_start: u16 = if row16 == start.1 {
            start.0
        } else {
            0
        };
        let col_end: u16 = if row16 == end.1 {
            if end.0 == u16::MAX {
                u16::MAX
            } else {
                end.0 + 1
            }
        } else {
            line_end
        };
        let clamped_end: u16 = if col_end < line_end {
            col_end
        } else {
            line_end
        };
        if clamped_end > col_start {
            out.push(
                BgSpan {
                    col: col_start,
                    row: row16,
                    width: clamped_end - col_start,
                    color: selection_bg,
                },
            );
        }
        row += 1;
    }
    proof {
        assert(out@ == selection_spans_upto(grid@, start, end, selection_bg, last as int));
    }
}

} // verus!
