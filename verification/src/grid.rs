//! The viewport grid as the renderer sees it: cells, lines, the record of
//! what an extraction changed, and selections in grid coordinates.

use vstd::prelude::*;
use crate::color::RgbColor;

verus! {

/// One cell of the viewport.
#[derive(Debug, Clone, Copy, PartialEq, Eq, Structural)]
pub struct GridCell {
    pub c: char,
    pub fg: RgbColor,
    pub bg: RgbColor,
    pub bold: bool,
    pub italic: bool,
    pub underline: bool,
    /// The trailing half of a double-width character.
    pub wide_spacer: bool,
}

/// One visible row.
#[derive(Debug, Clone)]
pub struct GridLine {
    pub cells: Vec<GridCell>,
}

impl View for GridLine {
    type V = Seq<GridCell>;

    open spec fn view(&self) -> Seq<GridCell> {
        self.cells@
    }
}

/// The cells of each row of a grid.
pub open spec fn grid_view(grid: Seq<GridLine>) -> Seq<Seq<GridCell>> {
    grid.map_values(|l: GridLine| l@)
}

impl GridLine {
    /// A line without cells.
    pub fn new() -> (l: Self)
        ensures
            l@ == Seq::<GridCell>::empty(),
    {
        GridLine { cells: Vec::new() }
    }

    /// A copy of the line.
    pub fn duplicate(&self) -> (l: Self)
        ensures
            l@ == self@,
    {
        let mut cells: Vec<GridCell> = Vec::new();
        let mut i: usize = 0;
        while i < self.cells.len()
            invariant
                i <= self.cells@.len(),
                cells@ == self.cells@.take(i as int),
            decreases self.cells@.len() - i,
        {
            cells.push(self.cells[i]);
            assert(self.cells@.take(i + 1) =~= self.cells@.take(i as int).push(self.cells@[i as int]));
            i += 1;
        }
        assert(self.cells@.take(i as int) =~= self.cells@);
        GridLine { cells }
    }
}

/// What an extraction changed: everything, or the listed rows.
#[derive(Debug, Clone)]
pub struct GridDelta {
    pub full: bool,
    pub dirty_rows: Vec<usize>,
}

impl GridDelta {
    /// The delta of an extraction that changed nothing.
    pub fn empty() -> (d: Self)
        ensures
            !d.full,
            d.dirty_rows@ == Seq::<usize>::empty(),
    {
        GridDelta { full: false, dirty_rows: Vec::new() }
    }

    /// The delta of an extraction that wrote all `rows` rows anew.
    pub fn full_of(rows: usize) -> (d: Self)
        ensures
            d.full,
            d.dirty_rows@ == Seq::new(rows as nat, |i: int| i as usize),
    {
        let mut all: Vec<usize> = Vec::new();
        let mut i: usize = 0;
        while i < rows
            invariant
                i <= rows,
                all@ == Seq::new(i as nat, |k: int| k as usize),
            decreases rows - i,
        {
            all.push(i);
            assert(all@ =~= Seq::new((i + 1) as nat, |k: int| k as usize));
            i += 1;
        }
        GridDelta { full: true, dirty_rows: all }
    }

    /// Nothing changed: neither everything nor any single row.
    pub fn is_empty(&self) -> (b: bool)
        ensures
            b == (!self.full && self.dirty_rows@.len() == 0),
    {
        !self.full && self.dirty_rows.len() == 0
    }
}

/// Whether `a` comes no later than `b` when cells are read row by row.
pub open spec fn row_major_le(a: (u16, u16), b: (u16, u16)) -> bool {
    a.1 < b.1 || (a.1 == b.1 && a.0 <= b.0)
}

/// The two ends of a selection in reading order.
pub open spec fn normalized_ends(a: (u16, u16), b: (u16, u16)) -> ((u16, u16), (u16, u16)) {
    if row_major_le(a, b) {
        (a, b)
    } else {
        (b, a)
    }
}

/// Orders two cell positions, each `(col, row)`, by row and then column.
pub fn normalize_sel(a: (u16, u16), b: (u16, u16)) -> (r: ((u16, u16), (u16, u16)))
    ensures
        r == normalized_ends(a, b),
        row_major_le(r.0, r.1),
{
    if a.1 < b.1 || (a.1 == b.1 && a.0 <= b.0) {
        (a, b)
    } else {
        (b, a)
    }
}

/// A selection between two cells, each `(col, row)`, in the order in which
/// they were picked.
#[derive(Debug, Clone, Copy, PartialEq, Eq)]
pub struct Selection {
    pub start: (u16, u16),
    pub end: (u16, u16),
}

impl Selection {
    /// The ends in reading order.
    pub fn normalized(&self) -> (r: ((u16, u16), (u16, u16)))
        ensures
            r == normalized_ends(self.start, self.end),
            row_major_le(r.0, r.1),
    {
        normalize_sel(self.start, self.end)
    }
}

/// Normalising is idempotent and does not depend on the order of the ends.
pub proof fn lemma_normalized_ends(a: (u16, u16), b: (u16, u16))
    ensures
        normalized_ends(a, b) == normalized_ends(b, a) || a == b,
        normalized_ends(normalized_ends(a, b).0, normalized_ends(a, b).1) == normalized_ends(a, b),
        row_major_le(normalized_ends(a, b).0, normalized_ends(a, b).1),
{
}


/// A cell as the text renderer takes it: a grid cell without the mark of a
/// double-width character's second half.
#[derive(Debug, Clone, Copy, PartialEq, Eq, Structural)]
pub struct TerminalCell {
    pub c: char,
    pub fg: RgbColor,
    pub bg: RgbColor,
    pub bold: bool,
    pub italic: bool,
    pub underline: bool,
}

/// A row as the text renderer takes it.
#[derive(Debug, Clone)]
pub struct TerminalLine {
    pub cells: Vec<TerminalCell>,
}

pub open spec fn render_cell(cell: GridCell) -> TerminalCell {
    TerminalCell {
        c: cell.c,
        fg: cell.fg,
        bg: cell.bg,
        bold: cell.bold,
        italic: cell.italic,
        underline: cell.underline,
    }
}

pub open spec fn render_line(cells: Seq<GridCell>) -> Seq<TerminalCell> {
    cells.map_values(|c: GridCell| render_cell(c))
}

/// The rows of a grid as the text renderer takes them, cell for cell.
pub fn grid_to_render_lines(grid: &[GridLine]) -> (lines: Vec<TerminalLine>)
    ensures
        lines@.len() == grid@.len(),
        forall|r: int| 0 <= r < grid@.len() ==> (#[trigger] lines@[r]).cells@ == render_line(grid@[r]@),
{
    let mut lines: Vec<TerminalLine> = Vec::new();
    let mut r: usize = 0;
    while r < grid.len()
        invariant
            r <= grid@.len(),
            lines@.len() == r,
            forall|k: int| 0 <= k < r ==> (#[trigger] lines@[k]).cells@ == render_line(grid@[k]@),
        decreases grid@.len() - r,
    {
        let line = &grid[r];
        let mut cells: Vec<TerminalCell> = Vec::new();
        let mut c: usize = 0;
        while c < line.cells.len()
            invariant
                c <= line.cells@.len(),
                cells@.len() == c,
                forall|k: int| 0 <= k < c ==> cells@[k] == render_cell(line.cells@[k]),
            decreases line.cells@.len() - c,
        {
            let cell = line.cells[c];
            cells.push(
                TerminalCell {
                    c: cell.c,
                    fg: cell.fg,
                    bg: cell.bg,
                    bold: cell.bold,
                    italic: cell.italic,
                    underline: cell.underline,
                },
            );
            c += 1;
        }
        assert(cells@ =~= render_line(line@));
        lines.push(TerminalLine { cells });
        r += 1;
    }
    lines
}

} // verus!
