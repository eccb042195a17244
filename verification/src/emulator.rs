//! The terminal proper: a VTE state machine with its scrollback, kept by an
//! outside crate, and the extraction of its viewport into a cached grid that
//! follows the terminal's damage.

use vstd::prelude::*;
use alacritty_terminal::event::VoidListener;
use alacritty_terminal::grid::{Dimensions, Scroll};
use alacritty_terminal::index::{Column, Point};
use alacritty_terminal::term::test::TermSize;
use alacritty_terminal::term::{viewport_to_point, Config, Term, TermDamage};
use alacritty_terminal::vte::ansi::{Color, Processor, StdSyncHandler};
use crate::color::{alacritty_color_to_rgb, resolved_color, CellColor, RgbColor, Theme};
use crate::grid::{grid_view, GridCell, GridDelta, GridLine};

verus! {

/// The terminal of the outside crate: grid, scrollback, cursor and damage.
#[verifier::external_type_specification]
#[verifier::external_body]
#[verifier::reject_recursive_types(T)]
pub struct ExTerm<T>(Term<T>);

/// The listener that drops every event of the terminal.
#[verifier::external_type_specification]
#[verifier::external_body]
pub struct ExVoidListener(VoidListener);

/// The parser of the outside crate, which turns bytes into calls on the
/// terminal. It keeps the state of an escape sequence between chunks.
#[verifier::external_body]
pub struct Parser {
    inner: Processor<StdSyncHandler>,
}

/// A cell as the terminal holds it: character, colours and attribute bits.
#[derive(Debug, Clone, Copy, PartialEq, Eq, Structural)]
pub struct RawCell {
    pub c: char,
    pub fg: CellColor,
    pub bg: CellColor,
    pub flags: u16,
}

/// The cells that the terminal shows at its display offset, row by row.
pub uninterp spec fn term_viewport(term: Term<VoidListener>) -> Seq<Seq<RawCell>>;

/// The terminal's number of columns.
pub uninterp spec fn term_columns(term: Term<VoidListener>) -> nat;

/// What the terminal would report as damaged since the last reset: nothing
/// for "everything", else the damaged rows in the order of the report.
pub uninterp spec fn term_damage(term: Term<VoidListener>) -> Option<Seq<usize>>;

/// The cursor of the terminal: its column and its line.
pub uninterp spec fn term_cursor(term: Term<VoidListener>) -> (usize, i32);

/// The number of lines that the viewport is scrolled into the history.
pub uninterp spec fn term_offset(term: Term<VoidListener>) -> usize;

/// The line of the cursor as the damage record last noted it.
pub uninterp spec fn term_noted_line(term: Term<VoidListener>) -> i32;

/// The terminal would report everything as damaged, or no rows but the
/// cursor's and the one where the record last noted the cursor.
pub open spec fn at_most_cursor_rows(term: Term<VoidListener>) -> bool {
    term_damage(term) matches Some(rows) ==> forall|i: int|
        0 <= i < rows.len() ==> #[trigger] rows[i] == term_cursor(term).1 + term_offset(term)
            || rows[i] == term_noted_line(term) + term_offset(term)
}

/// The terminal has nothing new to report: it would report everything, as
/// it does in insert mode, or no row but the cursor's.
pub open spec fn settled(term: Term<VoidListener>) -> bool {
    term_damage(term) matches Some(rows) ==> forall|i: int|
        0 <= i < rows.len() ==> #[trigger] rows[i] == term_cursor(term).1 + term_offset(term)
}

/// What the viewport shows after the parser has fed the bytes to the
/// terminal.
pub uninterp spec fn term_fed(term: Term<VoidListener>, parser: Parser, data: Seq<u8>) -> Seq<
    Seq<RawCell>,
>;

/// The fewest columns that a terminal has.
pub const MIN_COLUMNS: u16 = 2;

/// The fewest rows that a terminal has.
pub const MIN_ROWS: u16 = 1;

/// The terminal has two columns and one row at least.
pub open spec fn term_sized(term: Term<VoidListener>) -> bool {
    term_columns(term) >= MIN_COLUMNS && term_viewport(term).len() >= MIN_ROWS
}

/// Every visible row has as many cells as the terminal has columns.
pub open spec fn rows_filled(term: Term<VoidListener>) -> bool {
    forall|r: int|
        0 <= r < term_viewport(term).len() ==> (#[trigger] term_viewport(term)[r]).len()
            == term_columns(term)
}

/// Attribute bit of a bold cell.
pub const FLAG_BOLD: u16 = 0x0002;

/// Attribute bit of an italic cell.
pub const FLAG_ITALIC: u16 = 0x0004;

/// Attribute bit of an underlined cell.
pub const FLAG_UNDERLINE: u16 = 0x0008;

/// Attribute bit of the trailing half of a double-width character.
pub const FLAG_WIDE_CHAR_SPACER: u16 = 0x0040;

/// A new terminal of `cols` columns and `rows` rows with the crate's default
/// configuration, made by `Term::new`. Its grid has the size asked for. The
/// outside crate works with two columns and one row at least.
#[verifier::external_body]
fn term_new(cols: u16, rows: u16) -> (term: Term<VoidListener>)
    requires
        cols >= MIN_COLUMNS,
        rows >= MIN_ROWS,
    ensures
        term_viewport(term).len() == rows,
        term_columns(term) == cols,
{
    Term::new(Config::default(), &TermSize::new(cols as usize, rows as usize), VoidListener)
}

/// A new parser in its ground state, made by `Processor::new`.
#[verifier::external_body]
fn parser_new() -> (parser: Parser) {
    Parser { inner: Processor::new() }
}

/// Feeds bytes to a terminal of two columns and one row at least through
/// `Processor::advance`. What the viewport shows afterwards is a matter of
/// the terminal, the parser and the bytes alone and has the name
/// [`term_fed`]; no byte changes the size of the grid, which `Term::resize`
/// alone does.
#[verifier::external_body]
fn term_advance(term: &mut Term<VoidListener>, parser: &mut Parser, data: &[u8])
    requires
        term_sized(*old(term)),
    ensures
        term_viewport(*final(term)) == term_fed(*old(term), *old(parser), data@),
        term_columns(*final(term)) == term_columns(*old(term)),
        term_viewport(*final(term)).len() == term_viewport(*old(term)).len(),
{
    parser.inner.advance(term, data);
}

/// Resizes the terminal to two columns and one row at least with
/// `Term::resize`, which returns at once for the size that the grid has, and
/// else gives the grid the size asked for and marks everything damaged: see
/// [`resized`].
#[verifier::external_body]
fn term_resize(term: &mut Term<VoidListener>, cols: u16, rows: u16)
    requires
        cols >= MIN_COLUMNS,
        rows >= MIN_ROWS,
    ensures
        resized(*old(term), *final(term), cols, rows),
{
    term.resize(TermSize::new(cols as usize, rows as usize));
}

/// Scrolls the viewport by `delta` lines with `Term::scroll_display`, which
/// moves the display offset within the history, leaves size, cursor and
/// history alone, and marks everything damaged where the offset changed: see
/// [`scrolled`]. The outside code adds offset and `delta` in 32 bits with
/// sign.
#[verifier::external_body]
fn term_scroll(term: &mut Term<VoidListener>, delta: i32)
    requires
        term_offset(*old(term)) <= i32::MAX,
        term_offset(*old(term)) + delta <= i32::MAX,
    ensures
        scrolled(*old(term), *final(term), delta),
        term_history(*final(term)) == term_history(*old(term)),
{
    term.scroll_display(Scroll::Delta(delta));
}

/// The number of columns, from `Dimensions::columns`.
#[verifier::external_body]
fn term_cols(term: &Term<VoidListener>) -> (n: usize)
    ensures
        n == term_columns(*term),
{
    term.columns()
}

/// The number of visible rows, from `Dimensions::screen_lines`. Every
/// visible row has as many cells as the terminal has columns.
#[verifier::external_body]
fn term_screen_lines(term: &Term<VoidListener>) -> (n: usize)
    ensures
        n == term_viewport(*term).len(),
        forall|r: int| 0 <= r < n ==> (#[trigger] term_viewport(*term)[r]).len() == term_columns(*term),
{
    term.screen_lines()
}

/// The display offset of the grid, from `Grid::display_offset`.
#[verifier::external_body]
fn term_display_offset(term: &Term<VoidListener>) -> (n: usize)
    ensures
        n == term_offset(*term),
{
    term.grid().display_offset()
}

/// The cursor's column and line, read from the grid's cursor point.
#[verifier::external_body]
fn term_cursor_point(term: &Term<VoidListener>) -> (p: (usize, i32))
    ensures
        p == term_cursor(*term),
{
    let point = term.grid().cursor.point;
    (point.column.0, point.line.0)
}

/// Reads the damage with `Term::damage`: `None` where everything is damaged,
/// else the line of each damaged row in the order of the crate's iterator.
/// Reading changes the damage record only: cells, size, cursor and offset
/// stay, and the record notes where the cursor is. The terminal has one row
/// at least: the report marks the cursor's.
#[verifier::external_body]
fn term_take_damage(term: &mut Term<VoidListener>) -> (damage: Option<Vec<usize>>)
    requires
        term_sized(*old(term)),
    ensures
        term_noted_line(*final(term)) == term_cursor(*old(term)).1,
        match damage {
            None => term_damage(*old(term)) is None,
            Some(rows) => term_damage(*old(term)) == Some(rows@),
        },
        term_viewport(*final(term)) == term_viewport(*old(term)),
        term_columns(*final(term)) == term_columns(*old(term)),
        term_cursor(*final(term)) == term_cursor(*old(term)),
        term_offset(*final(term)) == term_offset(*old(term)),
{
    match term.damage() {
        TermDamage::Full => None,
        TermDamage::Partial(lines) => Some(lines.map(|d| d.line).collect()),
    }
}

/// Forgets the damage with `Term::reset_damage`. Cells, size, cursor and
/// offset stay. The next report is of everything, which insert mode makes
/// it, or of no rows but the cursor's and the one where the record last
/// noted the cursor, which `Term::damage` marks before it reports.
#[verifier::external_body]
fn term_reset_damage(term: &mut Term<VoidListener>)
    ensures
        term_viewport(*final(term)) == term_viewport(*old(term)),
        term_columns(*final(term)) == term_columns(*old(term)),
        term_cursor(*final(term)) == term_cursor(*old(term)),
        term_offset(*final(term)) == term_offset(*old(term)),
        term_noted_line(*final(term)) == term_noted_line(*old(term)),
        at_most_cursor_rows(*final(term)),
{
    term.reset_damage();
}

/// The character of the visible cell at `line` and `col`, read from the grid
/// at the point that `viewport_to_point` gives for the display offset.
#[verifier::external_body]
fn term_cell_char(term: &Term<VoidListener>, line: usize, col: usize) -> (c: char)
    requires
        line < term_viewport(*term).len(),
        col < term_viewport(*term)[line as int].len(),
    ensures
        c == term_viewport(*term)[line as int][col as int].c,
{
    let p = viewport_to_point(term.grid().display_offset(), Point::new(line, Column(col)));
    term.grid()[p].c
}

/// The foreground of the visible cell at `line` and `col`, variant for
/// variant.
#[verifier::external_body]
fn term_cell_fg(term: &Term<VoidListener>, line: usize, col: usize) -> (c: CellColor)
    requires
        line < term_viewport(*term).len(),
        col < term_viewport(*term)[line as int].len(),
    ensures
        c == term_viewport(*term)[line as int][col as int].fg,
{
    let p = viewport_to_point(term.grid().display_offset(), Point::new(line, Column(col)));
    match term.grid()[p].fg {
        Color::Named(n) => CellColor::Named(n as u16),
        Color::Spec(rgb) => CellColor::Spec(rgb.r, rgb.g, rgb.b),
        Color::Indexed(i) => CellColor::Indexed(i),
    }
}

/// The background of the visible cell at `line` and `col`, variant for
/// variant.
#[verifier::external_body]
fn term_cell_bg(term: &Term<VoidListener>, line: usize, col: usize) -> (c: CellColor)
    requires
        line < term_viewport(*term).len(),
        col < term_viewport(*term)[line as int].len(),
    ensures
        c == term_viewport(*term)[line as int][col as int].bg,
{
    let p = viewport_to_point(term.grid().display_offset(), Point::new(line, Column(col)));
    match term.grid()[p].bg {
        Color::Named(n) => CellColor::Named(n as u16),
        Color::Spec(rgb) => CellColor::Spec(rgb.r, rgb.g, rgb.b),
        Color::Indexed(i) => CellColor::Indexed(i),
    }
}

/// The attribute bits of the visible cell at `line` and `col`.
#[verifier::external_body]
fn term_cell_flags(term: &Term<VoidListener>, line: usize, col: usize) -> (bits: u16)
    requires
        line < term_viewport(*term).len(),
        col < term_viewport(*term)[line as int].len(),
    ensures
        bits == term_viewport(*term)[line as int][col as int].flags,
{
    let p = viewport_to_point(term.grid().display_offset(), Point::new(line, Column(col)));
    term.grid()[p].flags.bits()
}

/// The cell that the renderer gets for a cell of the terminal: colours
/// resolved through the theme, attributes read from their bits.
pub open spec fn resolved_cell(raw: RawCell, theme: Theme) -> GridCell {
    GridCell {
        c: raw.c,
        fg: resolved_color(raw.fg, theme),
        bg: resolved_color(raw.bg, theme),
        bold: raw.flags & FLAG_BOLD != 0,
        italic: raw.flags & FLAG_ITALIC != 0,
        underline: raw.flags & FLAG_UNDERLINE != 0,
        wide_spacer: raw.flags & FLAG_WIDE_CHAR_SPACER != 0,
    }
}

pub open spec fn resolved_row(raw: Seq<RawCell>, theme: Theme) -> Seq<GridCell> {
    raw.map_values(|c: RawCell| resolved_cell(c, theme))
}

pub open spec fn resolved_grid(raw: Seq<Seq<RawCell>>, theme: Theme) -> Seq<Seq<GridCell>> {
    raw.map_values(|r: Seq<RawCell>| resolved_row(r, theme))
}

/// The cached grid does not have `rows` rows of `cols` cells each.
pub open spec fn shape_differs(out: Seq<GridLine>, rows: nat, cols: nat) -> bool {
    out.len() != rows || exists|i: int| 0 <= i < out.len() && (#[trigger] out[i])@.len() != cols
}

/// The reported rows that lie in the viewport, in the order of the report.
pub open spec fn visible_rows(damage: Seq<usize>, rows: nat) -> Seq<usize>
    decreases damage.len(),
{
    if damage.len() == 0 {
        Seq::empty()
    } else {
        let before = visible_rows(damage.drop_last(), rows);
        if damage.last() < rows {
            before.push(damage.last())
        } else {
            before
        }
    }
}

/// The cursor as `(col, row)` in 16 bits each.
pub open spec fn cursor_cell(point: (usize, i32)) -> (u16, u16) {
    ((point.0 % 65536) as u16, ((point.1 + 2147483648) % 65536) as u16)
}

/// Every row index below `n`, ascending.
pub open spec fn all_rows(n: nat) -> Seq<usize> {
    Seq::new(n, |i: int| i as usize)
}

fn read_row(term: &Term<VoidListener>, theme: &Theme, line: usize, cols: usize) -> (row: GridLine)
    requires
        line < term_viewport(*term).len(),
        cols == term_viewport(*term)[line as int].len(),
    ensures
        row@ == resolved_row(term_viewport(*term)[line as int], *theme),
{
    let mut cells: Vec<GridCell> = Vec::new();
    let ghost raw = term_viewport(*term)[line as int];
    let mut col: usize = 0;
    while col < cols
        invariant
            col <= cols,
            line < term_viewport(*term).len(),
            raw == term_viewport(*term)[line as int],
            cols == raw.len(),
            cells@.len() == col,
            forall|k: int| 0 <= k < col ==> cells@[k] == resolved_cell(raw[k], *theme),
        decreases cols - col,
    {
        let c = term_cell_char(term, line, col);
        let fg = term_cell_fg(term, line, col);
        let bg = term_cell_bg(term, line, col);
        let flags = term_cell_flags(term, line, col);
        cells.push(
            GridCell {
                c,
                fg: alacritty_color_to_rgb(&fg, theme),
                bg: alacritty_color_to_rgb(&bg, theme),
                bold: flags & FLAG_BOLD != 0,
                italic: flags & FLAG_ITALIC != 0,
                underline: flags & FLAG_UNDERLINE != 0,
                wide_spacer: flags & FLAG_WIDE_CHAR_SPACER != 0,
            },
        );
        col += 1;
    }
    assert(cells@ =~= resolved_row(raw, *theme));
    GridLine { cells }
}

/// The whole viewport, colours resolved through the theme.
pub fn extract_grid_full_from_term(term: &Term<VoidListener>, theme: &Theme) -> (lines: Vec<
    GridLine,
>)
    ensures
        grid_view(lines@) == resolved_grid(term_viewport(*term), *theme),
        rows_filled(*term),
{
    let num_lines = term_screen_lines(term);
    let num_cols = term_cols(term);
    let mut lines: Vec<GridLine> = Vec::new();
    let mut line_idx: usize = 0;
    while line_idx < num_lines
        invariant
            line_idx <= num_lines,
            num_lines == term_viewport(*term).len(),
            num_cols == term_columns(*term),
            forall|r: int|
                0 <= r < num_lines ==> (#[trigger] term_viewport(*term)[r]).len() == num_cols,
            lines@.len() == line_idx,
            forall|r: int|
                0 <= r < line_idx ==> (#[trigger] lines@[r])@ == resolved_row(
                    term_viewport(*term)[r],
                    *theme,
                ),
        decreases num_lines - line_idx,
    {
        let row = read_row(term, theme, line_idx, num_cols);
        lines.push(row);
        line_idx += 1;
    }
    assert(grid_view(lines@) =~= resolved_grid(term_viewport(*term), *theme));
    lines
}

/// Whether a copy of the viewport has not `rows` rows of `cols` cells each.
pub fn shape_changed(out: &Vec<GridLine>, rows: usize, cols: usize) -> (b: bool)
    ensures
        b == shape_differs(out@, rows as nat, cols as nat),
{
    if out.len() != rows {
        return true;
    }
    let mut i: usize = 0;
    while i < out.len()
        invariant
            i <= out@.len(),
            forall|k: int| 0 <= k < i ==> (#[trigger] out@[k])@.len() == cols,
        decreases out@.len() - i,
    {
        if out[i].cells.len() != cols {
            return true;
        }
        i += 1;
    }
    false
}

fn rows_in_view(damage: &Vec<usize>, rows: usize) -> (r: Vec<usize>)
    ensures
        r@ == visible_rows(damage@, rows as nat),
{
    let mut r: Vec<usize> = Vec::new();
    let mut i: usize = 0;
    while i < damage.len()
        invariant
            i <= damage@.len(),
            r@ == visible_rows(damage@.take(i as int), rows as nat),
        decreases damage@.len() - i,
    {
        assert(damage@.take(i + 1).drop_last() =~= damage@.take(i as int));
        if damage[i] < rows {
            r.push(damage[i]);
        }
        i += 1;
    }
    assert(damage@.take(i as int) =~= damage@);
    r
}

/// A row is among the visible rows exactly if it was reported and lies in
/// the viewport.
pub proof fn lemma_visible_rows(damage: Seq<usize>, rows: nat)
    ensures
        forall|r: usize|
            #[trigger] visible_rows(damage, rows).contains(r) <==> damage.contains(r) && r < rows,
    decreases damage.len(),
{
    if damage.len() > 0 {
        let d = damage.drop_last();
        lemma_visible_rows(d, rows);
        let v = visible_rows(damage, rows);
        let w = visible_rows(d, rows);
        assert forall|r: usize| #[trigger] v.contains(r) <==> damage.contains(r) && r < rows by {
            if v.contains(r) {
                let i = choose|i: int| 0 <= i < v.len() && v[i] == r;
                if i < w.len() {
                    assert(w[i] == r);
                    assert(w.contains(r));
                    let j = choose|j: int| 0 <= j < d.len() && d[j] == r;
                    assert(damage[j] == r);
                } else {
                    assert(damage[damage.len() - 1] == r);
                }
            }
            if damage.contains(r) && r < rows {
                let j = choose|j: int| 0 <= j < damage.len() && damage[j] == r;
                if j < d.len() {
                    assert(d[j] == r);
                    assert(w.contains(r));
                    let i = choose|i: int| 0 <= i < w.len() && w[i] == r;
                    assert(v[i] == r);
                } else {
                    assert(v[v.len() - 1] == r);
                }
            }
        }
    }
}

/// Brings the cached viewport `out` up to date and says what changed.
///
/// Everything is rewritten where the terminal reports full damage or the
/// cache has not the terminal's shape; the delta then lists every row.
/// Otherwise the damaged rows inside the viewport are rewritten, the others
/// stay, and the delta lists the rewritten rows in the order of the report.
/// The damage is reset; the terminal's cells are not touched, and until it
/// is written to it has no row to report but the cursor's. Every row of the
/// viewport, and so every row written, has as many cells as the terminal has
/// columns.
pub fn extract_grid_delta_from_term(
    term: &mut Term<VoidListener>,
    theme: &Theme,
    out: &mut Vec<GridLine>,
) -> (delta: GridDelta)
    requires
        term_sized(*old(term)),
    ensures
        term_sized(*final(term)),
        settled(*final(term)),
        rows_filled(*old(term)),
        term_viewport(*final(term)) == term_viewport(*old(term)),
        term_columns(*final(term)) == term_columns(*old(term)),
        term_cursor(*final(term)) == term_cursor(*old(term)),
        term_offset(*final(term)) == term_offset(*old(term)),
        delta.full == (shape_differs(
            old(out)@,
            term_viewport(*old(term)).len(),
            term_columns(*old(term)),
        ) || term_damage(*old(term)) is None),
        delta.full ==> grid_view(final(out)@) == resolved_grid(term_viewport(*old(term)), *theme)
            && delta.dirty_rows@ == all_rows(term_viewport(*old(term)).len()),
        !delta.full ==> delta.dirty_rows@ == visible_rows(
            term_damage(*old(term))->Some_0,
            term_viewport(*old(term)).len(),
        ) && final(out)@.len() == old(out)@.len() && forall|r: int|
            0 <= r < old(out)@.len() ==> (#[trigger] final(out)@[r])@ == if delta.dirty_rows@.contains(
                r as usize,
            ) {
                resolved_row(term_viewport(*old(term))[r], *theme)
            } else {
                old(out)@[r]@
            },
{
    let num_lines = term_screen_lines(term);
    let num_cols = term_cols(term);
    let changed = shape_changed(out, num_lines, num_cols);
    let ghost vp = term_viewport(*term);
    let damage = term_take_damage(term);
    let mut delta = GridDelta::empty();
    match damage {
        None => {
            delta.full = true;
        },
        Some(lines) => {
            delta.dirty_rows = rows_in_view(&lines, num_lines);
        },
    }
    if changed {
        delta.full = true;
    }
    if delta.full {
        let lines = extract_grid_full_from_term(term, theme);
        *out = lines;
        let mut all: Vec<usize> = Vec::new();
        let mut i: usize = 0;
        while i < num_lines
            invariant
                i <= num_lines,
                all@ == all_rows(i as nat),
            decreases num_lines - i,
        {
            all.push(i);
            assert(all@ =~= all_rows((i + 1) as nat));
            i += 1;
        }
        delta.dirty_rows = all;
    } else {
        let ghost before = out@;
        let ghost dirty = delta.dirty_rows@;
        proof {
            lemma_visible_rows(term_damage(*old(term))->Some_0, num_lines as nat);
            assert forall|j: int| 0 <= j < dirty.len() implies dirty[j] < num_lines by {
                assert(dirty.contains(dirty[j]));
            }
        }
        let mut k: usize = 0;
        while k < delta.dirty_rows.len()
            invariant
                k <= dirty.len(),
                dirty == delta.dirty_rows@,
                !delta.full,
                vp == term_viewport(*term),
                num_lines == vp.len(),
                num_cols == term_columns(*term),
                before.len() == num_lines,
                out@.len() == before.len(),
                forall|r: int| 0 <= r < vp.len() ==> (#[trigger] vp[r]).len() == num_cols,
                forall|j: int| 0 <= j < dirty.len() ==> dirty[j] < num_lines,
                forall|r: int|
                    0 <= r < before.len() ==> (#[trigger] out@[r])@ == if dirty.take(k as int).contains(
                        r as usize,
                    ) {
                        resolved_row(vp[r], *theme)
                    } else {
                        before[r]@
                    },
            decreases dirty.len() - k,
        {
            let line_idx = delta.dirty_rows[k];
            assert(dirty.contains(line_idx));
            let row = read_row(term, theme, line_idx, num_cols);
            let ghost prev = out@;
            out.set(line_idx, row);
            proof {
                let t0 = dirty.take(k as int);
                let t1 = dirty.take(k + 1);
                assert(t1 =~= t0.push(line_idx));
                assert forall|r: int| 0 <= r < before.len() implies (#[trigger] out@[r])@ == if t1.contains(
                    r as usize,
                ) {
                    resolved_row(vp[r], *theme)
                } else {
                    before[r]@
                } by {
                    if r == line_idx {
                        assert(t1[k as int] == line_idx);
                    } else {
                        assert(out@[r] == prev[r]);
                        if t0.contains(r as usize) {
                            let j = choose|j: int| 0 <= j < t0.len() && t0[j] == r as usize;
                            assert(t1[j] == r as usize);
                        }
                        if t1.contains(r as usize) {
                            let j = choose|j: int| 0 <= j < t1.len() && t1[j] == r as usize;
                            assert(j < k);
                            assert(t0[j] == r as usize);
                        }
                    }
                }
            }
            k += 1;
        }
        assert(dirty.take(k as int) =~= dirty);
    }
    term_reset_damage(term);
    delta
}


/// The terminal with its parser.
pub struct TermInner {
    pub term: Term<VoidListener>,
    pub parser: Parser,
}

/// What can be asked of a terminal.
#[derive(Debug)]
pub enum ControlCommand {
    /// Bytes from the child process.
    Input(Vec<u8>),
    /// New size, columns then rows.
    Resize(u16, u16),
    /// Scroll by so many lines, positive into the history.
    Scroll(i32),
    QuerySize,
    QueryCursor,
    QueryDisplayOffset,
    ExtractFull,
    ExtractDelta,
    Shutdown,
}

/// What an incremental extraction hands to the renderer's side.
#[derive(Debug)]
pub struct DeltaExtractReply {
    pub delta: GridDelta,
    /// The rewritten rows with their indices, in the order of the delta.
    pub rows: Vec<(usize, GridLine)>,
    /// The cursor as `(col, row)`.
    pub cursor: (u16, u16),
}

/// The answer to a command.
#[derive(Debug)]
pub enum ControlReply {
    /// The command asks for no answer.
    Done,
    /// Columns and rows.
    Size(u16, u16),
    /// Column and row of the cursor.
    Cursor(u16, u16),
    DisplayOffset(usize),
    Full(Vec<GridLine>),
    Delta(DeltaExtractReply),
    /// The terminal is to be shut down.
    Shutdown,
}

/// The rows of a reply as plain sequences.
pub open spec fn rows_view(rows: Seq<(usize, GridLine)>) -> Seq<(usize, Seq<GridCell>)> {
    rows.map_values(|p: (usize, GridLine)| (p.0, p.1@))
}

/// The listed rows of a grid, each with its index.
pub open spec fn picked_rows(grid: Seq<GridLine>, rows: Seq<usize>) -> Seq<(usize, Seq<GridCell>)> {
    Seq::new(rows.len(), |i: int| (rows[i], grid[rows[i] as int]@))
}

/// A grid in which the given rows have been stored one after the other; a
/// row past the end first extends the grid with empty lines.
pub open spec fn stored_rows(base: Seq<Seq<GridCell>>, rows: Seq<(usize, Seq<GridCell>)>) -> Seq<
    Seq<GridCell>,
>
    decreases rows.len(),
{
    if rows.len() == 0 {
        base
    } else {
        let before = stored_rows(base, rows.drop_last());
        let (idx, line) = rows.last();
        let wide = if idx < before.len() {
            before
        } else {
            before + Seq::new((idx + 1 - before.len()) as nat, |i: int| Seq::<GridCell>::empty())
        };
        wide.update(idx as int, line)
    }
}

fn cursor_position_of(term: &Term<VoidListener>) -> (c: (u16, u16))
    ensures
        c == cursor_cell(term_cursor(*term)),
{
    let p = term_cursor_point(term);
    let col: u16 = (p.0 % 65536) as u16;
    let row: u16 = ((p.1 as i64 + 2147483648) % 65536) as u16;
    (col, row)
}

fn pick_rows(cache: &Vec<GridLine>, rows: &Vec<usize>) -> (picked: Vec<(usize, GridLine)>)
    requires
        forall|i: int| 0 <= i < rows@.len() ==> rows@[i] < cache@.len(),
    ensures
        rows_view(picked@) == picked_rows(cache@, rows@),
{
    let mut picked: Vec<(usize, GridLine)> = Vec::new();
    let mut i: usize = 0;
    while i < rows.len()
        invariant
            i <= rows@.len(),
            forall|k: int| 0 <= k < rows@.len() ==> rows@[k] < cache@.len(),
            picked@.len() == i,
            forall|k: int|
                0 <= k < i ==> (#[trigger] picked@[k]).0 == rows@[k] && picked@[k].1@
                    == cache@[rows@[k] as int]@,
        decreases rows@.len() - i,
    {
        let row = rows[i];
        picked.push((row, cache[row].duplicate()));
        i += 1;
    }
    assert(rows_view(picked@) =~= picked_rows(cache@, rows@));
    picked
}

/// Carries out one command on the terminal and gives the answer. The result
/// is `true` for the shutdown command alone.
///
/// Of input, resize and scroll see [`changed_as_asked`]. The queries answer
/// from the terminal as it is.
/// The two extractions leave the terminal's cells as they are; the
/// incremental one brings `render_cache` up to date and replies with its
/// delta, the rewritten rows and the cursor.
pub fn handle_control_command(
    cmd: ControlCommand,
    inner: &mut TermInner,
    theme: &Theme,
    render_cache: &mut Vec<GridLine>,
) -> (r: (bool, ControlReply))
    requires
        term_sized(old(inner).term),
    ensures
        term_sized(final(inner).term),
        r.0 == (cmd is Shutdown),
        match cmd {
            ControlCommand::Input(_) | ControlCommand::Resize(_, _) | ControlCommand::Scroll(_) => r.1 is Done
                && final(render_cache)@ == old(render_cache)@ && changed_as_asked(
                cmd,
                *old(inner),
                final(inner).term,
            ),
            ControlCommand::QuerySize => r.1 == ControlReply::Size(
                (term_columns(old(inner).term) % 65536) as u16,
                (term_viewport(old(inner).term).len() % 65536) as u16,
            ) && final(render_cache)@ == old(render_cache)@ && final(inner).term == old(inner).term,
            ControlCommand::QueryCursor => r.1 == ControlReply::Cursor(
                cursor_cell(term_cursor(old(inner).term)).0,
                cursor_cell(term_cursor(old(inner).term)).1,
            ) && final(render_cache)@ == old(render_cache)@ && final(inner).term == old(inner).term,
            ControlCommand::QueryDisplayOffset => r.1 == ControlReply::DisplayOffset(
                term_offset(old(inner).term),
            ) && final(render_cache)@ == old(render_cache)@ && final(inner).term == old(inner).term,
            ControlCommand::ExtractFull => r.1 is Full && grid_view(r.1->Full_0@) == resolved_grid(
                term_viewport(old(inner).term),
                *theme,
            ) && rows_filled(old(inner).term) && final(render_cache)@ == old(render_cache)@ && final(inner).term == old(inner).term,
            ControlCommand::ExtractDelta => {
                &&& r.1 is Delta
                &&& settled(final(inner).term)
                &&& term_viewport(final(inner).term) == term_viewport(old(inner).term)
                &&& term_columns(final(inner).term) == term_columns(old(inner).term)
                &&& delta_matches(
                    old(render_cache)@,
                    final(render_cache)@,
                    old(inner).term,
                    *theme,
                    r.1->Delta_0.delta,
                )
                &&& rows_view(r.1->Delta_0.rows@) == picked_rows(
                    final(render_cache)@,
                    r.1->Delta_0.delta.dirty_rows@,
                )
                &&& r.1->Delta_0.cursor == cursor_cell(term_cursor(old(inner).term))
            },
            ControlCommand::Shutdown => r.1 is Shutdown && final(render_cache)@ == old(render_cache)@ && final(inner).term == old(inner).term,
        },
{
    match cmd {
        ControlCommand::Input(data) => {
            term_advance(&mut inner.term, &mut inner.parser, data.as_slice());
            (false, ControlReply::Done)
        },
        ControlCommand::Resize(cols, rows) => {
            resize_term(&mut inner.term, cols, rows);
            (false, ControlReply::Done)
        },
        ControlCommand::Scroll(delta) => {
            scroll_term(&mut inner.term, delta);
            (false, ControlReply::Done)
        },
        ControlCommand::QuerySize => {
            let cols = term_cols(&inner.term);
            let rows = term_screen_lines(&inner.term);
            (false, ControlReply::Size((cols % 65536) as u16, (rows % 65536) as u16))
        },
        ControlCommand::QueryCursor => {
            let c = cursor_position_of(&inner.term);
            (false, ControlReply::Cursor(c.0, c.1))
        },
        ControlCommand::QueryDisplayOffset => {
            (false, ControlReply::DisplayOffset(term_display_offset(&inner.term)))
        },
        ControlCommand::ExtractFull => {
            let lines = extract_grid_full_from_term(&inner.term, theme);
            (false, ControlReply::Full(lines))
        },
        ControlCommand::ExtractDelta => {
            let ghost rows_before = term_viewport(inner.term).len();
            let delta = extract_grid_delta_from_term(&mut inner.term, theme, render_cache);
            proof {
                lemma_visible_rows(term_damage(old(inner).term)->Some_0, rows_before);
                assert forall|i: int| 0 <= i < delta.dirty_rows@.len() implies delta.dirty_rows@[i]
                    < render_cache@.len() by {
                    if delta.full {
                        assert(grid_view(render_cache@).len() == render_cache@.len());
                    } else {
                        assert(delta.dirty_rows@.contains(delta.dirty_rows@[i]));
                    }
                }
            }
            let rows = pick_rows(render_cache, &delta.dirty_rows);
            let cursor = cursor_position_of(&inner.term);
            (false, ControlReply::Delta(DeltaExtractReply { delta, rows, cursor }))
        },
        ControlCommand::Shutdown => (true, ControlReply::Shutdown),
    }
}

/// What an incremental extraction does to the cache `before`, given the
/// terminal as it was: see [`extract_grid_delta_from_term`].
pub open spec fn delta_matches(
    before: Seq<GridLine>,
    after: Seq<GridLine>,
    term: Term<VoidListener>,
    theme: Theme,
    delta: GridDelta,
) -> bool {
    &&& rows_filled(term)
    &&& delta.full == (shape_differs(before, term_viewport(term).len(), term_columns(term))
        || term_damage(term) is None)
    &&& delta.full ==> grid_view(after) == resolved_grid(term_viewport(term), theme)
        && delta.dirty_rows@ == all_rows(term_viewport(term).len())
    &&& !delta.full ==> delta.dirty_rows@ == visible_rows(
        term_damage(term)->Some_0,
        term_viewport(term).len(),
    ) && after.len() == before.len() && forall|r: int|
        0 <= r < before.len() ==> (#[trigger] after[r])@ == if delta.dirty_rows@.contains(r as usize) {
            resolved_row(term_viewport(term)[r], theme)
        } else {
            before[r]@
        }
}

/// Stores the rows of a reply in the renderer's copy of the viewport, which
/// is emptied first where the delta is full, and hands on the delta and the
/// cursor.
pub fn apply_delta_reply(reply: DeltaExtractReply, out: &mut Vec<GridLine>) -> (r: (
    GridDelta,
    (u16, u16),
))
    ensures
        r.0 == reply.delta,
        r.1 == reply.cursor,
        grid_view(final(out)@) == stored_rows(
            if reply.delta.full {
                Seq::empty()
            } else {
                grid_view(old(out)@)
            },
            rows_view(reply.rows@),
        ),
{
    let DeltaExtractReply { delta, rows, cursor } = reply;
    if delta.full {
        out.clear();
        assert(grid_view(out@) =~= Seq::<Seq<GridCell>>::empty());
    }
    let ghost base = grid_view(out@);
    let ghost all = rows_view(rows@);
    let mut rows = rows;
    let count = rows.len();
    let ghost total = rows@.len();
    assert(total == count);
    let mut rest: Vec<(usize, GridLine)> = Vec::new();
    // Reverse once so that rows can be taken from the back in their order.
    while rows.len() > 0
        invariant
            rows@.len() + rest@.len() == total,
            total == all.len(),
            forall|k: int| 0 <= k < rows@.len() ==> (#[trigger] rows@[k]).0 == all[k].0 && rows@[k].1@ == all[k].1,
            forall|k: int|
                0 <= k < rest@.len() ==> (#[trigger] rest@[k]).0 == all[total - 1 - k].0
                    && rest@[k].1@ == all[total - 1 - k].1,
        decreases rows@.len(),
    {
        let item = rows.pop().unwrap();
        rest.push(item);
    }
    let mut done: usize = 0;
    assert(all.take(0) =~= Seq::empty());
    while rest.len() > 0
        invariant
            done + rest@.len() == total,
            total == all.len(),
            total <= usize::MAX,
            forall|k: int|
                0 <= k < rest@.len() ==> (#[trigger] rest@[k]).0 == all[total - 1 - k].0
                    && rest@[k].1@ == all[total - 1 - k].1,
            grid_view(out@) == stored_rows(base, all.take(done as int)),
        decreases rest@.len(),
    {
        let (row_idx, line) = rest.pop().unwrap();
        let ghost before = grid_view(out@);
        let ghost start = out@.len();
        assert(all.take(done + 1).drop_last() =~= all.take(done as int));
        assert(all.take(done + 1).last() == all[done as int]);
        while out.len() <= row_idx
            invariant
                start <= out@.len(),
                start <= row_idx ==> out@.len() <= row_idx + 1,
                start > row_idx ==> out@.len() == start,
                grid_view(out@) == before + Seq::new(
                    (out@.len() - start) as nat,
                    |i: int| Seq::<GridCell>::empty(),
                ),
            decreases row_idx + 1 - out@.len(),
        {
            let ghost prev = grid_view(out@);
            out.push(GridLine::new());
            assert(grid_view(out@) =~= prev.push(Seq::<GridCell>::empty()));
            assert(grid_view(out@) =~= before + Seq::new(
                (out@.len() - start) as nat,
                |i: int| Seq::<GridCell>::empty(),
            ));
        }
        let ghost wide = grid_view(out@);
        assert(start > row_idx ==> wide =~= before);
        out.set(row_idx, line);
        assert(grid_view(out@) =~= wide.update(row_idx as int, line@));
        done += 1;
    }
    assert(all.take(done as int) =~= all);
    (delta, cursor)
}


/// A terminal that is driven by direct calls: each call is one command,
/// carried out at once.
pub struct TerminalEmulator {
    pub inner: TermInner,
    /// The cache from which commands are answered: see
    /// [`handle_control_command`].
    pub render_cache: Vec<GridLine>,
}

impl TerminalEmulator {
    /// The terminal of the outside crate.
    pub open spec fn term(&self) -> Term<VoidListener> {
        self.inner.term
    }

    /// The terminal has two columns and one row at least.
    pub open spec fn wf(&self) -> bool {
        term_sized(self.term())
    }

    /// A terminal of `cols` columns and `rows` rows, or of two columns and
    /// one row where less is asked for; nothing extracted yet.
    pub fn new(cols: u16, rows: u16) -> (e: Self)
        ensures
            e.wf(),
            term_viewport(e.term()).len() == rows_for(rows),
            term_columns(e.term()) == columns_for(cols),
            e.render_cache@.len() == 0,
    {
        let cols = if cols < MIN_COLUMNS {
            MIN_COLUMNS
        } else {
            cols
        };
        let rows = if rows < MIN_ROWS {
            MIN_ROWS
        } else {
            rows
        };
        TerminalEmulator {
            inner: TermInner { term: term_new(cols, rows), parser: parser_new() },
            render_cache: Vec::new(),
        }
    }

    /// Whether the terminal has two columns and one row at least.
    pub fn is_sized(&self) -> (b: bool)
        ensures
            b == self.wf(),
    {
        term_is_sized(&self.inner.term)
    }

    /// Feeds bytes from the child process to the terminal: the viewport then
    /// shows what the parser makes of them, and the size stays. No bytes, no
    /// change.
    pub fn process(&mut self, data: &[u8])
        requires
            old(self).wf(),
        ensures
            final(self).wf(),
            final(self).render_cache@ == old(self).render_cache@,
            data@.len() == 0 ==> final(self).term() == old(self).term(),
            data@.len() > 0 ==> fed(old(self).inner, final(self).term(), data@),
    {
        if data.len() == 0 {
            return ;
        }
        let theme = Theme::default();
        let bytes = vstd::slice::slice_to_vec(data);
        let _ = handle_control_command(
            ControlCommand::Input(bytes),
            &mut self.inner,
            &theme,
            &mut self.render_cache,
        );
    }

    /// Columns and rows, each in 16 bits.
    pub fn size(&self) -> (r: (u16, u16))
        ensures
            r.0 == (term_columns(self.term()) % 65536) as u16,
            r.1 == (term_viewport(self.term()).len() % 65536) as u16,
    {
        let cols = term_cols(&self.inner.term);
        let rows = term_screen_lines(&self.inner.term);
        ((cols % 65536) as u16, (rows % 65536) as u16)
    }

    /// Gives the terminal `cols` columns and `rows` rows, two columns and one
    /// row at least.
    pub fn resize(&mut self, cols: u16, rows: u16)
        requires
            old(self).wf(),
        ensures
            final(self).wf(),
            final(self).render_cache@ == old(self).render_cache@,
            resized(old(self).term(), final(self).term(), cols, rows),
    {
        let theme = Theme::default();
        let _ = handle_control_command(
            ControlCommand::Resize(cols, rows),
            &mut self.inner,
            &theme,
            &mut self.render_cache,
        );
    }

    /// The cursor as `(col, row)`.
    pub fn cursor_position(&self) -> (c: (u16, u16))
        ensures
            c == cursor_cell(term_cursor(self.term())),
    {
        cursor_position_of(&self.inner.term)
    }

    /// Scrolls by `delta` lines, positive into the history, as far as the
    /// history goes.
    pub fn scroll(&mut self, delta: i32)
        requires
            old(self).wf(),
        ensures
            final(self).wf(),
            final(self).render_cache@ == old(self).render_cache@,
            scrolled(old(self).term(), final(self).term(), delta),
    {
        let theme = Theme::default();
        let _ = handle_control_command(
            ControlCommand::Scroll(delta),
            &mut self.inner,
            &theme,
            &mut self.render_cache,
        );
    }

    /// How many lines the viewport is scrolled into the history.
    pub fn display_offset(&self) -> (n: usize)
        ensures
            n == term_offset(self.term()),
    {
        term_display_offset(&self.inner.term)
    }

    /// The whole viewport, colours resolved through the theme: one row for
    /// each row of the terminal, each of as many cells as the terminal has
    /// columns.
    pub fn extract_grid(&self, theme: &Theme) -> (lines: Vec<GridLine>)
        ensures
            grid_view(lines@) == resolved_grid(term_viewport(self.term()), *theme),
            rows_filled(self.term()),
    {
        extract_grid_full_from_term(&self.inner.term, theme)
    }

    /// Brings the caller's copy `out` of the viewport up to date; see
    /// [`TerminalEmulator::extract_grid_delta_with_cursor_into`].
    pub fn extract_grid_delta_into(&mut self, theme: &Theme, out: &mut Vec<GridLine>) -> (delta:
        GridDelta)
        requires
            old(self).wf(),
        ensures
            final(self).wf(),
            final(self).render_cache@ == old(self).render_cache@,
            term_viewport(final(self).term()) == term_viewport(old(self).term()),
            term_columns(final(self).term()) == term_columns(old(self).term()),
            term_cursor(final(self).term()) == term_cursor(old(self).term()),
            term_offset(final(self).term()) == term_offset(old(self).term()),
            settled(final(self).term()),
            delta_matches(old(out)@, final(out)@, old(self).term(), *theme, delta),
    {
        self.extract_grid_delta_with_cursor_into(theme, out).0
    }

    /// Brings the caller's copy `out` of the viewport up to date, following
    /// the damage, and returns what changed and the cursor. A copy that has
    /// not the terminal's shape, as before the first extraction or after a
    /// change of size, is written anew as a whole; else the damaged rows
    /// alone are rewritten. Every row written has as many cells as the
    /// terminal has columns.
    pub fn extract_grid_delta_with_cursor_into(
        &mut self,
        theme: &Theme,
        out: &mut Vec<GridLine>,
    ) -> (r: (GridDelta, (u16, u16)))
        requires
            old(self).wf(),
        ensures
            final(self).wf(),
            final(self).render_cache@ == old(self).render_cache@,
            term_viewport(final(self).term()) == term_viewport(old(self).term()),
            term_columns(final(self).term()) == term_columns(old(self).term()),
            term_cursor(final(self).term()) == term_cursor(old(self).term()),
            term_offset(final(self).term()) == term_offset(old(self).term()),
            settled(final(self).term()),
            delta_matches(old(out)@, final(out)@, old(self).term(), *theme, r.0),
            r.1 == cursor_cell(term_cursor(old(self).term())),
    {
        let delta = extract_grid_delta_from_term(&mut self.inner.term, theme, out);
        let cursor = cursor_position_of(&self.inner.term);
        (delta, cursor)
    }
}

/// An extraction from a settled terminal into a copy of its shape changes
/// no row but the cursor's, unless the terminal reports everything.
pub proof fn lemma_settled_extraction(
    before: Seq<GridLine>,
    after: Seq<GridLine>,
    term: Term<VoidListener>,
    theme: Theme,
    delta: GridDelta,
)
    requires
        settled(term),
        delta_matches(before, after, term, theme, delta),
        !delta.full,
    ensures
        forall|i: int|
            0 <= i < delta.dirty_rows@.len() ==> #[trigger] delta.dirty_rows@[i] == term_cursor(term).1
                + term_offset(term),
{
    let rows = term_damage(term)->Some_0;
    lemma_visible_rows(rows, term_viewport(term).len());
    assert forall|i: int| 0 <= i < delta.dirty_rows@.len() implies #[trigger] delta.dirty_rows@[i]
        == term_cursor(term).1 + term_offset(term) by {
        let r = delta.dirty_rows@[i];
        assert(delta.dirty_rows@.contains(r));
        assert(rows.contains(r));
        let j = choose|j: int| 0 <= j < rows.len() && rows[j] == r;
        assert(rows[j] == term_cursor(term).1 + term_offset(term));
    }
}

/// After a full extraction every row of the copy has as many cells as the
/// terminal has columns, and the copy has as many rows as the terminal.
pub proof fn lemma_full_extraction_shape(
    before: Seq<GridLine>,
    after: Seq<GridLine>,
    term: Term<VoidListener>,
    theme: Theme,
    delta: GridDelta,
)
    requires
        delta_matches(before, after, term, theme, delta),
        delta.full,
    ensures
        after.len() == term_viewport(term).len(),
        forall|r: int| 0 <= r < after.len() ==> (#[trigger] after[r])@.len() == term_columns(term),
        !shape_differs(after, term_viewport(term).len(), term_columns(term)),
{
    assert(grid_view(after).len() == after.len());
    assert forall|r: int| 0 <= r < after.len() implies (#[trigger] after[r])@.len() == term_columns(
        term,
    ) by {
        assert(grid_view(after)[r] == after[r]@);
        assert(resolved_grid(term_viewport(term), theme)[r] == resolved_row(
            term_viewport(term)[r],
            theme,
        ));
        assert(term_viewport(term)[r].len() == term_columns(term));
    }
}

/// Storing every row of a grid, in order, in an empty grid gives that grid.
pub proof fn lemma_stored_all_rows(grid: Seq<GridLine>, n: nat)
    requires
        n <= grid.len(),
        n <= usize::MAX,
    ensures
        stored_rows(Seq::empty(), picked_rows(grid, all_rows(n))) == grid_view(grid.take(n as int)),
    decreases n,
{
    let rows = picked_rows(grid, all_rows(n));
    if n == 0 {
        assert(grid_view(grid.take(0)) =~= Seq::<Seq<GridCell>>::empty());
    } else {
        let m = (n - 1) as nat;
        lemma_stored_all_rows(grid, m);
        assert(rows.drop_last() =~= picked_rows(grid, all_rows(m)));
        assert(rows.last() == (m as usize, grid[m as int]@));
        let before = grid_view(grid.take(m as int));
        let wide = before + Seq::new(1, |i: int| Seq::<GridCell>::empty());
        assert(wide.update(m as int, grid[m as int]@) =~= grid_view(grid.take(n as int)));
    }
}

/// Storing rewritten rows of a grid in a copy of equal length changes those
/// rows alone.
pub proof fn lemma_stored_rows_in_place(
    base: Seq<Seq<GridCell>>,
    grid: Seq<GridLine>,
    rows: Seq<usize>,
)
    requires
        base.len() == grid.len(),
        base.len() <= usize::MAX,
        forall|i: int| 0 <= i < rows.len() ==> rows[i] < grid.len(),
    ensures
        stored_rows(base, picked_rows(grid, rows)).len() == base.len(),
        forall|r: int|
            0 <= r < base.len() ==> #[trigger] stored_rows(base, picked_rows(grid, rows))[r]
                == if rows.contains(r as usize) {
                grid[r]@
            } else {
                base[r]
            },
    decreases rows.len(),
{
    let picked = picked_rows(grid, rows);
    if rows.len() > 0 {
        let head = rows.drop_last();
        lemma_stored_rows_in_place(base, grid, head);
        assert(picked.drop_last() =~= picked_rows(grid, head));
        let before = stored_rows(base, picked_rows(grid, head));
        let last = rows.last();
        assert(picked.last() == (last, grid[last as int]@));
        assert forall|r: int| 0 <= r < base.len() implies #[trigger] stored_rows(base, picked)[r]
            == if rows.contains(r as usize) {
            grid[r]@
        } else {
            base[r]
        } by {
            if r == last {
                assert(rows[rows.len() - 1] == last);
            } else {
                if head.contains(r as usize) {
                    let j = choose|j: int| 0 <= j < head.len() && head[j] == r as usize;
                    assert(rows[j] == r as usize);
                }
                if rows.contains(r as usize) {
                    let j = choose|j: int| 0 <= j < rows.len() && rows[j] == r as usize;
                    assert(head[j] == r as usize);
                }
            }
        }
    }
}


/// The number of lines of scrollback that the terminal holds above the
/// viewport.
pub uninterp spec fn term_history(term: Term<VoidListener>) -> nat;

/// The columns that a terminal gets where `cols` are asked for: two at
/// least.
pub open spec fn columns_for(cols: u16) -> u16 {
    if cols < MIN_COLUMNS {
        MIN_COLUMNS
    } else {
        cols
    }
}

/// The rows that a terminal gets where `rows` are asked for: one at least.
pub open spec fn rows_for(rows: u16) -> u16 {
    if rows < MIN_ROWS {
        MIN_ROWS
    } else {
        rows
    }
}

/// What a resize to `cols` columns and `rows` rows makes of a terminal. The
/// terminal gets two columns and one row at least. The size that it has
/// changes nothing. Any other size is the terminal's size afterwards, and
/// everything counts as damaged, so that the next extraction is a full one.
pub open spec fn resized(
    before: Term<VoidListener>,
    after: Term<VoidListener>,
    cols: u16,
    rows: u16,
) -> bool {
    if term_columns(before) == columns_for(cols) && term_viewport(before).len() == rows_for(rows) {
        after == before
    } else {
        &&& term_columns(after) == columns_for(cols)
        &&& term_viewport(after).len() == rows_for(rows)
        &&& term_damage(after) is None
    }
}

/// The display offset after a scroll by `delta` lines from `offset`: the sum,
/// kept between zero and the length of the history. Offsets are counted in
/// 32 bits with sign: a sum beyond that counts as the largest such number,
/// and an offset beyond it stays as it is.
pub open spec fn scrolled_offset(offset: usize, delta: i32, history: nat) -> int {
    if offset > i32::MAX {
        offset as int
    } else {
        let asked = offset + delta;
        let capped = if asked > i32::MAX {
            i32::MAX as int
        } else {
            asked
        };
        let low = if capped < 0 {
            0
        } else {
            capped
        };
        if low > history {
            history as int
        } else {
            low
        }
    }
}

/// What a scroll by `delta` lines makes of a terminal: the display offset
/// moves as [`scrolled_offset`] says; size, cursor and history stay. Where
/// the offset changed, everything counts as damaged, so that the next
/// extraction is a full one; where it did not, the viewport shows what it
/// showed.
pub open spec fn scrolled(before: Term<VoidListener>, after: Term<VoidListener>, delta: i32) -> bool {
    &&& term_columns(after) == term_columns(before)
    &&& term_viewport(after).len() == term_viewport(before).len()
    &&& term_cursor(after) == term_cursor(before)
    &&& term_history(after) == term_history(before)
    &&& term_offset(after) == scrolled_offset(term_offset(before), delta, term_history(before))
    &&& term_offset(after) != term_offset(before) ==> term_damage(after) is None
    &&& term_offset(after) == term_offset(before) ==> term_viewport(after) == term_viewport(before)
}

/// What feeding bytes makes of a terminal: the viewport shows what
/// [`term_fed`] names, and the size stays.
pub open spec fn fed(before: TermInner, after: Term<VoidListener>, data: Seq<u8>) -> bool {
    &&& term_viewport(after) == term_fed(before.term, before.parser, data)
    &&& term_columns(after) == term_columns(before.term)
    &&& term_viewport(after).len() == term_viewport(before.term).len()
}

/// What a command that changes the terminal makes of it.
pub open spec fn changed_as_asked(cmd: ControlCommand, before: TermInner, after: Term<VoidListener>) -> bool {
    match cmd {
        ControlCommand::Input(data) => fed(before, after, data@),
        ControlCommand::Resize(cols, rows) => resized(before.term, after, cols, rows),
        ControlCommand::Scroll(delta) => scrolled(before.term, after, delta),
        _ => true,
    }
}

/// Whether the terminal has two columns and one row at least.
pub fn term_is_sized(term: &Term<VoidListener>) -> (b: bool)
    ensures
        b == term_sized(*term),
{
    term_cols(term) >= 2 && term_screen_lines(term) >= 1
}

/// Resizes the terminal to the size asked for, or to the smallest size
/// where less is asked for.
fn resize_term(term: &mut Term<VoidListener>, cols: u16, rows: u16)
    ensures
        resized(*old(term), *final(term), cols, rows),
{
    let cols = if cols < MIN_COLUMNS {
        MIN_COLUMNS
    } else {
        cols
    };
    let rows = if rows < MIN_ROWS {
        MIN_ROWS
    } else {
        rows
    };
    term_resize(term, cols, rows);
}

/// Scrolls the terminal by `delta` lines, or by as many as keep the offset
/// within 32 bits with sign.
fn scroll_term(term: &mut Term<VoidListener>, delta: i32)
    ensures
        scrolled(*old(term), *final(term), delta),
{
    let offset = term_display_offset(term);
    if offset <= 0x7fff_ffff {
        let room: i32 = 0x7fff_ffff - (offset as i32);
        let step: i32 = if delta > room {
            room
        } else {
            delta
        };
        term_scroll(term, step);
    }
}

} // verus!
