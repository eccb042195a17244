//! What the renderer keeps of each pane between frames: per row the hashes
//! of its text and of its backgrounds and whether it is blank, the background
//! spans of the content and of the selection, and the cursor.

use vstd::prelude::*;
use vstd::string::*;
use std::collections::HashMap;
use crate::color::RgbColor;
use crate::grid::{GridCell, GridLine};
use crate::split::PaneId;
use crate::shaper::{
    all_below_128, all_spaces, build_line_rich_text_into, rich_spans, row_text, RichSpan,
};
use crate::spans::{
    emitted_spans, grid_spans, incremental_update_bg_spans, kept_spans, rebuild_content_bg_spans,
    rebuild_selection_bg_spans, row_spans, row_spans_from, run_end, selection_spans, BgSpan,
};

verus! {

/// What is kept of one row.
#[derive(Debug, Clone, Copy, PartialEq, Eq, Structural)]
pub struct LineState {
    pub text_hash: u64,
    pub bg_hash: u64,
    pub is_blank: bool,
}

/// A row that the text engine has to shape anew.
#[derive(Debug, Clone)]
pub struct ShapeRequest {
    pub row: usize,
    pub text: String,
    pub spans: Vec<RichSpan>,
    /// The row holds characters outside ASCII and needs full shaping.
    pub advanced: bool,
}

/// How the background spans of the content were brought up to date.
#[derive(Debug, Clone, Copy, PartialEq, Eq, Structural)]
pub enum BgUpdate {
    /// No row changed its backgrounds: the spans stay.
    Unchanged,
    /// The spans of the changed rows were replaced.
    Incremental,
    /// All spans were built anew.
    Full,
}

/// What an update of a pane's content did.
#[derive(Debug, Clone)]
pub struct ContentUpdate {
    /// The rows to shape, in the order in which they were looked at.
    pub requests: Vec<ShapeRequest>,
    /// The rows whose background hash changed, in the same order.
    pub bg_dirty_rows: Vec<usize>,
    pub bg_update: BgUpdate,
    /// The spans of the selection were built anew.
    pub selection_rebuilt: bool,
}

/// The four bytes of a number, lowest first.
pub open spec fn le_bytes4(v: u32) -> Seq<u8> {
    seq![
        (v % 256) as u8,
        (v / 256 % 256) as u8,
        (v / 65536 % 256) as u8,
        (v / 16777216 % 256) as u8,
    ]
}

pub open spec fn flag_byte(b: bool) -> u8 {
    if b {
        1
    } else {
        0
    }
}

/// What the text hash of a row is taken of: character, foreground, weight,
/// slant and double-width mark of each cell.
pub open spec fn text_key(cells: Seq<GridCell>) -> Seq<u8>
    decreases cells.len(),
{
    if cells.len() == 0 {
        Seq::empty()
    } else {
        let c = cells.last();
        text_key(cells.drop_last()) + le_bytes4(c.c as u32) + seq![
            c.fg.r,
            c.fg.g,
            c.fg.b,
            flag_byte(c.bold),
            flag_byte(c.italic),
            flag_byte(c.wide_spacer),
        ]
    }
}

/// The backgrounds of the cells, three bytes each.
pub open spec fn bg_bytes(cells: Seq<GridCell>) -> Seq<u8>
    decreases cells.len(),
{
    if cells.len() == 0 {
        Seq::empty()
    } else {
        let c = cells.last();
        bg_bytes(cells.drop_last()) + seq![c.bg.r, c.bg.g, c.bg.b]
    }
}

/// What the background hash of a row is taken of: the number of cells and
/// the background of each.
pub open spec fn bg_key(cells: Seq<GridCell>) -> Seq<u8> {
    le_bytes4((cells.len() % 0x1_0000_0000) as u32) + bg_bytes(cells)
}

/// The hash of some bytes by `ahash::AHasher` in its default state. The
/// value differs from process to process: nothing is claimed of it.
#[verifier::external_body]
fn hash_bytes(data: &[u8]) -> (h: u64) {
    let mut hasher = ahash::AHasher::default();
    std::hash::Hasher::write(&mut hasher, data);
    std::hash::Hasher::finish(&hasher)
}

fn push_le_bytes4(out: &mut Vec<u8>, v: u32)
    ensures
        final(out)@ == old(out)@ + le_bytes4(v),
{
    out.push((v % 256) as u8);
    out.push((v / 256 % 256) as u8);
    out.push((v / 65536 % 256) as u8);
    out.push((v / 16777216 % 256) as u8);
    assert(out@ =~= old(out)@ + le_bytes4(v));
}

/// The bytes of which the two hashes of a row are taken.
pub fn line_keys(line: &GridLine) -> (keys: (Vec<u8>, Vec<u8>))
    ensures
        keys.0@ == text_key(line@),
        keys.1@ == bg_key(line@),
{
    let mut text: Vec<u8> = Vec::new();
    let mut bg: Vec<u8> = Vec::new();
    let n = line.cells.len();
    push_le_bytes4(&mut bg, (n as u64 % 0x1_0000_0000) as u32);
    let ghost cells = line@;
    let ghost head = bg@;
    let mut i: usize = 0;
    assert(cells.take(0) =~= Seq::<GridCell>::empty());
    assert(bg@ =~= head + bg_bytes(cells.take(0)));
    while i < n
        invariant
            i <= n,
            n == cells.len(),
            cells == line@,
            text@ == text_key(cells.take(i as int)),
            bg@ == head + bg_bytes(cells.take(i as int)),
        decreases n - i,
    {
        let cell = line.cells[i];
        assert(cells.take(i + 1).drop_last() =~= cells.take(i as int));
        assert(cells.take(i + 1).last() == cell);
        let ghost text_before = text@;
        let ghost bg_before = bg@;
        push_le_bytes4(&mut text, cell.c as u32);
        text.push(cell.fg.r);
        text.push(cell.fg.g);
        text.push(cell.fg.b);
        text.push(if cell.bold { 1 } else { 0 });
        text.push(if cell.italic { 1 } else { 0 });
        text.push(if cell.wide_spacer { 1 } else { 0 });
        bg.push(cell.bg.r);
        bg.push(cell.bg.g);
        bg.push(cell.bg.b);
        assert(text@ =~= text_before + le_bytes4(cell.c as u32) + seq![
            cell.fg.r,
            cell.fg.g,
            cell.fg.b,
            flag_byte(cell.bold),
            flag_byte(cell.italic),
            flag_byte(cell.wide_spacer),
        ]);
        assert(bg@ =~= head + (bg_bytes(cells.take(i as int)) + seq![cell.bg.r, cell.bg.g, cell.bg.b]));
        i += 1;
    }
    assert(cells.take(i as int) =~= cells);
    (text, bg)
}

/// The hashes of a row's text and backgrounds; the hasher is seeded anew by each process, so no value is promised.
pub fn hash_line_combined(line: &GridLine) -> (hashes: (u64, u64)) {
    let (text, bg) = line_keys(line);
    (hash_bytes(text.as_slice()), hash_bytes(bg.as_slice()))
}

/// What a row's state becomes when the row is looked at again with the given
/// hashes, and whether the row is to be shaped: the hashes are stored; a row
/// whose text hash is as before is left alone; any other is blank or to be
/// shaped.
pub open spec fn next_line_state(
    state: LineState,
    text_hash: u64,
    bg_hash: u64,
    cells: Seq<GridCell>,
) -> LineState {
    LineState {
        text_hash,
        bg_hash,
        is_blank: if text_hash == state.text_hash {
            state.is_blank
        } else {
            all_spaces(row_text(cells))
        },
    }
}

/// The row is to be shaped: its text hash changed and it is not blank.
pub open spec fn needs_shaping(state: LineState, text_hash: u64, cells: Seq<GridCell>) -> bool {
    text_hash != state.text_hash && !all_spaces(row_text(cells))
}

/// The request shapes this row of these cells.
pub open spec fn request_for(request: ShapeRequest, row: usize, cells: Seq<GridCell>) -> bool {
    &&& request.row == row
    &&& request.text@ == row_text(cells)
    &&& request.spans@ == rich_spans(cells)
    &&& request.advanced == !all_below_128(row_text(cells))
}

/// Looks at a row again, given its two hashes as they are now.
pub fn update_line_state(
    state: LineState,
    text_hash: u64,
    bg_hash: u64,
    row: usize,
    line: &GridLine,
) -> (r: (LineState, Option<ShapeRequest>))
    requires
        line@.len() <= 0xffff,
    ensures
        r.0 == next_line_state(state, text_hash, bg_hash, line@),
        r.1 is Some == needs_shaping(state, text_hash, line@),
        r.1 is Some ==> request_for(r.1->Some_0, row, line@),
{
    if text_hash == state.text_hash {
        return (LineState { text_hash, bg_hash, is_blank: state.is_blank }, None);
    }
    let mut text = String::new();
    let mut spans: Vec<RichSpan> = Vec::new();
    let info = build_line_rich_text_into(line, &mut text, &mut spans);
    if info.is_blank {
        return (LineState { text_hash, bg_hash, is_blank: true }, None);
    }
    (
        LineState { text_hash, bg_hash, is_blank: false },
        Some(ShapeRequest { row, text, spans, advanced: !info.all_ascii }),
    )
}

/// What the renderer keeps of one pane.
#[derive(Debug, Clone)]
pub struct PaneBuffer {
    pub lines: Vec<LineState>,
    /// The background spans of the content.
    pub content_bg_spans: Vec<BgSpan>,
    /// The spans that highlight the selection.
    pub selection_bg_spans: Vec<BgSpan>,
    /// The cursor to draw, as column, row and colour.
    pub cursor: Option<(u16, u16, RgbColor)>,
    pub last_selection: Option<((u16, u16), (u16, u16))>,
    pub last_selection_bg: RgbColor,
    pub last_default_bg: RgbColor,
    /// The size for which the rows were last laid out.
    pub last_line_layout_key: Option<(u32, u32)>,
    /// How often the spans of the selection were built.
    pub selection_rebuilds: u64,
}

/// The state of a row that was never looked at.
pub open spec fn fresh_line() -> LineState {
    LineState { text_hash: u64::MAX, bg_hash: u64::MAX, is_blank: true }
}

fn same_selection(a: &Option<((u16, u16), (u16, u16))>, b: &Option<((u16, u16), (u16, u16))>) -> (r:
    bool)
    ensures
        r == (*a == *b),
{
    match (a, b) {
        (None, None) => true,
        (Some(x), Some(y)) => x.0.0 == y.0.0 && x.0.1 == y.0.1 && x.1.0 == y.1.0 && x.1.1 == y.1.1,
        _ => false,
    }
}

impl PaneBuffer {
    /// The state of a pane of which nothing was shown yet.
    pub fn new() -> (pb: Self)
        ensures
            pb.lines@.len() == 0,
            pb.content_bg_spans@.len() == 0,
            pb.selection_bg_spans@.len() == 0,
            pb.cursor is None,
            pb.last_selection is None,
            pb.last_selection_bg == (RgbColor { r: 0, g: 0, b: 0 }),
            pb.last_default_bg == (RgbColor { r: 0, g: 0, b: 0 }),
            pb.last_line_layout_key is None,
            pb.selection_rebuilds == 0,
    {
        PaneBuffer {
            lines: Vec::new(),
            content_bg_spans: Vec::new(),
            selection_bg_spans: Vec::new(),
            cursor: None,
            last_selection: None,
            last_selection_bg: RgbColor { r: 0, g: 0, b: 0 },
            last_default_bg: RgbColor { r: 0, g: 0, b: 0 },
            last_line_layout_key: None,
            selection_rebuilds: 0,
        }
    }

    /// Looks at one row again: takes its hashes, notes a change of its
    /// backgrounds, and asks for shaping where its text changed and is not
    /// blank.
    pub fn update_line_buffer(
        &mut self,
        row_idx: usize,
        line: &GridLine,
        bg_dirty_rows: &mut Vec<usize>,
        requests: &mut Vec<ShapeRequest>,
    )
        requires
            row_idx < old(self).lines@.len(),
            line@.len() <= 0xffff,
        ensures
            final(self).lines@.len() == old(self).lines@.len(),
            forall|r: int|
                0 <= r < old(self).lines@.len() && r != row_idx ==> final(self).lines@[r] == old(self).lines@[r],
            final(self).content_bg_spans == old(self).content_bg_spans,
            final(self).selection_bg_spans == old(self).selection_bg_spans,
            final(self).cursor == old(self).cursor,
            final(self).last_selection == old(self).last_selection,
            final(self).last_selection_bg == old(self).last_selection_bg,
            final(self).last_default_bg == old(self).last_default_bg,
            final(self).last_line_layout_key == old(self).last_line_layout_key,
            final(self).selection_rebuilds == old(self).selection_rebuilds,
            final(self).lines@[row_idx as int] == next_line_state(
                old(self).lines@[row_idx as int],
                final(self).lines@[row_idx as int].text_hash,
                final(self).lines@[row_idx as int].bg_hash,
                line@,
            ),
            final(bg_dirty_rows)@ == if final(self).lines@[row_idx as int].bg_hash != old(self).lines@[row_idx as int].bg_hash {
                old(bg_dirty_rows)@.push(row_idx)
            } else {
                old(bg_dirty_rows)@
            },
            needs_shaping(
                old(self).lines@[row_idx as int],
                final(self).lines@[row_idx as int].text_hash,
                line@,
            ) ==> final(requests)@.len() == old(requests)@.len() + 1 && final(requests)@.drop_last() == old(requests)@ && request_for(final(requests)@.last(), row_idx, line@),
            !needs_shaping(
                old(self).lines@[row_idx as int],
                final(self).lines@[row_idx as int].text_hash,
                line@,
            ) ==> final(requests)@ == old(requests)@,
    {
        let state = self.lines[row_idx];
        let (text_hash, bg_hash) = hash_line_combined(line);
        if bg_hash != state.bg_hash {
            bg_dirty_rows.push(row_idx);
        }
        let (next, request) = update_line_state(state, text_hash, bg_hash, row_idx, line);
        self.lines.set(row_idx, next);
        match request {
            Some(request) => {
                requests.push(request);
                assert(requests@.drop_last() =~= old(requests)@);
            },
            None => {},
        }
    }

    /// The rows that give a text area: those that are not blank, ascending.
    /// A blank row gives none.
    pub fn text_rows(&self) -> (rows: Vec<usize>)
        ensures
            forall|i: int| 0 <= i < rows@.len() ==> rows@[i] < self.lines@.len() && !self.lines@[rows@[i] as int].is_blank,
            forall|r: int|
                0 <= r < self.lines@.len() ==> (rows@.contains(r as usize) <==> !(
                #[trigger] self.lines@[r]).is_blank),
            forall|i: int, j: int| 0 <= i < j < rows@.len() ==> rows@[i] < rows@[j],
    {
        let mut rows: Vec<usize> = Vec::new();
        let mut r: usize = 0;
        while r < self.lines.len()
            invariant
                r <= self.lines@.len(),
                forall|i: int| 0 <= i < rows@.len() ==> rows@[i] < r && !self.lines@[rows@[i] as int].is_blank,
                forall|k: int|
                    0 <= k < r ==> (rows@.contains(k as usize) <==> !(#[trigger] self.lines@[k]).is_blank),
                forall|i: int, j: int| 0 <= i < j < rows@.len() ==> rows@[i] < rows@[j],
            decreases self.lines@.len() - r,
        {
            let ghost before = rows@;
            if !self.lines[r].is_blank {
                rows.push(r);
                assert(rows@[rows@.len() - 1] == r);
                assert forall|k: int| 0 <= k < r implies (rows@.contains(k as usize) <==> !(
                #[trigger] self.lines@[k]).is_blank) by {
                    if before.contains(k as usize) {
                        let i = choose|i: int| 0 <= i < before.len() && before[i] == k as usize;
                        assert(rows@[i] == k as usize);
                    }
                    if rows@.contains(k as usize) {
                        let i = choose|i: int| 0 <= i < rows@.len() && rows@[i] == k as usize;
                        assert(before[i] == k as usize);
                    }
                }
            } else {
                assert(!rows@.contains(r)) by {
                    if rows@.contains(r) {
                        let i = choose|i: int| 0 <= i < rows@.len() && rows@[i] == r;
                        assert(rows@[i] < r);
                    }
                }
            }
            r += 1;
        }
        rows
    }

    /// Whether the rows have to be laid out for a new size: the key differs
    /// from the one kept, which is then replaced.
    pub fn layout_changed(&mut self, key: (u32, u32)) -> (changed: bool)
        ensures
            changed == (old(self).last_line_layout_key != Some(key)),
            final(self).last_line_layout_key == Some(key),
            final(self).lines == old(self).lines,
            final(self).content_bg_spans == old(self).content_bg_spans,
            final(self).selection_bg_spans == old(self).selection_bg_spans,
            final(self).cursor == old(self).cursor,
    {
        let changed = match self.last_line_layout_key {
            Some(k) => k.0 != key.0 || k.1 != key.1,
            None => true,
        };
        self.last_line_layout_key = Some(key);
        changed
    }
}


/// What the renderer keeps of one pane, as plain values.
pub struct PaneBufferView {
    pub lines: Seq<LineState>,
    pub content_bg_spans: Seq<BgSpan>,
    pub selection_bg_spans: Seq<BgSpan>,
    pub cursor: Option<(u16, u16, RgbColor)>,
    pub last_selection: Option<((u16, u16), (u16, u16))>,
    pub last_selection_bg: RgbColor,
    pub last_default_bg: RgbColor,
    pub last_line_layout_key: Option<(u32, u32)>,
    pub selection_rebuilds: u64,
}

impl View for PaneBuffer {
    type V = PaneBufferView;

    open spec fn view(&self) -> PaneBufferView {
        PaneBufferView {
            lines: self.lines@,
            content_bg_spans: self.content_bg_spans@,
            selection_bg_spans: self.selection_bg_spans@,
            cursor: self.cursor,
            last_selection: self.last_selection,
            last_selection_bg: self.last_selection_bg,
            last_default_bg: self.last_default_bg,
            last_line_layout_key: self.last_line_layout_key,
            selection_rebuilds: self.selection_rebuilds,
        }
    }
}

/// What is kept of a pane of which nothing was shown yet.
pub open spec fn fresh_buffer() -> PaneBufferView {
    PaneBufferView {
        lines: Seq::empty(),
        content_bg_spans: Seq::empty(),
        selection_bg_spans: Seq::empty(),
        cursor: None,
        last_selection: None,
        last_selection_bg: RgbColor { r: 0, g: 0, b: 0 },
        last_default_bg: RgbColor { r: 0, g: 0, b: 0 },
        last_line_layout_key: None,
        selection_rebuilds: 0,
    }
}

/// The row states for a grid of `n` rows: those kept so far, as far as they
/// go, and fresh ones for further rows.
pub open spec fn resized_lines(lines: Seq<LineState>, n: nat) -> Seq<LineState> {
    Seq::new(
        n,
        |i: int|
            if i < lines.len() {
                lines[i]
            } else {
                fresh_line()
            },
    )
}

/// The rows below `n` among the given ones, in their order.
pub open spec fn rows_within(rows: Seq<usize>, n: nat) -> Seq<usize>
    decreases rows.len(),
{
    if rows.len() == 0 {
        Seq::empty()
    } else if rows.last() < n {
        rows_within(rows.drop_last(), n).push(rows.last())
    } else {
        rows_within(rows.drop_last(), n)
    }
}

/// The rows that an update looks at, in order: all of them where the number
/// of rows differs from the `kept` row states or no rows are named, else the
/// named rows that the grid has.
pub open spec fn rows_looked_at(kept: nat, dirty_rows: Option<Seq<usize>>, n: nat) -> Seq<usize> {
    if kept != n || dirty_rows is None {
        Seq::new(n, |i: int| i as usize)
    } else {
        rows_within(dirty_rows->Some_0, n)
    }
}

/// What looking at rows has come to: the row states, the rows whose
/// background hash changed, and the rows to shape.
pub struct Looked {
    pub lines: Seq<LineState>,
    pub bg_dirty: Seq<usize>,
    pub shaped: Seq<usize>,
}

/// The outcome of looking at `rows` one after the other, where the look at
/// `rows[i]` found the text hash `hashes[i].0` and the background hash
/// `hashes[i].1`: each look takes the row's state on as [`next_line_state`]
/// says, notes the row where its background hash changed, and asks for
/// shaping where [`needs_shaping`] says so.
pub open spec fn looked(
    start: Seq<LineState>,
    rows: Seq<usize>,
    hashes: Seq<(u64, u64)>,
    grid: Seq<GridLine>,
) -> Looked
    decreases rows.len(),
{
    if rows.len() == 0 {
        Looked { lines: start, bg_dirty: Seq::empty(), shaped: Seq::empty() }
    } else {
        let before = looked(start, rows.drop_last(), hashes.drop_last(), grid);
        let row = rows.last();
        let hash = hashes.last();
        let state = before.lines[row as int];
        let cells = grid[row as int]@;
        Looked {
            lines: before.lines.update(row as int, next_line_state(state, hash.0, hash.1, cells)),
            bg_dirty: if hash.1 != state.bg_hash {
                before.bg_dirty.push(row)
            } else {
                before.bg_dirty
            },
            shaped: if needs_shaping(state, hash.0, cells) {
                before.shaped.push(row)
            } else {
                before.shaped
            },
        }
    }
}

/// Row states, rows with changed backgrounds and rows to shape are what
/// looking at `rows` comes to where the hasher gave `hashes`, one pair for
/// each look.
pub open spec fn looks_match(
    start: Seq<LineState>,
    rows: Seq<usize>,
    hashes: Seq<(u64, u64)>,
    grid: Seq<GridLine>,
    lines: Seq<LineState>,
    bg_dirty: Seq<usize>,
    shaped: Seq<usize>,
) -> bool {
    let seen = looked(start, rows, hashes, grid);
    &&& hashes.len() == rows.len()
    &&& lines == seen.lines
    &&& bg_dirty == seen.bg_dirty
    &&& shaped == seen.shaped
}

/// The rows that the requests name, in order.
pub open spec fn request_rows(requests: Seq<ShapeRequest>) -> Seq<usize> {
    requests.map_values(|q: ShapeRequest| q.row)
}

/// The rows that are named, if any are.
pub open spec fn named_rows(dirty_rows: Option<&[usize]>) -> Option<Seq<usize>> {
    match dirty_rows {
        Some(rows) => Some(rows@),
        None => None,
    }
}

/// What an update of a pane's content makes of what is kept of the pane.
///
/// There is one row state for each row of the grid. The rows of
/// [`rows_looked_at`] are looked at in order, each with the hashes that the
/// hasher gave, and row states, rows with changed backgrounds and requests
/// are as [`looked`] says for those hashes. The cursor is kept if it is
/// visible. The spans of the content follow the rows whose background hash
/// changed. The spans of the selection are built anew, and the count of
/// that goes up, exactly where the selection or its colour differ from the
/// last update.
pub open spec fn content_set(
    before: PaneBufferView,
    after: PaneBufferView,
    grid: Seq<GridLine>,
    dirty_rows: Option<Seq<usize>>,
    cursor_pos: (u16, u16),
    cursor_visible: bool,
    cursor_color: RgbColor,
    default_bg: RgbColor,
    selection: Option<((u16, u16), (u16, u16))>,
    selection_bg: RgbColor,
    update: ContentUpdate,
) -> bool {
    let n = grid.len();
    let count_changed = before.lines.len() != n;
    let rows = rows_looked_at(before.lines.len(), dirty_rows, n);
    &&& exists|hashes: Seq<(u64, u64)>|
        #[trigger] looks_match(
            resized_lines(before.lines, n),
            rows,
            hashes,
            grid,
            after.lines,
            update.bg_dirty_rows@,
            request_rows(update.requests@),
        )
    &&& requests_sound(update.requests@, grid, after.lines)
    &&& after.cursor == if cursor_visible {
        Some((cursor_pos.0, cursor_pos.1, cursor_color))
    } else {
        None
    }
    &&& after.last_line_layout_key == before.last_line_layout_key
    &&& update.selection_rebuilt == (before.last_selection != selection || before.last_selection_bg
        != selection_bg)
    &&& after.selection_bg_spans == if update.selection_rebuilt {
        selection_spans(grid, selection, selection_bg)
    } else {
        before.selection_bg_spans
    }
    &&& after.selection_rebuilds == if !update.selection_rebuilt || before.selection_rebuilds
        == u64::MAX {
        before.selection_rebuilds
    } else {
        (before.selection_rebuilds + 1) as u64
    }
    &&& after.last_selection == selection
    &&& after.last_selection_bg == selection_bg
    &&& update.bg_update == bg_update_for(
        count_changed,
        before.last_default_bg != default_bg,
        update.bg_dirty_rows@.len(),
        n,
    )
    &&& after.content_bg_spans == content_spans_after(
        before.content_bg_spans,
        grid,
        default_bg,
        update,
    )
    &&& after.last_default_bg == default_bg
}

/// What became of the background spans of the content in an update.
pub open spec fn content_spans_after(
    before: Seq<BgSpan>,
    grid: Seq<GridLine>,
    default_bg: RgbColor,
    update: ContentUpdate,
) -> Seq<BgSpan> {
    match update.bg_update {
        BgUpdate::Unchanged => before,
        BgUpdate::Incremental => kept_spans(before, update.bg_dirty_rows@) + emitted_spans(
            grid,
            update.bg_dirty_rows@,
            default_bg,
            update.bg_dirty_rows@.len() as int,
        ),
        BgUpdate::Full => grid_spans(grid, default_bg, grid.len() as int),
    }
}

/// How the background spans of the content are brought up to date: all are
/// built anew where the number of rows or the default background changed or
/// more than half of the rows changed their backgrounds; nothing is done
/// where no row did; else the spans of the changed rows are replaced.
pub open spec fn bg_update_for(
    count_changed: bool,
    default_changed: bool,
    dirty: nat,
    rows: nat,
) -> BgUpdate {
    if count_changed || default_changed {
        BgUpdate::Full
    } else if dirty == 0 {
        BgUpdate::Unchanged
    } else if dirty > rows / 2 {
        BgUpdate::Full
    } else {
        BgUpdate::Incremental
    }
}

/// Every request shapes the row it names as the grid has it, and that row
/// is kept as not blank.
pub open spec fn requests_sound(
    requests: Seq<ShapeRequest>,
    grid: Seq<GridLine>,
    lines: Seq<LineState>,
) -> bool {
    forall|i: int|
        0 <= i < requests.len() ==> {
            let q = #[trigger] requests[i];
            &&& q.row < grid.len()
            &&& q.row < lines.len()
            &&& request_for(q, q.row, grid[q.row as int]@)
            &&& !all_spaces(row_text(grid[q.row as int]@))
            &&& !lines[q.row as int].is_blank
        }
}

impl PaneBuffer {
    /// Takes the content of a pane for the next frame.
    ///
    /// There is one row state for each row of the grid afterwards. All rows
    /// are looked at again where their number changed or no rows are named,
    /// else the named rows that the grid has. The cursor is kept if it is
    /// visible. The spans of the content follow the rows whose background
    /// hash changed; the spans of the selection are built anew only where the
    /// selection or its colour differ from the last call.
    pub fn set_pane_content(
        &mut self,
        grid: &[GridLine],
        dirty_rows: Option<&[usize]>,
        cursor_pos: (u16, u16),
        cursor_visible: bool,
        cursor_color: RgbColor,
        default_bg: RgbColor,
        selection: Option<((u16, u16), (u16, u16))>,
        selection_bg: RgbColor,
    ) -> (update: ContentUpdate)
        requires
            forall|r: int| 0 <= r < grid@.len() ==> (#[trigger] grid@[r])@.len() <= 0xffff,
        ensures
            final(self).lines@.len() == grid@.len(),
            final(self).cursor == if cursor_visible {
                Some((cursor_pos.0, cursor_pos.1, cursor_color))
            } else {
                None
            },
            final(self).last_line_layout_key == old(self).last_line_layout_key,
            update.selection_rebuilt == (old(self).last_selection != selection || old(self).last_selection_bg != selection_bg),
            final(self).selection_bg_spans@ == if update.selection_rebuilt {
                selection_spans(grid@, selection, selection_bg)
            } else {
                old(self).selection_bg_spans@
            },
            final(self).selection_rebuilds == if !update.selection_rebuilt || old(self).selection_rebuilds == u64::MAX {
                old(self).selection_rebuilds
            } else {
                (old(self).selection_rebuilds + 1) as u64
            },
            final(self).last_selection == selection,
            final(self).last_selection_bg == selection_bg,
            update.bg_update == bg_update_for(
                old(self).lines@.len() != grid@.len(),
                old(self).last_default_bg != default_bg,
                update.bg_dirty_rows@.len(),
                grid@.len(),
            ),
            final(self).content_bg_spans@ == content_spans_after(
                old(self).content_bg_spans@,
                grid@,
                default_bg,
                update,
            ),
            final(self).last_default_bg == default_bg,
            forall|i: int|
                0 <= i < update.bg_dirty_rows@.len() ==> #[trigger] update.bg_dirty_rows@[i]
                    < grid@.len(),
            requests_sound(update.requests@, grid@, final(self).lines@),
            old(self).lines@.len() == grid@.len() && dirty_rows is Some ==> forall|r: int|
                0 <= r < grid@.len() && !dirty_rows->Some_0@.contains(r as usize) ==> final(self).lines@[r] == old(self).lines@[r],
            content_set(
                old(self)@,
                final(self)@,
                grid@,
                named_rows(dirty_rows),
                cursor_pos,
                cursor_visible,
                cursor_color,
                default_bg,
                selection,
                selection_bg,
                update,
            ),
    {
        let n = grid.len();
        let count_changed = self.lines.len() != n;
        while self.lines.len() < n
            invariant
                n == grid@.len(),
                self.lines@.len() >= old(self).lines@.len(),
                forall|i: int|
                    0 <= i < self.lines@.len() ==> #[trigger] self.lines@[i] == if i < old(self).lines@.len() {
                        old(self).lines@[i]
                    } else {
                        fresh_line()
                    },
                self.content_bg_spans == old(self).content_bg_spans,
                self.selection_bg_spans == old(self).selection_bg_spans,
                self.last_selection == old(self).last_selection,
                self.last_selection_bg == old(self).last_selection_bg,
                self.last_default_bg == old(self).last_default_bg,
                self.last_line_layout_key == old(self).last_line_layout_key,
                self.selection_rebuilds == old(self).selection_rebuilds,
                count_changed == (old(self).lines@.len() != n),
                !count_changed ==> self.lines@ == old(self).lines@,
            decreases n - self.lines@.len(),
        {
            self.lines.push(LineState { text_hash: u64::MAX, bg_hash: u64::MAX, is_blank: true });
        }
        self.lines.truncate(n);
        assert(!count_changed ==> self.lines@ =~= old(self).lines@);
        assert(self.lines@ =~= resized_lines(old(self).lines@, n as nat));
        self.cursor = if cursor_visible {
            Some((cursor_pos.0, cursor_pos.1, cursor_color))
        } else {
            None
        };
        let bg_full_rebuild = count_changed || self.last_default_bg != default_bg;
        let mut rows: Vec<usize> = Vec::new();
        match dirty_rows {
            Some(listed) if !count_changed => {
                let mut k: usize = 0;
                while k < listed.len()
                    invariant
                        k <= listed@.len(),
                        n == grid@.len(),
                        forall|i: int| 0 <= i < rows@.len() ==> #[trigger] rows@[i] < n && listed@.contains(rows@[i]),
                        rows@ == rows_within(listed@.take(k as int), n as nat),
                    decreases listed@.len() - k,
                {
                    assert(listed@.take(k + 1).drop_last() =~= listed@.take(k as int));
                    if listed[k] < n {
                        rows.push(listed[k]);
                    }
                    k += 1;
                }
                assert(listed@.take(k as int) =~= listed@);
            },
            _ => {
                let mut r: usize = 0;
                while r < n
                    invariant
                        r <= n,
                        forall|i: int| 0 <= i < rows@.len() ==> #[trigger] rows@[i] < n,
                        rows@ == Seq::new(r as nat, |i: int| i as usize),
                    decreases n - r,
                {
                    rows.push(r);
                    assert(rows@ =~= Seq::new((r + 1) as nat, |i: int| i as usize));
                    r += 1;
                }
            },
        }
        assert(rows@ == rows_looked_at(old(self).lines@.len(), named_rows(dirty_rows), n as nat));
        let ghost mut hashes: Seq<(u64, u64)> = Seq::empty();
        assert(rows@.take(0) =~= Seq::<usize>::empty());
        let mut bg_dirty_rows: Vec<usize> = Vec::new();
        let mut requests: Vec<ShapeRequest> = Vec::new();
        let ghost lines_before = self.lines@;
        let ghost listed_only = !count_changed && dirty_rows is Some;
        assert(listed_only ==> forall|i: int|
            0 <= i < rows@.len() ==> dirty_rows->Some_0@.contains(#[trigger] rows@[i]));
        let mut k: usize = 0;
        while k < rows.len()
            invariant
                k <= rows@.len(),
                n == grid@.len(),
                self.lines@.len() == n,
                forall|r: int| 0 <= r < grid@.len() ==> (#[trigger] grid@[r])@.len() <= 0xffff,
                forall|i: int| 0 <= i < rows@.len() ==> #[trigger] rows@[i] < n,
                forall|i: int| 0 <= i < bg_dirty_rows@.len() ==> #[trigger] bg_dirty_rows@[i] < n,
                requests_sound(requests@, grid@, self.lines@),
                lines_before.len() == n,
                hashes.len() == k,
                ({
                    let seen = looked(lines_before, rows@.take(k as int), hashes, grid@);
                    &&& self.lines@ == seen.lines
                    &&& bg_dirty_rows@ == seen.bg_dirty
                    &&& request_rows(requests@) == seen.shaped
                }),
                forall|r: int|
                    0 <= r < n && !rows@.contains(r as usize) ==> self.lines@[r] == lines_before[r],
                listed_only ==> forall|i: int|
                    0 <= i < rows@.len() ==> dirty_rows->Some_0@.contains(#[trigger] rows@[i]),
                self.content_bg_spans == old(self).content_bg_spans,
                self.selection_bg_spans == old(self).selection_bg_spans,
                self.last_selection == old(self).last_selection,
                self.last_selection_bg == old(self).last_selection_bg,
                self.last_default_bg == old(self).last_default_bg,
                self.last_line_layout_key == old(self).last_line_layout_key,
                self.selection_rebuilds == old(self).selection_rebuilds,
                self.cursor == if cursor_visible {
                    Some((cursor_pos.0, cursor_pos.1, cursor_color))
                } else {
                    None
                },
            decreases rows@.len() - k,
        {
            let row = rows[k];
            let ghost lines_prev = self.lines@;
            let ghost requests_prev = requests@;
            assert(rows@.contains(row));
            self.update_line_buffer(row, &grid[row], &mut bg_dirty_rows, &mut requests);
            proof {
                let cells = grid@[row as int]@;
                let now = self.lines@[row as int];
                let found = (now.text_hash, now.bg_hash);
                let rows_now = rows@.take(k + 1);
                assert(rows_now.drop_last() =~= rows@.take(k as int));
                assert(rows_now.last() == row);
                assert(hashes.push(found).drop_last() =~= hashes);
                assert(hashes.push(found).last() == found);
                assert(self.lines@ =~= lines_prev.update(
                    row as int,
                    next_line_state(lines_prev[row as int], found.0, found.1, cells),
                ));
                if needs_shaping(lines_prev[row as int], found.0, cells) {
                    assert(request_rows(requests@) =~= request_rows(requests_prev).push(row)) by {
                        assert(requests@.drop_last() == requests_prev);
                        assert(requests@.last().row == row);
                        assert forall|i: int| 0 <= i < requests_prev.len() implies requests@[i]
                            == requests_prev[i] by {
                            assert(requests@.drop_last()[i] == requests@[i]);
                        }
                    }
                }
                hashes = hashes.push(found);
                assert forall|i: int| 0 <= i < requests@.len() implies {
                    let q = #[trigger] requests@[i];
                    &&& q.row < grid@.len()
                    &&& q.row < self.lines@.len()
                    &&& request_for(q, q.row, grid@[q.row as int]@)
                    &&& !all_spaces(row_text(grid@[q.row as int]@))
                    &&& !self.lines@[q.row as int].is_blank
                } by {
                    if i < requests_prev.len() {
                        assert(requests@[i] == requests_prev[i]) by {
                            if requests@.len() > requests_prev.len() {
                                assert(requests@.drop_last()[i] == requests@[i]);
                            }
                        }
                        let q = requests_prev[i];
                        if q.row != row {
                            assert(self.lines@[q.row as int] == lines_prev[q.row as int]);
                        }
                    }
                }
            }
            k += 1;
        }
        assert(rows@.take(k as int) =~= rows@);
        proof {
            if listed_only {
                assert forall|r: int|
                    0 <= r < n && !dirty_rows->Some_0@.contains(r as usize) implies self.lines@[r]
                    == lines_before[r] by {
                    if rows@.contains(r as usize) {
                        let i = choose|i: int| 0 <= i < rows@.len() && rows@[i] == r as usize;
                        assert(dirty_rows->Some_0@.contains(rows@[i]));
                    }
                }
            }
        }
        let bg_update = if bg_full_rebuild {
            BgUpdate::Full
        } else if bg_dirty_rows.len() == 0 {
            BgUpdate::Unchanged
        } else if bg_dirty_rows.len() > n / 2 {
            BgUpdate::Full
        } else {
            BgUpdate::Incremental
        };
        match bg_update {
            BgUpdate::Full => {
                rebuild_content_bg_spans(&mut self.content_bg_spans, grid, default_bg);
            },
            BgUpdate::Incremental => {
                incremental_update_bg_spans(
                    &mut self.content_bg_spans,
                    grid,
                    default_bg,
                    bg_dirty_rows.as_slice(),
                );
            },
            BgUpdate::Unchanged => {},
        }
        self.last_default_bg = default_bg;
        let selection_rebuilt = !same_selection(&self.last_selection, &selection)
            || self.last_selection_bg != selection_bg;
        if selection_rebuilt {
            rebuild_selection_bg_spans(&mut self.selection_bg_spans, grid, selection, selection_bg);
            self.last_selection = selection;
            self.last_selection_bg = selection_bg;
            if self.selection_rebuilds < u64::MAX {
                self.selection_rebuilds = self.selection_rebuilds + 1;
            }
        }
        let update = ContentUpdate { requests, bg_dirty_rows, bg_update, selection_rebuilt };
        proof {
            let start = resized_lines(old(self).lines@, n as nat);
            let all = rows_looked_at(old(self).lines@.len(), named_rows(dirty_rows), n as nat);
            assert(looks_match(
                start,
                all,
                hashes,
                grid@,
                self.lines@,
                update.bg_dirty_rows@,
                request_rows(update.requests@),
            ));
            assert(looks_match(
                resized_lines(old(self)@.lines, grid@.len()),
                rows_looked_at(old(self)@.lines.len(), named_rows(dirty_rows), grid@.len()),
                hashes,
                grid@,
                self@.lines,
                update.bg_dirty_rows@,
                request_rows(update.requests@),
            ));
            assert(content_set(
                old(self)@,
                self@,
                grid@,
                named_rows(dirty_rows),
                cursor_pos,
                cursor_visible,
                cursor_color,
                default_bg,
                selection,
                selection_bg,
                update,
            ));
        }
        update
    }

    /// The background spans to draw for the pane, in drawing order: those of
    /// the content, those of the selection, and the cursor as a span of one
    /// cell.
    pub fn collect_bg_spans(&self) -> (spans: Vec<BgSpan>)
        ensures
            spans@ == self.content_bg_spans@ + self.selection_bg_spans@ + match self.cursor {
                Some((col, row, color)) => seq![BgSpan { col, row, width: 1, color }],
                None => Seq::empty(),
            },
    {
        let mut spans: Vec<BgSpan> = Vec::new();
        let mut i: usize = 0;
        while i < self.content_bg_spans.len()
            invariant
                i <= self.content_bg_spans@.len(),
                spans@ == self.content_bg_spans@.take(i as int),
            decreases self.content_bg_spans@.len() - i,
        {
            spans.push(self.content_bg_spans[i]);
            assert(spans@ =~= self.content_bg_spans@.take(i + 1));
            i += 1;
        }
        assert(self.content_bg_spans@.take(i as int) =~= self.content_bg_spans@);
        let mut j: usize = 0;
        while j < self.selection_bg_spans.len()
            invariant
                j <= self.selection_bg_spans@.len(),
                spans@ == self.content_bg_spans@ + self.selection_bg_spans@.take(j as int),
            decreases self.selection_bg_spans@.len() - j,
        {
            spans.push(self.selection_bg_spans[j]);
            assert(spans@ =~= self.content_bg_spans@ + self.selection_bg_spans@.take(j + 1));
            j += 1;
        }
        assert(self.selection_bg_spans@.take(j as int) =~= self.selection_bg_spans@);
        match self.cursor {
            Some((col, row, color)) => {
                spans.push(BgSpan { col, row, width: 1, color });
            },
            None => {},
        }
        assert(spans@ =~= self.content_bg_spans@ + self.selection_bg_spans@ + match self.cursor {
            Some((col, row, color)) => seq![BgSpan { col, row, width: 1, color }],
            None => Seq::empty(),
        });
        spans
    }
}


/// The bytes of the backgrounds: three for each cell, in order.
pub proof fn lemma_bg_bytes(cells: Seq<GridCell>)
    ensures
        bg_bytes(cells).len() == 3 * cells.len(),
        forall|k: int|
            0 <= k < cells.len() ==> bg_bytes(cells)[3 * k] == (#[trigger] cells[k]).bg.r && bg_bytes(
                cells,
            )[3 * k + 1] == cells[k].bg.g && bg_bytes(cells)[3 * k + 2] == cells[k].bg.b,
    decreases cells.len(),
{
    if cells.len() > 0 {
        let head = cells.drop_last();
        lemma_bg_bytes(head);
        assert forall|k: int| 0 <= k < cells.len() implies bg_bytes(cells)[3 * k] == (
        #[trigger] cells[k]).bg.r && bg_bytes(cells)[3 * k + 1] == cells[k].bg.g && bg_bytes(cells)[3
            * k + 2] == cells[k].bg.b by {
            if k < head.len() {
                assert(head[k] == cells[k]);
            }
        }
    }
}

/// Rows with the same backgrounds, cell for cell, have runs that end at
/// the same place.
proof fn lemma_same_backgrounds_run_end(a: Seq<GridCell>, b: Seq<GridCell>, bg: RgbColor, from: int)
    requires
        a.len() == b.len(),
        forall|k: int| 0 <= k < a.len() ==> (#[trigger] a[k]).bg == b[k].bg,
    ensures
        run_end(a, bg, from) == run_end(b, bg, from),
    decreases a.len() - from,
{
    if 0 <= from < a.len() && a[from].bg == bg {
        lemma_same_backgrounds_run_end(a, b, bg, from + 1);
    }
}

/// Rows with the same backgrounds, cell for cell, have the same spans.
pub proof fn lemma_same_backgrounds_same_spans(
    a: Seq<GridCell>,
    b: Seq<GridCell>,
    row: int,
    default_bg: RgbColor,
    col: int,
)
    requires
        a.len() == b.len(),
        forall|k: int| 0 <= k < a.len() ==> (#[trigger] a[k]).bg == b[k].bg,
    ensures
        row_spans_from(a, row, default_bg, col) == row_spans_from(b, row, default_bg, col),
    decreases a.len() - col,
{
    if col < 0 || col >= a.len() {
    } else if a[col].bg == default_bg {
        lemma_same_backgrounds_same_spans(a, b, row, default_bg, col + 1);
    } else {
        lemma_same_backgrounds_run_end(a, b, a[col].bg, col + 1);
        let end = run_end(a, a[col].bg, col + 1);
        let next = if col < end <= a.len() {
            end
        } else {
            col + 1
        };
        lemma_same_backgrounds_same_spans(a, b, row, default_bg, next);
    }
}

/// Two rows of which the background hash is taken of the same bytes have
/// the same background spans: as far as the hash tells rows apart, a row
/// whose background hash is unchanged keeps its spans.
pub proof fn lemma_bg_key_decides_spans(a: Seq<GridCell>, b: Seq<GridCell>, row: int, default_bg: RgbColor)
    requires
        bg_key(a) == bg_key(b),
    ensures
        a.len() == b.len(),
        forall|k: int| 0 <= k < a.len() ==> (#[trigger] a[k]).bg == b[k].bg,
        row_spans(a, row, default_bg) == row_spans(b, row, default_bg),
{
    lemma_bg_bytes(a);
    lemma_bg_bytes(b);
    let ka = bg_key(a);
    let kb = bg_key(b);
    let ha = le_bytes4((a.len() % 0x1_0000_0000) as u32);
    let hb = le_bytes4((b.len() % 0x1_0000_0000) as u32);
    assert(ka.len() == 4 + 3 * a.len());
    assert(kb.len() == 4 + 3 * b.len());
    assert forall|k: int| 0 <= k < a.len() implies (#[trigger] a[k]).bg == b[k].bg by {
        assert(ka[4 + 3 * k] == bg_bytes(a)[3 * k]);
        assert(ka[4 + 3 * k + 1] == bg_bytes(a)[3 * k + 1]);
        assert(ka[4 + 3 * k + 2] == bg_bytes(a)[3 * k + 2]);
        assert(kb[4 + 3 * k] == bg_bytes(b)[3 * k]);
        assert(kb[4 + 3 * k + 1] == bg_bytes(b)[3 * k + 1]);
        assert(kb[4 + 3 * k + 2] == bg_bytes(b)[3 * k + 2]);
    }
    lemma_same_backgrounds_same_spans(a, b, row, default_bg, 0);
}

/// The spans that an incremental update keeps are those of the rows that
/// are not listed, in their order: a row whose background hash did not
/// change keeps exactly its spans.
pub proof fn lemma_kept_spans(spans: Seq<BgSpan>, dirty: Seq<usize>)
    ensures
        kept_spans(spans, dirty) == spans.filter(|s: BgSpan| !dirty.contains(s.row as usize)),
    decreases spans.len(),
{
    reveal(Seq::filter);
    if spans.len() > 0 {
        lemma_kept_spans(spans.drop_last(), dirty);
    }
}


/// What the renderer keeps of all panes, each under its id.
pub struct TextRenderer {
    pub pane_buffers: HashMap<PaneId, PaneBuffer>,
}

/// What is kept of a pane: its buffer, or what a fresh buffer holds where
/// the pane has none yet.
pub open spec fn buffer_of(buffers: Map<PaneId, PaneBuffer>, pane: PaneId) -> PaneBufferView {
    if buffers.contains_key(pane) {
        buffers[pane]@
    } else {
        fresh_buffer()
    }
}

/// The background spans that a pane draws: content, selection, cursor.
pub open spec fn pane_spans(pb: PaneBufferView) -> Seq<BgSpan> {
    pb.content_bg_spans + pb.selection_bg_spans + match pb.cursor {
        Some((col, row, color)) => seq![BgSpan { col, row, width: 1, color }],
        None => Seq::empty(),
    }
}

/// The background spans of the listed panes, pane after pane in the order
/// of the list, each with its pane; a pane without buffer gives none.
pub open spec fn spans_of_panes(
    buffers: Map<PaneId, PaneBuffer>,
    panes: Seq<PaneId>,
    upto: int,
) -> Seq<(PaneId, BgSpan)>
    decreases upto,
{
    if upto <= 0 {
        Seq::empty()
    } else {
        let pane = panes[upto - 1];
        let before = spans_of_panes(buffers, panes, upto - 1);
        if buffers.contains_key(pane) {
            before + pane_spans(buffers[pane]@).map_values(|s: BgSpan| (pane, s))
        } else {
            before
        }
    }
}

impl TextRenderer {
    /// A renderer that has seen no pane.
    pub fn new() -> (r: Self)
        ensures
            r.pane_buffers@ == Map::<PaneId, PaneBuffer>::empty(),
    {
        TextRenderer { pane_buffers: HashMap::new() }
    }

    /// Takes the content of a pane for the next frame: the pane's buffer, a
    /// fresh one where the pane has none yet, takes the content as
    /// [`content_set`] says. The buffers of other panes stay.
    pub fn set_pane_content(
        &mut self,
        pane_id: PaneId,
        grid: &[GridLine],
        dirty_rows: Option<&[usize]>,
        cursor_pos: (u16, u16),
        cursor_visible: bool,
        cursor_color: RgbColor,
        default_bg: RgbColor,
        selection: Option<((u16, u16), (u16, u16))>,
        selection_bg: RgbColor,
    ) -> (update: ContentUpdate)
        requires
            forall|r: int| 0 <= r < grid@.len() ==> (#[trigger] grid@[r])@.len() <= 0xffff,
        ensures
            final(self).pane_buffers@.dom() == old(self).pane_buffers@.dom().insert(pane_id),
            forall|p: PaneId|
                p != pane_id && old(self).pane_buffers@.contains_key(p) ==> #[trigger] final(self).pane_buffers@[p] == old(self).pane_buffers@[p],
            content_set(
                buffer_of(old(self).pane_buffers@, pane_id),
                final(self).pane_buffers@[pane_id]@,
                grid@,
                named_rows(dirty_rows),
                cursor_pos,
                cursor_visible,
                cursor_color,
                default_bg,
                selection,
                selection_bg,
                update,
            ),
    {
        broadcast use vstd::std_specs::hash::group_hash_axioms;

        let mut buffer = match self.pane_buffers.remove(&pane_id) {
            Some(buffer) => buffer,
            None => PaneBuffer::new(),
        };
        assert(buffer@ == buffer_of(old(self).pane_buffers@, pane_id)) by {
            if !old(self).pane_buffers@.contains_key(pane_id) {
                assert(buffer@.lines =~= fresh_buffer().lines);
                assert(buffer@.content_bg_spans =~= fresh_buffer().content_bg_spans);
                assert(buffer@.selection_bg_spans =~= fresh_buffer().selection_bg_spans);
            }
        }
        let update = buffer.set_pane_content(
            grid,
            dirty_rows,
            cursor_pos,
            cursor_visible,
            cursor_color,
            default_bg,
            selection,
            selection_bg,
        );
        let _ = self.pane_buffers.insert(pane_id, buffer);
        assert(self.pane_buffers@.dom() =~= old(self).pane_buffers@.dom().insert(pane_id));
        update
    }

    /// Forgets a pane.
    pub fn remove_pane(&mut self, pane_id: PaneId)
        ensures
            final(self).pane_buffers@ == old(self).pane_buffers@.remove(pane_id),
    {
        broadcast use vstd::std_specs::hash::group_hash_axioms;

        let _ = self.pane_buffers.remove(&pane_id);
    }

    /// The background spans of the listed panes, in drawing order.
    pub fn collect_bg_rects(&self, panes: &[PaneId]) -> (rects: Vec<(PaneId, BgSpan)>)
        ensures
            rects@ == spans_of_panes(self.pane_buffers@, panes@, panes@.len() as int),
    {
        broadcast use vstd::std_specs::hash::group_hash_axioms;

        let mut rects: Vec<(PaneId, BgSpan)> = Vec::new();
        let mut i: usize = 0;
        while i < panes.len()
            invariant
                i <= panes@.len(),
                rects@ == spans_of_panes(self.pane_buffers@, panes@, i as int),
            decreases panes@.len() - i,
        {
            let pane = panes[i];
            match self.pane_buffers.get(&pane) {
                Some(buffer) => {
                    let spans = buffer.collect_bg_spans();
                    let ghost before = rects@;
                    let mut k: usize = 0;
                    while k < spans.len()
                        invariant
                            k <= spans@.len(),
                            rects@ == before + spans@.take(k as int).map_values(
                                |s: BgSpan| (pane, s),
                            ),
                        decreases spans@.len() - k,
                    {
                        rects.push((pane, spans[k]));
                        assert(rects@ =~= before + spans@.take(k + 1).map_values(
                            |s: BgSpan| (pane, s),
                        ));
                        k += 1;
                    }
                    assert(spans@.take(k as int) =~= spans@);
                },
                None => {},
            }
            i += 1;
        }
        rects
    }
}

} // verus!
