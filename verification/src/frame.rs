//! One frame: where each pane lies in the window, how many cells it holds,
//! where the dividers between panes are drawn, and which panes have to hand
//! new content to the renderer.
//!
//! Lengths on screen are whole physical pixels; the size of a cell is given
//! in 64ths of a pixel.

use vstd::prelude::*;
use crate::color::{RgbColor, Theme};
use crate::emulator::{
    all_rows, cursor_cell, delta_matches, term_columns, term_cursor, term_viewport, TerminalEmulator,
};
use crate::grid::{normalized_ends, GridDelta, GridLine, Selection};
use crate::render::{content_set, ContentUpdate, PaneBuffer};
use crate::split::{
    first_index, layout_ids, layout_of, lemma_first_index, rect_inside, tiles, unit_square, PaneId,
    PaneRect, SplitTree, UNIT,
};

verus! {

/// A rectangle in the window, in physical pixels.
#[derive(Debug, Clone, Copy, PartialEq, Eq, Structural)]
pub struct PixelRect {
    pub x: u32,
    pub y: u32,
    pub w: u32,
    pub h: u32,
}

/// A side that lies closer than this to the edge of the layout square counts
/// as lying on it: a thousandth of the side.
pub const EDGE_SNAP: u64 = 1_000_000;

/// A length of the layout square in pixels of a side of `side` pixels,
/// rounded down.
pub open spec fn scaled(v: u64, side: u32) -> int {
    v as int * side as int / UNIT as int
}

/// `a - b`, or zero where that is negative.
pub open spec fn minus_or_zero(a: int, b: int) -> int {
    if a >= b {
        a - b
    } else {
        0
    }
}

/// The pixels of a pane: its share of the window below the tab bar, drawn
/// back by `gap` on each side that borders another pane.
pub open spec fn pixel_rect_of(rect: PaneRect, window_w: u32, window_h: u32, gap: u32, tab_bar_h: u32) -> PixelRect {
    let content_w: u32 = if window_w < 1 {
        1
    } else {
        window_w
    };
    let content_h: u32 = minus_or_zero(window_h as int, tab_bar_h as int) as u32;
    let left: int = if rect.x > EDGE_SNAP {
        gap as int
    } else {
        0
    };
    let top: int = if rect.y > EDGE_SNAP {
        gap as int
    } else {
        0
    };
    let right: int = if rect.x + rect.width < UNIT - EDGE_SNAP {
        gap as int
    } else {
        0
    };
    let bottom: int = if rect.y + rect.height < UNIT - EDGE_SNAP {
        gap as int
    } else {
        0
    };
    PixelRect {
        x: (scaled(rect.x, content_w) + left) as u32,
        y: (scaled(rect.y, content_h) + top + tab_bar_h) as u32,
        w: minus_or_zero(scaled(rect.width, content_w), left + right) as u32,
        h: minus_or_zero(scaled(rect.height, content_h), top + bottom) as u32,
    }
}

fn scale(v: u64, side: u32) -> (r: u64)
    requires
        v <= UNIT,
    ensures
        r == scaled(v, side),
        r <= side,
{
    assert(v * side <= 1_000_000_000 * 0xffff_ffff) by (nonlinear_arith)
        requires
            v <= 1_000_000_000,
            side <= 0xffff_ffff,
    ;
    assert(v as int * side as int / 1_000_000_000 <= side) by (nonlinear_arith)
        requires
            0 <= v <= 1_000_000_000,
            0 <= side,
    ;
    v * (side as u64) / UNIT
}

/// Maps a pane's rectangle in the layout square to pixels of the window.
pub fn pane_to_pixel_rect(
    pane_rect: &PaneRect,
    window_w: u32,
    window_h: u32,
    gap: u32,
    tab_bar_h: u32,
) -> (r: PixelRect)
    requires
        pane_rect.x + pane_rect.width <= UNIT,
        pane_rect.y + pane_rect.height <= UNIT,
        window_w as int + gap as int <= u32::MAX,
        window_h as int + gap as int <= u32::MAX,
        tab_bar_h as int + gap as int <= u32::MAX,
    ensures
        r == pixel_rect_of(*pane_rect, window_w, window_h, gap, tab_bar_h),
{
    let content_w: u32 = if window_w < 1 {
        1
    } else {
        window_w
    };
    let content_h: u32 = if window_h >= tab_bar_h {
        window_h - tab_bar_h
    } else {
        0
    };
    let g = gap as u64;
    let left: u64 = if pane_rect.x > EDGE_SNAP {
        g
    } else {
        0
    };
    let top: u64 = if pane_rect.y > EDGE_SNAP {
        g
    } else {
        0
    };
    let right: u64 = if pane_rect.x + pane_rect.width < UNIT - EDGE_SNAP {
        g
    } else {
        0
    };
    let bottom: u64 = if pane_rect.y + pane_rect.height < UNIT - EDGE_SNAP {
        g
    } else {
        0
    };
    let x = scale(pane_rect.x, content_w) + left;
    let y = scale(pane_rect.y, content_h) + top + tab_bar_h as u64;
    let w = scale(pane_rect.width, content_w);
    let h = scale(pane_rect.height, content_h);
    PixelRect {
        x: x as u32,
        y: y as u32,
        w: (if w >= left + right {
            w - (left + right)
        } else {
            0
        }) as u32,
        h: (if h >= top + bottom {
            h - (top + bottom)
        } else {
            0
        }) as u32,
    }
}

/// How many cells of `cell` 64ths of a pixel fit into `len` pixels: at least
/// one, at most 65535.
pub open spec fn cells_in(len: u32, cell: u32) -> u16 {
    if cell == 0 {
        if len == 0 {
            1
        } else {
            u16::MAX
        }
    } else {
        let n = len as int * 64 / cell as int;
        if n < 1 {
            1
        } else if n > u16::MAX {
            u16::MAX
        } else {
            n as u16
        }
    }
}

fn cells_that_fit(len: u32, cell: u32) -> (n: u16)
    ensures
        n == cells_in(len, cell),
{
    if cell == 0 {
        return if len == 0 {
            1
        } else {
            u16::MAX
        };
    }
    let n: u64 = len as u64 * 64 / cell as u64;
    if n < 1 {
        1
    } else if n > 65535 {
        u16::MAX
    } else {
        n as u16
    }
}

/// The columns and rows of a terminal that fills the rectangle, for cells of
/// the given width and height in 64ths of a pixel.
pub fn pixel_rect_to_cols_rows(rect: &PixelRect, cell_w: u32, cell_h: u32) -> (r: (u16, u16))
    ensures
        r.0 == cells_in(rect.w, cell_w),
        r.1 == cells_in(rect.h, cell_h),
{
    (cells_that_fit(rect.w, cell_w), cells_that_fit(rect.h, cell_h))
}

/// The divider at the right edge of a pane, if that edge lies inside the
/// layout square: a vertical line, `thickness` wide, centred on the edge.
pub open spec fn right_divider(rect: PaneRect, window_w: u32, window_h: u32, thickness: u32, tab_bar_h: u32) -> Option<
    PixelRect,
> {
    let cw: u32 = if window_w < 1 {
        1
    } else {
        window_w
    };
    let ch: u32 = minus_or_zero(window_h as int, tab_bar_h as int) as u32;
    let right = rect.x + rect.width;
    if EDGE_SNAP < right < UNIT - EDGE_SNAP {
        Some(
            PixelRect {
                x: minus_or_zero(scaled(right as u64, cw), thickness as int / 2) as u32,
                y: (scaled(rect.y, ch) + tab_bar_h) as u32,
                w: thickness,
                h: scaled(rect.height, ch) as u32,
            },
        )
    } else {
        None
    }
}

/// The divider at the bottom edge of a pane, if that edge lies inside the
/// layout square: a horizontal line, `thickness` high, centred on the edge.
pub open spec fn bottom_divider(rect: PaneRect, window_w: u32, window_h: u32, thickness: u32, tab_bar_h: u32) -> Option<
    PixelRect,
> {
    let cw: u32 = if window_w < 1 {
        1
    } else {
        window_w
    };
    let ch: u32 = minus_or_zero(window_h as int, tab_bar_h as int) as u32;
    let bottom = rect.y + rect.height;
    if EDGE_SNAP < bottom < UNIT - EDGE_SNAP {
        Some(
            PixelRect {
                x: scaled(rect.x, cw) as u32,
                y: minus_or_zero(scaled(bottom as u64, ch) + tab_bar_h, thickness as int / 2) as u32,
                w: scaled(rect.width, cw) as u32,
                h: thickness,
            },
        )
    } else {
        None
    }
}

/// `rects` with `extra` at its end, unless it is there already or there is
/// none.
pub open spec fn with_divider(rects: Seq<PixelRect>, extra: Option<PixelRect>) -> Seq<PixelRect> {
    match extra {
        Some(r) => if rects.contains(r) {
            rects
        } else {
            rects.push(r)
        },
        None => rects,
    }
}

/// The dividers of the first `upto` panes of a layout: for each pane its
/// right and then its bottom divider, each line once.
pub open spec fn dividers_upto(
    layout: Seq<(PaneId, PaneRect)>,
    window_w: u32,
    window_h: u32,
    thickness: u32,
    tab_bar_h: u32,
    upto: int,
) -> Seq<PixelRect>
    decreases upto,
{
    if upto <= 0 {
        Seq::empty()
    } else {
        let before = dividers_upto(layout, window_w, window_h, thickness, tab_bar_h, upto - 1);
        let rect = layout[upto - 1].1;
        with_divider(
            with_divider(before, right_divider(rect, window_w, window_h, thickness, tab_bar_h)),
            bottom_divider(rect, window_w, window_h, thickness, tab_bar_h),
        )
    }
}

fn holds_rect(rects: &Vec<PixelRect>, r: PixelRect) -> (b: bool)
    ensures
        b == rects@.contains(r),
{
    let mut i: usize = 0;
    while i < rects.len()
        invariant
            i <= rects@.len(),
            forall|k: int| 0 <= k < i ==> rects@[k] != r,
        decreases rects@.len() - i,
    {
        let q = rects[i];
        if q.x == r.x && q.y == r.y && q.w == r.w && q.h == r.h {
            assert(rects@[i as int] == r);
            return true;
        }
        i += 1;
    }
    false
}

fn push_divider(rects: &mut Vec<PixelRect>, extra: Option<PixelRect>)
    ensures
        final(rects)@ == with_divider(old(rects)@, extra),
{
    match extra {
        Some(r) => {
            if !holds_rect(rects, r) {
                rects.push(r);
            }
        },
        None => {},
    }
}

/// The lines to draw between the panes of a layout. A single pane has none.
pub fn build_divider_rects(
    layout: &[(PaneId, PaneRect)],
    window_w: u32,
    window_h: u32,
    thickness: u32,
    tab_bar_h: u32,
) -> (rects: Vec<PixelRect>)
    requires
        forall|i: int|
            0 <= i < layout@.len() ==> (#[trigger] layout@[i]).1.x + layout@[i].1.width <= UNIT
                && layout@[i].1.y + layout@[i].1.height <= UNIT,
    ensures
        rects@ == if layout@.len() <= 1 {
            Seq::empty()
        } else {
            dividers_upto(layout@, window_w, window_h, thickness, tab_bar_h, layout@.len() as int)
        },
{
    let mut rects: Vec<PixelRect> = Vec::new();
    if layout.len() <= 1 {
        return rects;
    }
    let cw: u32 = if window_w < 1 {
        1
    } else {
        window_w
    };
    let ch: u32 = if window_h >= tab_bar_h {
        window_h - tab_bar_h
    } else {
        0
    };
    let half = (thickness / 2) as u64;
    let mut i: usize = 0;
    while i < layout.len()
        invariant
            i <= layout@.len(),
            cw == if window_w < 1 { 1u32 } else { window_w },
            ch == minus_or_zero(window_h as int, tab_bar_h as int),
            half == thickness as int / 2,
            forall|k: int|
                0 <= k < layout@.len() ==> (#[trigger] layout@[k]).1.x + layout@[k].1.width <= UNIT
                    && layout@[k].1.y + layout@[k].1.height <= UNIT,
            rects@ == dividers_upto(layout@, window_w, window_h, thickness, tab_bar_h, i as int),
        decreases layout@.len() - i,
    {
        let pr = layout[i].1;
        let right = pr.x + pr.width;
        let vertical = if right > EDGE_SNAP && right < UNIT - EDGE_SNAP {
            let px = scale(right, cw);
            let py = scale(pr.y, ch) + tab_bar_h as u64;
            let ph = scale(pr.height, ch);
            assert(py <= 0xffff_ffff);
            Some(
                PixelRect {
                    x: (if px >= half {
                        px - half
                    } else {
                        0
                    }) as u32,
                    y: py as u32,
                    w: thickness,
                    h: ph as u32,
                },
            )
        } else {
            None
        };
        push_divider(&mut rects, vertical);
        let bottom = pr.y + pr.height;
        let horizontal = if bottom > EDGE_SNAP && bottom < UNIT - EDGE_SNAP {
            let py = scale(bottom, ch) + tab_bar_h as u64;
            let px = scale(pr.x, cw);
            let pw = scale(pr.width, cw);
            assert(py <= 0xffff_ffff);
            Some(
                PixelRect {
                    x: px as u32,
                    y: (if py >= half {
                        py - half
                    } else {
                        0
                    }) as u32,
                    w: pw as u32,
                    h: thickness,
                },
            )
        } else {
            None
        };
        push_divider(&mut rects, horizontal);
        i += 1;
    }
    rects
}

/// What the frame keeps of a pane between frames.
pub struct PaneFrameState {
    /// The renderer's copy of the viewport.
    pub render_grid: Vec<GridLine>,
    /// The rows that the last extraction changed.
    pub render_dirty_rows: Vec<usize>,
    /// Whether the cursor was shown in the last frame.
    pub last_cursor_visible: bool,
}

/// Whether a pane hands new content to the renderer in this frame: its
/// terminal has new output, or the pane gained or lost the cursor, or it is
/// the active pane and holds a selection.
pub open spec fn needs_content(
    content_dirty: bool,
    last_cursor_visible: bool,
    is_active: bool,
    has_selection: bool,
) -> bool {
    content_dirty || last_cursor_visible != is_active || (is_active && has_selection)
}

impl PaneFrameState {
    /// The state of a pane that was never drawn: the cursor counts as shown.
    pub fn new() -> (s: Self)
        ensures
            s.render_grid@.len() == 0,
            s.render_dirty_rows@.len() == 0,
            s.last_cursor_visible,
    {
        PaneFrameState { render_grid: Vec::new(), render_dirty_rows: Vec::new(), last_cursor_visible: true }
    }
}

/// Decides whether a pane has to hand new content to the renderer.
pub fn pane_needs_content(
    content_dirty: bool,
    last_cursor_visible: bool,
    is_active: bool,
    has_selection: bool,
) -> (b: bool)
    ensures
        b == needs_content(content_dirty, last_cursor_visible, is_active, has_selection),
{
    content_dirty || last_cursor_visible != is_active || (is_active && has_selection)
}

/// No row has more than 65535 cells.
pub open spec fn rows_fit_cells(grid: Seq<GridLine>) -> bool {
    forall|r: int| 0 <= r < grid.len() ==> (#[trigger] grid[r])@.len() <= 0xffff
}

/// The rows that a frame names to the pane's buffer after an extraction:
/// all of them after a full one, else the rewritten ones.
pub open spec fn listed_rows(delta: GridDelta, rows: nat) -> Seq<usize> {
    if delta.full {
        all_rows(rows)
    } else {
        delta.dirty_rows@
    }
}

/// The selection that a pane is shown with: that of the window in the
/// active pane, in reading order, and none in any other.
pub open spec fn selection_for(is_active: bool, selection: Option<Selection>) -> Option<
    ((u16, u16), (u16, u16)),
> {
    if is_active {
        match selection {
            Some(s) => Some(normalized_ends(s.start, s.end)),
            None => None,
        }
    } else {
        None
    }
}

/// The viewport is extracted in this frame: there is new output, or nothing
/// was extracted yet.
pub open spec fn extracts(content_dirty: bool, grid: Seq<GridLine>) -> bool {
    content_dirty || grid.len() == 0
}

/// The part of a frame that belongs to one pane.
///
/// Nothing happens to a pane that does not need content. For one that does,
/// the viewport is extracted into the pane's copy if there is new output or
/// nothing was extracted yet, and the rows that the extraction changed are
/// kept. The copy then goes to the pane's buffer as [`content_set`] says,
/// with the rows kept where there is new output and with no rows otherwise,
/// the cursor shown in the active pane only and the selection passed on for
/// the active pane only. Nothing goes to the buffer from a viewport with a
/// row of more than 65535 cells.
pub fn frame_pane(
    state: &mut PaneFrameState,
    emulator: &mut TerminalEmulator,
    buffer: &mut PaneBuffer,
    theme: &Theme,
    content_dirty: bool,
    is_active: bool,
    selection: Option<Selection>,
) -> (update: Option<ContentUpdate>)
    requires
        old(emulator).wf(),
    ensures
        final(emulator).wf(),
        final(emulator).render_cache@ == old(emulator).render_cache@,
        term_viewport(final(emulator).term()) == term_viewport(old(emulator).term()),
        term_columns(final(emulator).term()) == term_columns(old(emulator).term()),
        update is Some == (needs_content(
            content_dirty,
            old(state).last_cursor_visible,
            is_active,
            selection is Some,
        ) && rows_fit_cells(final(state).render_grid@)),
        !needs_content(content_dirty, old(state).last_cursor_visible, is_active, selection is Some)
            ==> *final(state) == *old(state) && *final(emulator) == *old(emulator),
        update is None ==> *final(buffer) == *old(buffer) && final(state).last_cursor_visible
            == old(state).last_cursor_visible,
        needs_content(content_dirty, old(state).last_cursor_visible, is_active, selection is Some)
            && extracts(content_dirty, old(state).render_grid@) ==> exists|delta: GridDelta|
            #[trigger] delta_matches(
                old(state).render_grid@,
                final(state).render_grid@,
                old(emulator).term(),
                *theme,
                delta,
            ) && final(state).render_dirty_rows@ == listed_rows(
                delta,
                final(state).render_grid@.len(),
            ),
        !extracts(content_dirty, old(state).render_grid@) ==> final(state).render_grid == old(state).render_grid && final(state).render_dirty_rows == old(state).render_dirty_rows && *final(emulator) == *old(emulator),
        update is Some ==> final(state).last_cursor_visible == is_active && content_set(
            old(buffer)@,
            final(buffer)@,
            final(state).render_grid@,
            Some(
                if content_dirty {
                    final(state).render_dirty_rows@
                } else {
                    Seq::empty()
                },
            ),
            cursor_cell(term_cursor(old(emulator).term())),
            is_active,
            theme.colors.cursor,
            theme.colors.background,
            selection_for(is_active, selection),
            theme.colors.selection_bg,
            update->Some_0,
        ),
{
    if !pane_needs_content(content_dirty, state.last_cursor_visible, is_active, selection.is_some()) {
        return None;
    }
    let cursor_pos;
    let ghost mut found: Option<GridDelta> = None;
    if content_dirty || state.render_grid.len() == 0 {
        let (delta, cursor) = emulator.extract_grid_delta_with_cursor_into(theme, &mut state.render_grid);
        cursor_pos = cursor;
        proof {
            found = Some(delta);
        }
        if delta.full {
            let mut all: Vec<usize> = Vec::new();
            let mut r: usize = 0;
            while r < state.render_grid.len()
                invariant
                    r <= state.render_grid@.len(),
                    all@ == all_rows(r as nat),
                decreases state.render_grid@.len() - r,
            {
                all.push(r);
                assert(all@ =~= all_rows((r + 1) as nat));
                r += 1;
            }
            state.render_dirty_rows = all;
        } else {
            state.render_dirty_rows = delta.dirty_rows;
        }
        assert(delta_matches(
            old(state).render_grid@,
            state.render_grid@,
            old(emulator).term(),
            *theme,
            found->Some_0,
        ) && state.render_dirty_rows@ == listed_rows(found->Some_0, state.render_grid@.len()));
    } else {
        cursor_pos = emulator.cursor_position();
    }
    if !rows_fit(&state.render_grid) {
        return None;
    }
    let sel = if is_active {
        match selection {
            Some(s) => Some(s.normalized()),
            None => None,
        }
    } else {
        None
    };
    let none: Vec<usize> = Vec::new();
    let rows: &[usize] = if content_dirty {
        state.render_dirty_rows.as_slice()
    } else {
        none.as_slice()
    };
    assert(!content_dirty ==> rows@ =~= Seq::<usize>::empty());
    let update = buffer.set_pane_content(
        state.render_grid.as_slice(),
        Some(rows),
        cursor_pos,
        is_active,
        theme.colors.cursor,
        theme.colors.background,
        sel,
        theme.colors.selection_bg,
    );
    state.last_cursor_visible = is_active;
    proof {
        if extracts(content_dirty, old(state).render_grid@) {
            assert(delta_matches(
                old(state).render_grid@,
                state.render_grid@,
                old(emulator).term(),
                *theme,
                found->Some_0,
            ) && state.render_dirty_rows@ == listed_rows(found->Some_0, state.render_grid@.len()));
        }
    }
    Some(update)
}

fn rows_fit(grid: &Vec<GridLine>) -> (b: bool)
    ensures
        b == rows_fit_cells(grid@),
{
    let mut i: usize = 0;
    while i < grid.len()
        invariant
            i <= grid@.len(),
            forall|r: int| 0 <= r < i ==> (#[trigger] grid@[r])@.len() <= 0xffff,
        decreases grid@.len() - i,
    {
        if grid[i].cells.len() > 0xffff {
            return false;
        }
        i += 1;
    }
    true
}


/// A pane with what a frame needs of it.
pub struct PaneSlot {
    pub id: PaneId,
    pub emulator: TerminalEmulator,
    pub frame: PaneFrameState,
    pub buffer: PaneBuffer,
    /// The terminal has output that no frame has taken yet.
    pub dirty: bool,
}

/// What a frame has to draw.
pub struct FramePlan {
    /// Every pane of the layout with its pixels, in the order of the layout.
    pub pane_rects: Vec<(PaneId, PixelRect)>,
    /// The panes that handed new content to their buffers, with what the
    /// text engine has to do for each.
    pub updates: Vec<(PaneId, ContentUpdate)>,
    /// The lines between the panes; none where no pane was updated, for then
    /// nothing is drawn.
    pub dividers: Vec<PixelRect>,
}

/// The panes of a layout with their pixels.
pub open spec fn pixel_rects_of(
    layout: Seq<(PaneId, PaneRect)>,
    window_w: u32,
    window_h: u32,
    gap: u32,
) -> Seq<(PaneId, PixelRect)> {
    layout.map_values(|p: (PaneId, PaneRect)| (p.0, pixel_rect_of(p.1, window_w, window_h, gap, 0)))
}

/// The panes that were updated, in order.
pub open spec fn updated_panes(updates: Seq<(PaneId, ContentUpdate)>) -> Seq<PaneId> {
    updates.map_values(|u: (PaneId, ContentUpdate)| u.0)
}

/// The ids of the slots, in order.
pub open spec fn slot_ids(slots: Seq<PaneSlot>) -> Seq<PaneId> {
    slots.map_values(|s: PaneSlot| s.id)
}

fn slot_position(slots: &Vec<PaneSlot>, pane: PaneId) -> (i: usize)
    ensures
        i <= slots@.len(),
        i < slots@.len() ==> slots@[i as int].id == pane,
        forall|k: int| 0 <= k < i ==> (#[trigger] slots@[k]).id != pane,
        i == first_index(slot_ids(slots@), pane),
{
    let mut i: usize = 0;
    while i < slots.len() && slots[i].id != pane
        invariant
            i <= slots@.len(),
            forall|k: int| 0 <= k < i ==> (#[trigger] slots@[k]).id != pane,
        decreases slots@.len() - i,
    {
        i += 1;
    }
    proof {
        let ids = slot_ids(slots@);
        assert forall|j: int| 0 <= j < i implies ids[j] != pane by {
            assert(slots@[j].id != pane);
        }
        lemma_first_index(ids, pane, i as int);
    }
    i
}

/// An entry of the layout before the `upto`th names the pane.
pub open spec fn laid_before(layout: Seq<(PaneId, PaneRect)>, upto: int, pane: PaneId) -> bool {
    exists|j: int| 0 <= j < upto && (#[trigger] layout[j]).0 == pane
}

/// The pane of the `i`th entry of the layout was served: where it has a
/// slot, needed content as the slot was before the frame, and the rows of
/// its copy of the viewport fit, it is among the updated panes and its slot
/// is not dirty.
pub open spec fn pane_served(
    layout: Seq<(PaneId, PaneRect)>,
    i: int,
    before: Seq<PaneSlot>,
    after: Seq<PaneSlot>,
    active_pane: PaneId,
    selection: Option<Selection>,
    updated: Seq<PaneId>,
) -> bool {
    let id = layout[i].0;
    let at = first_index(slot_ids(before), id);
    at < before.len() && needs_content(
        before[at].dirty,
        before[at].frame.last_cursor_visible,
        id == active_pane,
        selection is Some,
    ) && rows_fit_cells(after[at].frame.render_grid@) ==> updated.contains(id) && !after[at].dirty
}

/// One frame over the panes of a split tree. Each pane of the layout gets
/// its pixels. A pane that has a slot hands new content to its buffer where
/// it needs to, with the cursor and the selection in the active pane only,
/// and its dirty mark is cleared once the content is in the buffer. The
/// dividers are laid out where any pane was updated.
pub fn render_frame(
    tree: &SplitTree,
    active_pane: PaneId,
    slots: &mut Vec<PaneSlot>,
    theme: &Theme,
    selection: Option<Selection>,
    window_w: u32,
    window_h: u32,
    gap: u32,
    thickness: u32,
) -> (plan: FramePlan)
    requires
        tree.wf(),
        window_w as int + gap as int <= u32::MAX,
        window_h as int + gap as int <= u32::MAX,
        forall|k: int| 0 <= k < old(slots)@.len() ==> (#[trigger] old(slots)@[k]).emulator.wf(),
    ensures
        forall|k: int| 0 <= k < final(slots)@.len() ==> (#[trigger] final(slots)@[k]).emulator.wf(),
        tree.panes().no_duplicates() ==> forall|i: int|
            0 <= i < layout_of(tree.root, unit_square()).len() ==> #[trigger] pane_served(
                layout_of(tree.root, unit_square()),
                i,
                old(slots)@,
                final(slots)@,
                active_pane,
                selection,
                updated_panes(plan.updates@),
            ),
        plan.pane_rects@ == pixel_rects_of(
            layout_of(tree.root, unit_square()),
            window_w,
            window_h,
            gap,
        ),
        slot_ids(final(slots)@) == slot_ids(old(slots)@),
        plan.dividers@ == if plan.updates@.len() == 0 || layout_of(tree.root, unit_square()).len()
            <= 1 {
            Seq::empty()
        } else {
            dividers_upto(
                layout_of(tree.root, unit_square()),
                window_w,
                window_h,
                thickness,
                0,
                layout_of(tree.root, unit_square()).len() as int,
            )
        },
        forall|i: int|
            0 <= i < plan.updates@.len() ==> tree.panes().contains((#[trigger] plan.updates@[i]).0)
                && slot_ids(old(slots)@).contains(plan.updates@[i].0),
        plan.updates@.len() == 0 ==> forall|k: int|
            0 <= k < old(slots)@.len() ==> (#[trigger] final(slots)@[k]).dirty == old(slots)@[k].dirty
                && final(slots)@[k].buffer == old(slots)@[k].buffer,
        forall|k: int|
            0 <= k < old(slots)@.len() ==> ((#[trigger] final(slots)@[k]).dirty ==> old(slots)@[k].dirty)
                && (old(slots)@[k].dirty && !final(slots)@[k].dirty ==> updated_panes(
                plan.updates@,
            ).contains(old(slots)@[k].id)),
{
    let layout = tree.layout();
    let mut pane_rects: Vec<(PaneId, PixelRect)> = Vec::new();
    let mut updates: Vec<(PaneId, ContentUpdate)> = Vec::new();
    let ghost ids = slot_ids(slots@);
    let ghost panes = tree.panes();
    let mut i: usize = 0;
    while i < layout.len()
        invariant
            i <= layout@.len(),
            layout@ == layout_of(tree.root, unit_square()),
            crate::split::layout_ids(layout@) == panes,
            tiles(layout@, unit_square()),
            window_w as int + gap as int <= u32::MAX,
            window_h as int + gap as int <= u32::MAX,
            pane_rects@ == pixel_rects_of(layout@.take(i as int), window_w, window_h, gap),
            slot_ids(slots@) == ids,
            ids == slot_ids(old(slots)@),
            slots@.len() == old(slots)@.len(),
            panes == tree.panes(),
            forall|k: int| 0 <= k < slots@.len() ==> (#[trigger] slots@[k]).emulator.wf(),
            panes.no_duplicates() ==> forall|k: int|
                0 <= k < slots@.len() && !laid_before(layout@, i as int, ids[k]) ==> #[trigger] slots@[k]
                    == old(slots)@[k],
            panes.no_duplicates() ==> forall|j: int|
                0 <= j < i ==> #[trigger] pane_served(
                    layout@,
                    j,
                    old(slots)@,
                    slots@,
                    active_pane,
                    selection,
                    updated_panes(updates@),
                ),
            forall|k: int|
                0 <= k < updates@.len() ==> panes.contains((#[trigger] updates@[k]).0) && ids.contains(
                    updates@[k].0,
                ),
            updates@.len() == 0 ==> forall|k: int|
                0 <= k < old(slots)@.len() ==> (#[trigger] slots@[k]).dirty == old(slots)@[k].dirty
                    && slots@[k].buffer == old(slots)@[k].buffer,
            forall|k: int|
                0 <= k < old(slots)@.len() ==> ((#[trigger] slots@[k]).dirty ==> old(slots)@[k].dirty)
                    && (old(slots)@[k].dirty && !slots@[k].dirty ==> updated_panes(updates@).contains(
                    old(slots)@[k].id,
                )),
        decreases layout@.len() - i,
    {
        let (pane_id, pane_rect) = layout[i];
        assert(rect_inside(layout@[i as int].1, unit_square()));
        let px = pane_to_pixel_rect(&pane_rect, window_w, window_h, gap, 0);
        pane_rects.push((pane_id, px));
        assert(pane_rects@ =~= pixel_rects_of(layout@.take(i + 1), window_w, window_h, gap));
        let at = slot_position(slots, pane_id);
        let ghost slots_before = slots@;
        let ghost updated_before = updated_panes(updates@);
        if at < slots.len() {
            let ghost before = slots@;
            let ghost updates_before = updates@;
            let mut slot = slots.remove(at);
            let is_active = pane_id == active_pane;
            let update = frame_pane(
                &mut slot.frame,
                &mut slot.emulator,
                &mut slot.buffer,
                theme,
                slot.dirty,
                is_active,
                selection,
            );
            match update {
                Some(update) => {
                    slot.dirty = false;
                    updates.push((pane_id, update));
                    proof {
                        assert(panes[i as int] == layout@[i as int].0);
                        assert(ids[at as int] == pane_id);
                    }
                },
                None => {},
            }
            slots.insert(at, slot);
            proof {
                assert(slot_ids(slots@) =~= slot_ids(before)) by {
                    assert forall|k: int| 0 <= k < before.len() implies slot_ids(slots@)[k]
                        == slot_ids(before)[k] by {
                        if k != at {
                            assert(slots@[k] == before[k]);
                        }
                    }
                }
                if updates@.len() == 0 {
                    assert forall|k: int| 0 <= k < old(slots)@.len() implies (#[trigger] slots@[k]).dirty
                        == old(slots)@[k].dirty && slots@[k].buffer == old(slots)@[k].buffer by {
                        if k != at {
                            assert(slots@[k] == before[k]);
                        }
                    }
                }
                assert forall|k: int| 0 <= k < old(slots)@.len() implies ((#[trigger] slots@[k]).dirty
                    ==> old(slots)@[k].dirty) && (old(slots)@[k].dirty && !slots@[k].dirty
                    ==> updated_panes(updates@).contains(old(slots)@[k].id)) by {
                    assert(slot_ids(before)[k] == before[k].id);
                    assert(slot_ids(old(slots)@)[k] == old(slots)@[k].id);
                    if k != at {
                        assert(slots@[k] == before[k]);
                    }
                    if updated_panes(updates_before).contains(old(slots)@[k].id) {
                        let j = choose|j: int|
                            0 <= j < updates_before.len() && updated_panes(updates_before)[j] == old(slots)@[k].id;
                        assert(updated_panes(updates@)[j] == old(slots)@[k].id);
                    }
                    if k == at && updates@.len() > updates_before.len() {
                        assert(updated_panes(updates@)[updates@.len() - 1] == pane_id);
                    }
                }
                assert forall|k: int| 0 <= k < slots@.len() && k != at implies slots@[k]
                    == slots_before[k] by {}
            }
        }
        proof {
            let updated = updated_panes(updates@);
            assert(layout@[i as int].0 == pane_id);
            assert forall|x: PaneId| updated_before.contains(x) implies updated.contains(x) by {
                let j = choose|j: int| 0 <= j < updated_before.len() && updated_before[j] == x;
                assert(updated[j] == x);
            }
            if panes.no_duplicates() {
                assert(!laid_before(layout@, i as int, pane_id)) by {
                    if laid_before(layout@, i as int, pane_id) {
                        let j = choose|j: int| 0 <= j < i && (#[trigger] layout@[j]).0 == pane_id;
                        assert(layout_ids(layout@)[j] == pane_id);
                        assert(layout_ids(layout@)[i as int] == pane_id);
                    }
                }
                assert forall|k: int|
                    0 <= k < slots@.len() && !laid_before(layout@, i + 1, ids[k]) implies #[trigger] slots@[k]
                    == old(slots)@[k] by {
                    if ids[k] == pane_id {
                        assert(laid_before(layout@, i + 1, ids[k]));
                    }
                    if laid_before(layout@, i as int, ids[k]) {
                        let j = choose|j: int| 0 <= j < i && (#[trigger] layout@[j]).0 == ids[k];
                        assert(laid_before(layout@, i + 1, ids[k]));
                    }
                    assert(ids[k] == slots_before[k].id);
                    if at < slots@.len() {
                        assert(ids[at as int] == pane_id);
                    }
                    assert(slots@[k] == slots_before[k]);
                }
                assert forall|j: int| 0 <= j < i + 1 implies #[trigger] pane_served(
                    layout@,
                    j,
                    old(slots)@,
                    slots@,
                    active_pane,
                    selection,
                    updated,
                ) by {
                    let idj = layout@[j].0;
                    let atj = first_index(slot_ids(old(slots)@), idj);
                    crate::split::lemma_first_index_bounds(slot_ids(old(slots)@), idj);
                    if j < i {
                        assert(pane_served(
                            layout@,
                            j,
                            old(slots)@,
                            slots_before,
                            active_pane,
                            selection,
                            updated_before,
                        ));
                        assert(idj != pane_id) by {
                            assert(layout_ids(layout@)[j] == idj);
                            assert(layout_ids(layout@)[i as int] == pane_id);
                        }
                        if atj < old(slots)@.len() {
                            assert(ids[atj] == idj);
                            if at < slots@.len() {
                                assert(ids[at as int] == pane_id);
                            }
                            assert(slots@[atj] == slots_before[atj]);
                        }
                    } else {
                        assert(atj == at);
                        if at < slots@.len() {
                            assert(slots_before[at as int] == old(slots)@[at as int]);
                            if updates@.len() > updated_before.len() {
                                assert(updated[updated.len() - 1] == pane_id);
                            }
                        }
                    }
                }
            }
        }
        i += 1;
    }
    assert(layout@.take(i as int) =~= layout@);
    let dividers = if updates.len() == 0 {
        Vec::new()
    } else {
        proof {
            assert forall|k: int| 0 <= k < layout@.len() implies (#[trigger] layout@[k]).1.x
                + layout@[k].1.width <= UNIT && layout@[k].1.y + layout@[k].1.height <= UNIT by {
                assert(rect_inside(layout@[k].1, unit_square()));
            }
        }
        build_divider_rects(layout.as_slice(), window_w, window_h, thickness, 0)
    };
    FramePlan { pane_rects, updates, dividers }
}

} // verus!
