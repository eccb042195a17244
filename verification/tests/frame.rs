use pterminal::color::{RgbColor, Theme};
use pterminal::emulator::TerminalEmulator;
use pterminal::frame::{
    build_divider_rects, frame_pane, pane_needs_content, pane_to_pixel_rect,
    pixel_rect_to_cols_rows, render_frame, PaneFrameState, PaneSlot, PixelRect,
};
use pterminal::grid::{GridCell, GridLine, Selection};
use pterminal::input::slint_key_to_bytes;
use pterminal::render::PaneBuffer;
use pterminal::selection::{
    get_selected_text, grid_to_text, line_selection_at, scan_selection_region, word_selection_at,
};
use pterminal::split::{SplitDirection, SplitTree};

const CELL_W: u32 = 10 * 64;
const CELL_H: u32 = 20 * 64;

fn grid_sizes(tree: &SplitTree, w: u32, h: u32) -> Vec<(u64, (u16, u16))> {
    tree.layout()
        .iter()
        .map(|(id, rect)| {
            let px = pane_to_pixel_rect(rect, w, h, 1, 0);
            (*id, pixel_rect_to_cols_rows(&px, CELL_W, CELL_H))
        })
        .collect()
}

#[test]
fn split_halves_the_columns_and_closing_gives_them_back() {
    let mut tree = SplitTree::new(1);
    assert_eq!(grid_sizes(&tree, 800, 480), vec![(1, (80, 24))]);
    tree.split(1, SplitDirection::Horizontal, 2);
    assert_eq!(grid_sizes(&tree, 800, 480), vec![(1, (39, 24)), (2, (39, 24))]);
    assert!(tree.remove(1));
    assert_eq!(grid_sizes(&tree, 800, 480), vec![(2, (80, 24))]);
    tree.split(2, SplitDirection::Vertical, 3);
    assert_eq!(grid_sizes(&tree, 800, 480), vec![(2, (80, 11)), (3, (80, 11))]);
    assert!(tree.remove(3));
    assert_eq!(grid_sizes(&tree, 800, 480), vec![(2, (80, 24))]);
}

#[test]
fn pixel_rects_leave_a_gap_between_panes_only() {
    let mut tree = SplitTree::new(1);
    tree.split(1, SplitDirection::Horizontal, 2);
    tree.split(2, SplitDirection::Vertical, 3);
    let layout = tree.layout();
    let rects: Vec<PixelRect> = layout.iter().map(|(_, r)| pane_to_pixel_rect(r, 1000, 600, 2, 40)).collect();
    assert_eq!(rects[0], PixelRect { x: 0, y: 40, w: 498, h: 560 });
    assert_eq!(rects[1], PixelRect { x: 502, y: 40, w: 498, h: 278 });
    assert_eq!(rects[2], PixelRect { x: 502, y: 322, w: 498, h: 278 });
    let whole = SplitTree::new(9).layout();
    assert_eq!(pane_to_pixel_rect(&whole[0].1, 0, 10, 3, 50), PixelRect { x: 0, y: 50, w: 1, h: 0 });
    assert_eq!(pixel_rect_to_cols_rows(&PixelRect { x: 0, y: 0, w: 0, h: 7 }, CELL_W, 0), (1, 65535));
    assert_eq!(pixel_rect_to_cols_rows(&PixelRect { x: 0, y: 0, w: 0, h: 0 }, 0, 0), (1, 1));
    assert_eq!(pixel_rect_to_cols_rows(&PixelRect { x: 0, y: 0, w: u32::MAX, h: 39 }, 64, CELL_H), (65535, 1));
}

#[test]
fn dividers_are_drawn_once_at_inner_edges() {
    let mut tree = SplitTree::new(1);
    assert!(build_divider_rects(&tree.layout(), 1000, 600, 2, 0).is_empty());
    tree.split(1, SplitDirection::Horizontal, 2);
    assert_eq!(
        build_divider_rects(&tree.layout(), 1000, 600, 2, 0),
        vec![PixelRect { x: 499, y: 0, w: 2, h: 600 }]
    );
    tree.split(2, SplitDirection::Vertical, 3);
    tree.split(1, SplitDirection::Vertical, 4);
    let rects = build_divider_rects(&tree.layout(), 1000, 600, 2, 0);
    assert_eq!(
        rects,
        vec![
            PixelRect { x: 499, y: 0, w: 2, h: 300 },
            PixelRect { x: 0, y: 299, w: 500, h: 2 },
            PixelRect { x: 499, y: 300, w: 2, h: 300 },
            PixelRect { x: 500, y: 299, w: 500, h: 2 },
        ]
    );
}

#[test]
fn panes_hand_over_content_only_when_needed() {
    assert!(pane_needs_content(true, true, true, false));
    assert!(pane_needs_content(false, true, false, false));
    assert!(pane_needs_content(false, false, true, false));
    assert!(pane_needs_content(false, true, true, true));
    assert!(!pane_needs_content(false, true, true, false));
    assert!(!pane_needs_content(false, false, false, true));

    let theme = Theme::default();
    let mut emu = TerminalEmulator::new(20, 4);
    let mut state = PaneFrameState::new();
    let mut buffer = PaneBuffer::new();
    emu.process(b"hello");
    assert!(frame_pane(&mut state, &mut emu, &mut buffer, &theme, false, true, None).is_none());
    let first = frame_pane(&mut state, &mut emu, &mut buffer, &theme, true, true, None).unwrap();
    assert_eq!(first.requests.len(), 1);
    assert_eq!(first.requests[0].text.trim_end(), "hello");
    assert_eq!(state.render_grid.len(), 4);
    assert_eq!(buffer.cursor, Some((5, 0, theme.colors.cursor)));
    assert_eq!(buffer.text_rows(), vec![0]);
    assert!(frame_pane(&mut state, &mut emu, &mut buffer, &theme, false, true, None).is_none());
    let sel = Selection { start: (3, 0), end: (1, 0) };
    let with_sel = frame_pane(&mut state, &mut emu, &mut buffer, &theme, false, true, Some(sel)).unwrap();
    assert!(with_sel.selection_rebuilt);
    assert!(with_sel.requests.is_empty());
    assert_eq!(buffer.selection_bg_spans.len(), 1);
    assert_eq!((buffer.selection_bg_spans[0].col, buffer.selection_bg_spans[0].width), (1, 3));
    let again = frame_pane(&mut state, &mut emu, &mut buffer, &theme, false, true, Some(sel)).unwrap();
    assert!(!again.selection_rebuilt);
    assert_eq!(buffer.selection_rebuilds, 2);
    let blurred = frame_pane(&mut state, &mut emu, &mut buffer, &theme, false, false, Some(sel)).unwrap();
    assert!(blurred.selection_rebuilt);
    assert_eq!(buffer.cursor, None);
    assert!(!state.last_cursor_visible);
    assert!(frame_pane(&mut state, &mut emu, &mut buffer, &theme, false, false, Some(sel)).is_none());
}

fn text_line(s: &str) -> GridLine {
    let c = RgbColor::new(0, 0, 0);
    GridLine {
        cells: s
            .chars()
            .map(|ch| GridCell { c: ch, fg: c, bg: c, bold: false, italic: false, underline: false, wide_spacer: false })
            .collect(),
    }
}

#[test]
fn selected_text_is_trimmed_row_by_row() {
    let grid = vec![text_line("hello world   "), text_line("  \0\0  "), text_line("foo_bar baz  ")];
    assert_eq!(grid_to_text(&grid), "hello world\n\nfoo_bar baz");
    assert_eq!(grid_to_text(&[]), "");
    assert_eq!(get_selected_text(&grid, (6, 0), (2, 2)), Some("world\n\nfoo".to_string()));
    assert_eq!(get_selected_text(&grid, (0, 0), (4, 0)), Some("hello".to_string()));
    assert_eq!(get_selected_text(&grid, (11, 0), (13, 0)), None);
    assert_eq!(get_selected_text(&grid, (11, 0), (0, 1)), Some("\n".to_string()));
    assert_eq!(get_selected_text(&grid, (0, 2), (500, 9)), Some("foo_bar baz\n".to_string()));
    assert_eq!(get_selected_text(&grid, (0, 2), (500, 2)), Some("foo_bar baz".to_string()));
    assert_eq!(get_selected_text(&grid, (0, 3), (5, 4)), None);
    assert_eq!(get_selected_text(&grid, (20, 0), (1, 0)), None);
}

#[test]
fn double_click_selects_the_word_and_triple_click_the_line() {
    let grid = vec![text_line("go foo_bar9 \u{e9}t\u{e9}.")];
    let s = word_selection_at(&grid, 5, 0);
    assert_eq!((s.start, s.end), ((3, 0), (10, 0)));
    let s = word_selection_at(&grid, 0, 0);
    assert_eq!((s.start, s.end), ((0, 0), (1, 0)));
    let s = word_selection_at(&grid, 13, 0);
    assert_eq!((s.start, s.end), ((12, 0), (14, 0)));
    let s = word_selection_at(&grid, 2, 0);
    assert_eq!((s.start, s.end), ((2, 0), (2, 0)));
    let s = word_selection_at(&grid, 40, 0);
    assert_eq!((s.start, s.end), ((40, 0), (40, 0)));
    let s = word_selection_at(&grid, 1, 7);
    assert_eq!((s.start, s.end), ((1, 7), (1, 7)));
    let s = line_selection_at(80, 3);
    assert_eq!((s.start, s.end), ((0, 3), (79, 3)));
    let s = line_selection_at(0, 3);
    assert_eq!((s.start, s.end), ((0, 3), (0, 3)));
}

#[test]
fn keys_send_xterm_sequences() {
    assert_eq!(slint_key_to_bytes('\u{F700}', false, ""), Some(b"\x1b[A".to_vec()));
    assert_eq!(slint_key_to_bytes('\u{F701}', false, ""), Some(b"\x1b[B".to_vec()));
    assert_eq!(slint_key_to_bytes('\u{F702}', false, ""), Some(b"\x1b[D".to_vec()));
    assert_eq!(slint_key_to_bytes('\u{F703}', true, "x"), Some(b"\x1b[C".to_vec()));
    assert_eq!(slint_key_to_bytes('\u{0008}', false, ""), Some(vec![0x7f]));
    assert_eq!(slint_key_to_bytes('\u{000a}', false, "\n"), Some(b"\r".to_vec()));
    assert_eq!(slint_key_to_bytes('\u{0009}', false, ""), Some(b"\t".to_vec()));
    assert_eq!(slint_key_to_bytes('\u{001b}', false, ""), Some(vec![0x1b]));
    assert_eq!(slint_key_to_bytes('\u{007f}', false, ""), Some(b"\x1b[3~".to_vec()));
    assert_eq!(slint_key_to_bytes('\u{F729}', false, ""), Some(b"\x1b[H".to_vec()));
    assert_eq!(slint_key_to_bytes('\u{F72B}', false, ""), Some(b"\x1b[F".to_vec()));
    assert_eq!(slint_key_to_bytes('\u{F72C}', false, ""), Some(b"\x1b[5~".to_vec()));
    assert_eq!(slint_key_to_bytes('\u{F72D}', false, ""), Some(b"\x1b[6~".to_vec()));
    assert_eq!(slint_key_to_bytes('\u{F727}', false, ""), Some(b"\x1b[2~".to_vec()));
    assert_eq!(slint_key_to_bytes(' ', true, "zz"), Some(b" ".to_vec()));
    assert_eq!(slint_key_to_bytes('c', true, "c"), Some(vec![3]));
    assert_eq!(slint_key_to_bytes('Z', true, "Z"), Some(vec![26]));
    assert_eq!(slint_key_to_bytes('a', true, "a"), Some(vec![1]));
    assert_eq!(slint_key_to_bytes('1', true, "1"), Some(b"1".to_vec()));
    assert_eq!(slint_key_to_bytes('c', false, "c"), Some(b"c".to_vec()));
    assert_eq!(slint_key_to_bytes('\u{e9}', false, "\u{e9}"), Some("\u{e9}".as_bytes().to_vec()));
}

#[test]
fn region_scan_counts_cells_and_sums_weights() {
    let grid = vec![text_line("abc"), text_line("de"), text_line("fgh")];
    assert_eq!(scan_selection_region(&grid, (1, 0), (0, 2)), (5, 98 + 99 + 100 + 101 + 102));
    assert_eq!(scan_selection_region(&grid, (0, 1), (9, 1)), (2, 201));
    assert_eq!(scan_selection_region(&grid, (2, 1), (9, 1)), (0, 0));
    assert_eq!(scan_selection_region(&grid, (7, 0), (1, 0)), (0, 0));
    assert_eq!(scan_selection_region(&grid, (0, 2), (0, 9)), (3, 102 + 103 + 104));
    assert_eq!(scan_selection_region(&grid, (0, 5), (0, 9)), (0, 0));
}

fn slot(id: u64, output: &[u8]) -> PaneSlot {
    let mut emulator = TerminalEmulator::new(30, 5);
    emulator.process(output);
    PaneSlot { id, emulator, frame: PaneFrameState::new(), buffer: PaneBuffer::new(), dirty: true }
}

#[test]
fn a_frame_lays_out_every_pane_and_updates_the_dirty_ones() {
    let theme = Theme::default();
    let mut tree = SplitTree::new(1);
    tree.split(1, SplitDirection::Horizontal, 2);
    tree.split(2, SplitDirection::Vertical, 3);
    let mut slots = vec![slot(2, b"two"), slot(1, b"one")];
    let plan = render_frame(&tree, 2, &mut slots, &theme, None, 1000, 600, 1, 2);
    assert_eq!(
        plan.pane_rects,
        vec![
            (1, PixelRect { x: 0, y: 0, w: 499, h: 600 }),
            (2, PixelRect { x: 501, y: 0, w: 499, h: 299 }),
            (3, PixelRect { x: 501, y: 301, w: 499, h: 299 }),
        ]
    );
    assert_eq!(plan.updates.iter().map(|u| u.0).collect::<Vec<_>>(), vec![1, 2]);
    assert_eq!(plan.updates[0].1.requests[0].text.trim_end(), "one");
    assert_eq!(
        plan.dividers,
        vec![PixelRect { x: 499, y: 0, w: 2, h: 600 }, PixelRect { x: 500, y: 299, w: 500, h: 2 }]
    );
    assert!(slots.iter().all(|s| !s.dirty));
    assert_eq!(slots.iter().map(|s| s.id).collect::<Vec<_>>(), vec![2, 1]);
    assert_eq!(slots[0].buffer.cursor, Some((3, 0, theme.colors.cursor)));
    assert_eq!(slots[1].buffer.cursor, None);

    let idle = render_frame(&tree, 2, &mut slots, &theme, None, 1000, 600, 1, 2);
    assert!(idle.updates.is_empty());
    assert!(idle.dividers.is_empty());
    assert_eq!(idle.pane_rects.len(), 3);

    slots[1].emulator.process(b"!");
    slots[1].dirty = true;
    let next = render_frame(&tree, 1, &mut slots, &theme, Some(Selection { start: (0, 0), end: (2, 0) }), 1000, 600, 1, 2);
    assert_eq!(next.updates.iter().map(|u| u.0).collect::<Vec<_>>(), vec![1, 2]);
    assert_eq!(next.updates[0].1.requests[0].text.trim_end(), "one!");
    assert_eq!(slots[1].buffer.selection_bg_spans.len(), 1);
    assert!(slots[0].buffer.selection_bg_spans.is_empty());
    assert_eq!(slots[0].buffer.cursor, None);
}
