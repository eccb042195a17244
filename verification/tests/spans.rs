use pterminal::color::RgbColor;
use pterminal::grid::{grid_to_render_lines, normalize_sel, GridCell, GridDelta, GridLine, Selection};
use pterminal::render::{BgUpdate, PaneBuffer, TextRenderer};
use pterminal::shaper::{build_line_rich_text_into, RichSpan};
use pterminal::spans::{
    emit_bg_spans_for_row, incremental_update_bg_spans, rebuild_content_bg_spans,
    rebuild_selection_bg_spans, BgSpan,
};

const BG: RgbColor = RgbColor { r: 0, g: 0, b: 0 };
const RED: RgbColor = RgbColor { r: 200, g: 0, b: 0 };
const BLUE: RgbColor = RgbColor { r: 0, g: 0, b: 200 };
const WHITE: RgbColor = RgbColor { r: 255, g: 255, b: 255 };

fn cell(c: char, fg: RgbColor, bg: RgbColor) -> GridCell {
    GridCell { c, fg, bg, bold: false, italic: false, underline: false, wide_spacer: false }
}

fn line(text: &str, bgs: &[RgbColor]) -> GridLine {
    GridLine { cells: text.chars().zip(bgs.iter()).map(|(c, bg)| cell(c, WHITE, *bg)).collect() }
}

fn plain(text: &str) -> GridLine {
    GridLine { cells: text.chars().map(|c| cell(c, WHITE, BG)).collect() }
}

fn span(col: u16, row: u16, width: u16, color: RgbColor) -> BgSpan {
    BgSpan { col, row, width, color }
}

#[test]
fn row_spans_are_the_runs_of_other_backgrounds() {
    let l = line("abcdefgh", &[BG, RED, RED, BLUE, BG, BG, BLUE, BLUE]);
    let mut out = vec![span(9, 9, 9, RED)];
    emit_bg_spans_for_row(&mut out, &l, 3, BG);
    assert_eq!(out, vec![span(9, 9, 9, RED), span(1, 3, 2, RED), span(3, 3, 1, BLUE), span(6, 3, 2, BLUE)]);
    let mut out = Vec::new();
    emit_bg_spans_for_row(&mut out, &plain("hello"), 0, BG);
    assert!(out.is_empty());
    emit_bg_spans_for_row(&mut out, &plain("hello"), 2, RED);
    assert_eq!(out, vec![span(0, 2, 5, BG)]);
    let mut out = Vec::new();
    emit_bg_spans_for_row(&mut out, &GridLine { cells: vec![] }, 0, BG);
    assert!(out.is_empty());
}

#[test]
fn rebuild_and_incremental_agree_on_changed_rows() {
    let mut grid = vec![
        line("ab", &[RED, BG]),
        line("ab", &[BG, BG]),
        line("ab", &[BLUE, BLUE]),
    ];
    let mut spans = Vec::new();
    rebuild_content_bg_spans(&mut spans, &grid, BG);
    assert_eq!(spans, vec![span(0, 0, 1, RED), span(0, 2, 2, BLUE)]);
    grid[0] = line("ab", &[BG, RED]);
    grid[1] = line("ab", &[RED, RED]);
    incremental_update_bg_spans(&mut spans, &grid, BG, &[1, 0, 7]);
    assert_eq!(spans, vec![span(0, 2, 2, BLUE), span(0, 1, 2, RED), span(1, 0, 1, RED)]);
    incremental_update_bg_spans(&mut spans, &grid, BG, &[]);
    assert_eq!(spans, vec![span(0, 2, 2, BLUE), span(0, 1, 2, RED), span(1, 0, 1, RED)]);
}

#[test]
fn selection_spans_cover_first_middle_and_last_row() {
    let grid = vec![plain("0123456789"), plain("01234"), plain(""), plain("0123456789")];
    let mut out = vec![span(1, 1, 1, RED)];
    rebuild_selection_bg_spans(&mut out, &grid, Some(((7, 0), (2, 3))), BLUE);
    assert_eq!(out, vec![span(7, 0, 3, BLUE), span(0, 1, 5, BLUE), span(0, 3, 3, BLUE)]);
    rebuild_selection_bg_spans(&mut out, &grid, Some(((2, 1), (3, 1))), BLUE);
    assert_eq!(out, vec![span(2, 1, 2, BLUE)]);
    rebuild_selection_bg_spans(&mut out, &grid, Some(((2, 1), (300, 1))), BLUE);
    assert_eq!(out, vec![span(2, 1, 3, BLUE)]);
    rebuild_selection_bg_spans(&mut out, &grid, Some(((6, 1), (8, 1))), BLUE);
    assert!(out.is_empty());
    rebuild_selection_bg_spans(&mut out, &grid, Some(((0, 2), (9, 9))), BLUE);
    assert_eq!(out, vec![span(0, 3, 10, BLUE)]);
    rebuild_selection_bg_spans(&mut out, &grid, Some(((0, 5), (9, 9))), BLUE);
    assert!(out.is_empty());
    rebuild_selection_bg_spans(&mut out, &grid, Some(((0, 0), (u16::MAX, u16::MAX))), BLUE);
    assert_eq!(out.len(), 3);
    rebuild_selection_bg_spans(&mut out, &grid, None, BLUE);
    assert!(out.is_empty());
}

#[test]
fn selection_ends_are_put_in_reading_order() {
    assert_eq!(normalize_sel((5, 1), (2, 3)), ((5, 1), (2, 3)));
    assert_eq!(normalize_sel((2, 3), (5, 1)), ((5, 1), (2, 3)));
    assert_eq!(normalize_sel((9, 2), (1, 2)), ((1, 2), (9, 2)));
    assert_eq!(normalize_sel((4, 4), (4, 4)), ((4, 4), (4, 4)));
    assert_eq!(Selection { start: (3, 9), end: (0, 0) }.normalized(), ((0, 0), (3, 9)));
}

#[test]
fn rich_text_splits_where_attributes_change() {
    let mut cells = vec![
        cell('a', WHITE, BG),
        cell('\0', WHITE, BG),
        cell('\u{4e2d}', RED, BG),
        GridCell { wide_spacer: true, ..cell(' ', BLUE, BG) },
        cell('b', RED, BG),
        cell('c', RED, BG),
    ];
    cells[5].bold = true;
    let mut text = String::from("old");
    let mut spans = vec![RichSpan { start: 9, end: 9, fg: RED, bold: true, italic: true }];
    let info = build_line_rich_text_into(&GridLine { cells }, &mut text, &mut spans);
    assert_eq!(text, "a \u{4e2d}bc");
    assert!(!info.is_blank);
    assert!(!info.all_ascii);
    assert_eq!(
        spans,
        vec![
            RichSpan { start: 0, end: 2, fg: WHITE, bold: false, italic: false },
            RichSpan { start: 2, end: 6, fg: RED, bold: false, italic: false },
            RichSpan { start: 6, end: 7, fg: RED, bold: true, italic: false },
        ]
    );
    for s in &spans {
        assert!(text.is_char_boundary(s.start) && text.is_char_boundary(s.end));
    }
    let info = build_line_rich_text_into(&plain("  \0 "), &mut text, &mut spans);
    assert!(info.is_blank && info.all_ascii);
    assert_eq!(text, "    ");
    assert_eq!(spans.len(), 1);
    let info = build_line_rich_text_into(&plain(""), &mut text, &mut spans);
    assert!(info.is_blank && info.all_ascii);
    assert!(text.is_empty() && spans.is_empty());
}

#[test]
fn setting_the_same_selection_again_builds_nothing() {
    let grid = vec![line("abcd", &[BG, RED, RED, BG]), plain("    "), plain("xy")];
    let mut pb = PaneBuffer::new();
    let first = pb.set_pane_content(&grid, None, (1, 2), true, WHITE, BG, Some(((1, 0), (0, 2))), BLUE);
    assert!(first.selection_rebuilt);
    assert_eq!(pb.selection_rebuilds, 1);
    assert_eq!(pb.selection_bg_spans, vec![span(1, 0, 3, BLUE), span(0, 1, 4, BLUE), span(0, 2, 1, BLUE)]);
    let spans_before = pb.selection_bg_spans.clone();
    let second = pb.set_pane_content(&grid, Some(&[]), (1, 2), true, WHITE, BG, Some(((1, 0), (0, 2))), BLUE);
    assert!(!second.selection_rebuilt);
    assert_eq!(pb.selection_rebuilds, 1);
    assert_eq!(pb.selection_bg_spans, spans_before);
    let third = pb.set_pane_content(&grid, Some(&[]), (1, 2), true, WHITE, BG, Some(((1, 0), (0, 2))), RED);
    assert!(third.selection_rebuilt);
    assert_eq!(pb.selection_rebuilds, 2);
    let fourth = pb.set_pane_content(&grid, Some(&[]), (1, 2), true, WHITE, BG, None, RED);
    assert!(fourth.selection_rebuilt);
    assert!(pb.selection_bg_spans.is_empty());
}

#[test]
fn pane_content_shapes_changed_rows_and_skips_blank_ones() {
    let mut grid = vec![line("abcd", &[BG, RED, RED, BG]), plain("    "), plain("xy")];
    let mut pb = PaneBuffer::new();
    let first = pb.set_pane_content(&grid, Some(&[1]), (3, 0), true, WHITE, BG, None, BLUE);
    assert_eq!(first.bg_update, BgUpdate::Full);
    assert_eq!(first.requests.iter().map(|q| q.row).collect::<Vec<_>>(), vec![0, 2]);
    assert_eq!(first.requests[0].text, "abcd");
    assert!(!first.requests[0].advanced);
    assert_eq!(pb.text_rows(), vec![0, 2]);
    assert!(pb.lines[1].is_blank);
    assert_eq!(pb.content_bg_spans, vec![span(1, 0, 2, RED)]);
    assert_eq!(pb.cursor, Some((3, 0, WHITE)));
    assert_eq!(
        pb.collect_bg_spans(),
        vec![span(1, 0, 2, RED), span(3, 0, 1, WHITE)]
    );

    let again = pb.set_pane_content(&grid, None, (3, 0), false, WHITE, BG, None, BLUE);
    assert!(again.requests.is_empty());
    assert!(again.bg_dirty_rows.is_empty());
    assert_eq!(again.bg_update, BgUpdate::Unchanged);
    assert_eq!(pb.cursor, None);

    grid[2] = line("\u{e9}y", &[BLUE, BG]);
    grid[0] = plain("    ");
    let third = pb.set_pane_content(&grid, Some(&[2, 9]), (0, 0), false, WHITE, BG, None, BLUE);
    assert_eq!(third.bg_dirty_rows, vec![2]);
    assert_eq!(third.bg_update, BgUpdate::Incremental);
    assert_eq!(third.requests.len(), 1);
    assert!(third.requests[0].advanced);
    assert_eq!(pb.content_bg_spans, vec![span(1, 0, 2, RED), span(0, 2, 1, BLUE)]);
    assert_eq!(pb.text_rows(), vec![0, 2]);

    let fourth = pb.set_pane_content(&grid, Some(&[0, 1]), (0, 0), false, WHITE, RED, None, BLUE);
    assert_eq!(fourth.bg_update, BgUpdate::Full);
    assert_eq!(pb.text_rows(), vec![2]);
    assert_eq!(pb.content_bg_spans.len(), 4);

    grid.pop();
    let fifth = pb.set_pane_content(&grid, Some(&[]), (0, 0), false, WHITE, RED, None, BLUE);
    assert_eq!(fifth.bg_update, BgUpdate::Full);
    assert_eq!(pb.lines.len(), 2);
    assert!(pb.text_rows().is_empty());
    assert!(pb.layout_changed((800, 16)));
    assert!(!pb.layout_changed((800, 16)));
    assert!(pb.layout_changed((801, 16)));
}

#[test]
fn delta_is_empty_only_without_full_and_rows() {
    assert!(GridDelta { full: false, dirty_rows: vec![] }.is_empty());
    assert!(!GridDelta { full: true, dirty_rows: vec![] }.is_empty());
    assert!(!GridDelta { full: false, dirty_rows: vec![0] }.is_empty());
    assert!(GridDelta::empty().is_empty());
    let full = GridDelta::full_of(3);
    assert!(full.full);
    assert_eq!(full.dirty_rows, vec![0, 1, 2]);
    assert!(!GridDelta::full_of(0).is_empty());
}

#[test]
fn render_lines_keep_the_cells() {
    let grid = vec![line("ab", &[RED, BG]), plain("")];
    let lines = grid_to_render_lines(&grid);
    assert_eq!(lines.len(), 2);
    assert_eq!(lines[0].cells.len(), 2);
    assert_eq!(lines[0].cells[0].c, 'a');
    assert_eq!(lines[0].cells[0].bg, RED);
    assert_eq!(lines[0].cells[1].fg, WHITE);
    assert!(lines[1].cells.is_empty());
    assert_eq!(grid[0].duplicate().cells, grid[0].cells);
}

#[test]
fn renderer_keeps_one_buffer_for_each_pane() {
    let grid_a = vec![line("ab", &[RED, BG])];
    let grid_b = vec![plain("x"), line("yz", &[BG, BLUE])];
    let mut r = TextRenderer::new();
    let first = r.set_pane_content(7, &grid_a, None, (0, 0), true, WHITE, BG, None, BLUE);
    assert_eq!(first.requests.len(), 1);
    r.set_pane_content(3, &grid_b, None, (1, 1), false, WHITE, BG, Some(((0, 0), (0, 0))), BLUE);
    let mut ids: Vec<u64> = r.pane_buffers.keys().copied().collect();
    ids.sort();
    assert_eq!(ids, vec![3, 7]);
    let again = r.set_pane_content(7, &grid_a, Some(&[0]), (0, 0), true, WHITE, BG, None, BLUE);
    assert!(again.requests.is_empty());
    assert_eq!(r.pane_buffers.len(), 2);
    assert_eq!(
        r.collect_bg_rects(&[3, 9, 7]),
        vec![
            (3, span(1, 1, 1, BLUE)),
            (3, span(0, 0, 1, BLUE)),
            (7, span(0, 0, 1, RED)),
            (7, span(0, 0, 1, WHITE)),
        ]
    );
    r.remove_pane(9);
    r.remove_pane(7);
    assert_eq!(r.pane_buffers.keys().copied().collect::<Vec<u64>>(), vec![3]);
    assert!(r.collect_bg_rects(&[7]).is_empty());
}
