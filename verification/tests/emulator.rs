use pterminal::color::{RgbColor, Theme};
use pterminal::emulator::{
    apply_delta_reply, handle_control_command, ControlCommand, ControlReply, DeltaExtractReply,
    TerminalEmulator,
};
use pterminal::grid::{GridCell, GridDelta, GridLine};

fn row_text(line: &GridLine) -> String {
    line.cells.iter().map(|c| if c.c == '\0' { ' ' } else { c.c }).collect::<String>()
}

fn colored_lines(n: usize) -> Vec<u8> {
    let mut out = String::new();
    for i in 0..n {
        let prefix = if i % 5 == 0 { "\x1b[34m" } else { "\x1b[0m" };
        out.push_str(prefix);
        out.push_str(&format!("-rw-r--r--  1 user  staff {:>8} file_{:05}.txt\x1b[0m\r\n", 1024 + i, i));
    }
    out.into_bytes()
}

#[test]
fn burst_gives_full_delta_then_only_the_cursor_row() {
    let theme = Theme::default();
    let mut emu = TerminalEmulator::new(120, 40);
    emu.process(&colored_lines(64));
    let mut cache: Vec<GridLine> = Vec::new();
    let delta = emu.extract_grid_delta_into(&theme, &mut cache);
    assert!(delta.full);
    assert!(delta.dirty_rows.len() >= 40);
    assert_eq!(delta.dirty_rows, (0..40).collect::<Vec<usize>>());
    assert_eq!(cache.len(), 40);
    assert!(cache.iter().all(|l| l.cells.len() == 120));
    assert_eq!(row_text(&cache[38]).trim_end(), "-rw-r--r--  1 user  staff     1087 file_00063.txt");
    assert_eq!(cache[30].cells[0].fg, RgbColor::new(0x57, 0xc7, 0xfe));
    assert_eq!(cache[31].cells[0].fg, theme.colors.foreground);
    assert_eq!(cache[31].cells[0].bg, theme.colors.background);
    let (cursor_col, cursor_row) = emu.cursor_position();
    assert_eq!((cursor_col, cursor_row), (0, 39));
    let before: Vec<String> = cache.iter().map(row_text).collect();
    let second = emu.extract_grid_delta_into(&theme, &mut cache);
    assert!(!second.full);
    assert_eq!(second.dirty_rows, vec![cursor_row as usize]);
    assert_eq!(cache.iter().map(row_text).collect::<Vec<_>>(), before);
}

#[test]
fn flood_dirties_the_whole_viewport_and_stays_at_the_tail() {
    let theme = Theme::default();
    let mut emu = TerminalEmulator::new(120, 40);
    let mut cache: Vec<GridLine> = Vec::new();
    let mut bytes = String::new();
    for n in 0..256 {
        bytes.push_str(&format!("line {:06} | {:08x}\r\n", n, n * 17));
    }
    emu.process(bytes.as_bytes());
    let (delta, cursor) = emu.extract_grid_delta_with_cursor_into(&theme, &mut cache);
    assert_eq!(delta.dirty_rows, (0..40).collect::<Vec<usize>>());
    assert_eq!(emu.display_offset(), 0);
    assert_eq!(cursor, (0, 39));
    assert_eq!(row_text(&cache[0]).trim_end(), "line 000217 | 00000e69");
    emu.scroll(5);
    assert_eq!(emu.display_offset(), 5);
    let scrolled = emu.extract_grid_delta_into(&theme, &mut cache);
    assert!(scrolled.full);
    assert_eq!(row_text(&cache[0]).trim_end(), "line 000212 | 00000e14");
    assert_eq!(emu.extract_grid(&theme).len(), 40);
    emu.scroll(-100);
    assert_eq!(emu.display_offset(), 0);
}

#[test]
fn clear_screen_leaves_one_row_of_text() {
    let theme = Theme::default();
    let mut emu = TerminalEmulator::new(120, 40);
    emu.process(&colored_lines(10));
    let mut cache: Vec<GridLine> = Vec::new();
    emu.extract_grid_delta_into(&theme, &mut cache);
    emu.process(b"\x1b[H\x1b[2Jhello\r\n");
    let (delta, cursor) = emu.extract_grid_delta_with_cursor_into(&theme, &mut cache);
    assert!(!delta.is_empty());
    assert_eq!(cursor, (0, 1));
    assert_eq!(row_text(&cache[0]).trim_end(), "hello");
    let blank = cache.iter().filter(|l| row_text(l).trim().is_empty()).count();
    assert_eq!(blank, 39);
    emu.process(b"");
    assert_eq!(emu.size(), (120, 40));
}

#[test]
fn resizing_columns_makes_the_next_delta_full() {
    let theme = Theme::default();
    let mut emu = TerminalEmulator::new(80, 24);
    let mut cache: Vec<GridLine> = Vec::new();
    emu.process(b"abc");
    assert!(emu.extract_grid_delta_into(&theme, &mut cache).full);
    emu.process(b"d");
    let partial = emu.extract_grid_delta_into(&theme, &mut cache);
    assert!(!partial.full);
    assert_eq!(partial.dirty_rows, vec![0]);
    assert_eq!(row_text(&cache[0]).trim_end(), "abcd");
    emu.resize(100, 24);
    assert_eq!(emu.size(), (100, 24));
    let delta = emu.extract_grid_delta_into(&theme, &mut cache);
    assert!(delta.full);
    assert_eq!(delta.dirty_rows.len(), 24);
    assert!(cache.iter().all(|l| l.cells.len() == 100));
    emu.resize(100, 10);
    let delta = emu.extract_grid_delta_into(&theme, &mut cache);
    assert!(delta.full);
    assert_eq!(cache.len(), 10);
}

#[test]
fn attributes_and_colours_come_through() {
    let theme = Theme::default();
    let mut emu = TerminalEmulator::new(20, 3);
    emu.process("\x1b[1;3;4;31;48;5;232mX\x1b[0m\x1b[38;2;1;2;3mY\x1b[0m\u{4e2d}".as_bytes());
    let grid = emu.extract_grid(&theme);
    let x = grid[0].cells[0];
    assert_eq!(x.c, 'X');
    assert!(x.bold && x.italic && x.underline && !x.wide_spacer);
    assert_eq!(x.fg, RgbColor::new(0xff, 0x5b, 0x56));
    assert_eq!(x.bg, RgbColor::new(8, 8, 8));
    let y = grid[0].cells[1];
    assert_eq!((y.c, y.fg, y.bold), ('Y', RgbColor::new(1, 2, 3), false));
    assert_eq!(grid[0].cells[2].c, '\u{4e2d}');
    assert!(grid[0].cells[3].wide_spacer);
    assert_eq!(emu.cursor_position(), (4, 0));
}

#[test]
fn commands_are_answered_in_kind() {
    let theme = Theme::default();
    let mut emu = TerminalEmulator::new(10, 4);
    let mut cache = Vec::new();
    let (stop, reply) = handle_control_command(ControlCommand::QuerySize, &mut emu.inner, &theme, &mut cache);
    assert!(!stop);
    assert!(matches!(reply, ControlReply::Size(10, 4)));
    let (stop, reply) = handle_control_command(ControlCommand::Input(b"hi".to_vec()), &mut emu.inner, &theme, &mut cache);
    assert!(!stop);
    assert!(matches!(reply, ControlReply::Done));
    let (_, reply) = handle_control_command(ControlCommand::QueryCursor, &mut emu.inner, &theme, &mut cache);
    assert!(matches!(reply, ControlReply::Cursor(2, 0)));
    let (_, reply) = handle_control_command(ControlCommand::QueryDisplayOffset, &mut emu.inner, &theme, &mut cache);
    assert!(matches!(reply, ControlReply::DisplayOffset(0)));
    let (_, reply) = handle_control_command(ControlCommand::ExtractDelta, &mut emu.inner, &theme, &mut cache);
    match reply {
        ControlReply::Delta(d) => {
            assert!(d.delta.full);
            assert_eq!(d.rows.iter().map(|r| r.0).collect::<Vec<_>>(), vec![0, 1, 2, 3]);
            assert_eq!(row_text(&d.rows[0].1).trim_end(), "hi");
            assert_eq!(d.cursor, (2, 0));
        }
        _ => panic!("a delta was asked for"),
    }
    assert_eq!(cache.len(), 4);
    let (_, reply) = handle_control_command(ControlCommand::ExtractFull, &mut emu.inner, &theme, &mut cache);
    assert!(matches!(reply, ControlReply::Full(ref lines) if lines.len() == 4));
    let (_, reply) = handle_control_command(ControlCommand::Resize(12, 5), &mut emu.inner, &theme, &mut cache);
    assert!(matches!(reply, ControlReply::Done));
    let (_, reply) = handle_control_command(ControlCommand::Scroll(1), &mut emu.inner, &theme, &mut cache);
    assert!(matches!(reply, ControlReply::Done));
    let (stop, reply) = handle_control_command(ControlCommand::Shutdown, &mut emu.inner, &theme, &mut cache);
    assert!(stop);
    assert!(matches!(reply, ControlReply::Shutdown));
}

fn text_line(s: &str) -> GridLine {
    let c = RgbColor::new(0, 0, 0);
    GridLine {
        cells: s
            .chars()
            .map(|ch| GridCell { c: ch, fg: c, bg: c, bold: false, italic: false, underline: false, wide_spacer: false })
            .collect(),
    }
}

#[test]
fn replies_are_stored_row_by_row() {
    let mut out = vec![text_line("a"), text_line("b")];
    let reply = DeltaExtractReply {
        delta: GridDelta { full: false, dirty_rows: vec![1, 4, 1] },
        rows: vec![(1, text_line("x")), (4, text_line("y")), (1, text_line("z"))],
        cursor: (3, 4),
    };
    let (delta, cursor) = apply_delta_reply(reply, &mut out);
    assert_eq!(delta.dirty_rows, vec![1, 4, 1]);
    assert_eq!(cursor, (3, 4));
    assert_eq!(out.iter().map(row_text).collect::<Vec<_>>(), vec!["a", "z", "", "", "y"]);
    let reply = DeltaExtractReply {
        delta: GridDelta { full: true, dirty_rows: vec![0] },
        rows: vec![(0, text_line("n"))],
        cursor: (0, 0),
    };
    apply_delta_reply(reply, &mut out);
    assert_eq!(out.iter().map(row_text).collect::<Vec<_>>(), vec!["n"]);
}

#[test]
fn scrolling_stops_at_both_ends_of_the_history() {
    let theme = Theme::default();
    let mut emu = TerminalEmulator::new(40, 10);
    let mut bytes = String::new();
    for n in 0..50 {
        bytes.push_str(&format!("row {n}\r\n"));
    }
    emu.process(bytes.as_bytes());
    let mut cache: Vec<GridLine> = Vec::new();
    emu.extract_grid_delta_into(&theme, &mut cache);
    emu.scroll(3);
    assert_eq!(emu.display_offset(), 3);
    emu.scroll(i32::MAX);
    let top = emu.display_offset();
    assert_eq!(top, 41);
    assert!(emu.extract_grid_delta_into(&theme, &mut cache).full);
    assert_eq!(row_text(&cache[0]).trim_end(), "row 0");
    emu.scroll(i32::MAX);
    assert_eq!(emu.display_offset(), top);
    let settled = emu.extract_grid_delta_into(&theme, &mut cache);
    assert!(!settled.full);
    assert!(settled.dirty_rows.is_empty());
    emu.scroll(-1);
    assert_eq!(emu.display_offset(), top - 1);
    emu.scroll(i32::MIN);
    assert_eq!(emu.display_offset(), 0);
    emu.scroll(0);
    assert_eq!(emu.display_offset(), 0);
    assert_eq!(emu.size(), (40, 10));
}

#[test]
fn resizing_keeps_to_the_smallest_size_and_the_same_size_changes_nothing() {
    let theme = Theme::default();
    let mut emu = TerminalEmulator::new(30, 6);
    emu.process(b"abc");
    let mut cache: Vec<GridLine> = Vec::new();
    assert!(emu.extract_grid_delta_into(&theme, &mut cache).full);
    emu.resize(30, 6);
    assert_eq!(emu.size(), (30, 6));
    assert!(!emu.extract_grid_delta_into(&theme, &mut cache).full);
    emu.resize(30, 7);
    assert_eq!(emu.size(), (30, 7));
    let delta = emu.extract_grid_delta_into(&theme, &mut cache);
    assert!(delta.full);
    assert_eq!(delta.dirty_rows, (0..7).collect::<Vec<usize>>());
    assert!(cache.len() == 7 && cache.iter().all(|l| l.cells.len() == 30));
    emu.resize(0, 7);
    assert_eq!(emu.size(), (2, 7));
    emu.resize(12, 0);
    assert_eq!(emu.size(), (12, 1));
    emu.resize(1, 1);
    assert_eq!(emu.size(), (2, 1));
    assert!(emu.extract_grid_delta_into(&theme, &mut cache).full);
    assert!(cache.len() == 1 && cache[0].cells.len() == 2);
    assert!(emu.is_sized());
}

#[test]
fn a_terminal_is_never_smaller_than_two_columns_and_one_row() {
    let theme = Theme::default();
    let mut emu = TerminalEmulator::new(0, 0);
    assert_eq!(emu.size(), (2, 1));
    emu.process("\u{4e2d}\u{6587}ab\r\n\u{4e2d}".as_bytes());
    let mut cache: Vec<GridLine> = Vec::new();
    assert!(emu.extract_grid_delta_into(&theme, &mut cache).full);
    assert!(!emu.extract_grid_delta_into(&theme, &mut cache).full);
    assert_eq!(cache.len(), 1);
    assert_eq!(cache[0].cells.len(), 2);
    assert_eq!(TerminalEmulator::new(1, 5).size(), (2, 5));
    assert_eq!(TerminalEmulator::new(7, 0).size(), (7, 1));
}

#[test]
fn a_copy_of_another_shape_is_written_anew() {
    let theme = Theme::default();
    let mut emu = TerminalEmulator::new(10, 3);
    emu.process(b"one\r\ntwo");
    let mut first: Vec<GridLine> = Vec::new();
    assert!(emu.extract_grid_delta_into(&theme, &mut first).full);
    let mut fresh: Vec<GridLine> = Vec::new();
    let delta = emu.extract_grid_delta_into(&theme, &mut fresh);
    assert!(delta.full);
    assert_eq!(delta.dirty_rows, vec![0, 1, 2]);
    assert_eq!(fresh.len(), 3);
    assert!(fresh.iter().all(|l| l.cells.len() == 10));
    assert_eq!(row_text(&fresh[1]).trim_end(), "two");
    let mut narrow = vec![GridLine { cells: Vec::new() }, GridLine { cells: Vec::new() }, GridLine { cells: Vec::new() }];
    assert!(emu.extract_grid_delta_into(&theme, &mut narrow).full);
    assert_eq!(row_text(&narrow[0]).trim_end(), "one");
}

#[test]
fn a_settled_terminal_reports_the_cursor_row_alone() {
    let theme = Theme::default();
    let mut emu = TerminalEmulator::new(20, 5);
    emu.process(b"a\r\nb\r\nc");
    let mut cache: Vec<GridLine> = Vec::new();
    assert!(emu.extract_grid_delta_into(&theme, &mut cache).full);
    for _ in 0..3 {
        let (delta, cursor) = emu.extract_grid_delta_with_cursor_into(&theme, &mut cache);
        assert!(!delta.full);
        assert_eq!(cursor, (1, 2));
        assert_eq!(delta.dirty_rows, vec![2]);
    }
    emu.process(b"\x1b[1;1Hx");
    let (delta, cursor) = emu.extract_grid_delta_with_cursor_into(&theme, &mut cache);
    assert_eq!(cursor, (1, 0));
    assert_eq!(delta.dirty_rows, vec![0, 2]);
    let (delta, _) = emu.extract_grid_delta_with_cursor_into(&theme, &mut cache);
    assert_eq!(delta.dirty_rows, vec![0]);
    emu.process(b"\x1b[4h");
    assert!(emu.extract_grid_delta_into(&theme, &mut cache).full);
    assert!(emu.extract_grid_delta_into(&theme, &mut cache).full);
    emu.process(b"\x1b[4l");
    emu.extract_grid_delta_into(&theme, &mut cache);
    let delta = emu.extract_grid_delta_into(&theme, &mut cache);
    assert!(!delta.full);
    assert_eq!(delta.dirty_rows, vec![0]);
}
