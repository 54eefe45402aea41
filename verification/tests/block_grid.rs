use bedterm_core::block_grid::{mode_bits, CellRead, ScreenCells, TermModes};
use bedterm_core::palette::{BtRgb24, NamedColor, Palette, TermColor};

fn blank() -> CellRead {
    CellRead {
        c: ' ',
        fg: TermColor::Named(NamedColor::Foreground),
        bg: TermColor::Named(NamedColor::Background),
        bold: false,
        underline: false,
        inverse: false,
        italic: false,
        wide: false,
        wide_spacer: false,
        flagged: false,
    }
}

fn letter(c: char) -> CellRead {
    CellRead { c, ..blank() }
}

fn screen(cols: u16, rows: u16, history: u16, cursor: (i32, usize), marks: &[(usize, CellRead)]) -> ScreenCells {
    let mut cells = vec![blank(); (history as usize + rows as usize) * cols as usize];
    for (i, c) in marks {
        cells[*i] = *c;
    }
    ScreenCells::new(cols, rows, history, cursor.0, cursor.1, cells).unwrap()
}

#[test]
fn screen_cells_need_one_row_and_every_cell() {
    assert!(ScreenCells::new(4, 0, 0, 0, 0, vec![]).is_none());
    assert!(ScreenCells::new(4, 2, 1, 0, 0, vec![blank(); 11]).is_none());
    assert!(ScreenCells::new(4, 2, 1, 0, 0, vec![blank(); 12]).is_some());
    assert!(ScreenCells::new(0, 3, 0, 0, 0, vec![]).is_some());
}

#[test]
fn cursor_row_alone_counts_as_used() {
    let s = screen(5, 4, 0, (0, 2), &[]);
    assert_eq!(s.last_content_row(), Some(0));
    assert_eq!(s.used_rows(), 1);
    let g = s.snapshot(&Palette::default());
    assert_eq!((g.cols, g.rows, g.cursor_row, g.cursor_col, g.display_offset), (5, 1, 0, 2, 0));
    assert_eq!(g.cells.len(), 5);
    assert!(g.cells.iter().all(|c| c.ch == 0 && c.flags == 0));
    assert_eq!(g.cells[0].fg_rgba, 0xCCCCCCFF);
    assert_eq!(g.cells[0].bg_rgba, 0x000000FF);
}

#[test]
fn lowest_row_with_content_wins_over_the_cursor() {
    // 3 columns, 4 rows, 2 scrollback rows; 'x' on screen row 2.
    let s = screen(3, 4, 2, (1, 0), &[((2 + 2) * 3 + 1, letter('x'))]);
    assert_eq!(s.last_content_row(), Some(2));
    assert_eq!(s.used_rows(), 5);
    let g = s.snapshot(&Palette::default());
    assert_eq!(g.rows, 5);
    assert_eq!(g.cells.len(), 15);
    assert_eq!(g.cells[13].ch, 'x' as u32);
    assert_eq!(g.cursor_row, 3);
}

#[test]
fn flagged_space_is_content() {
    let inverse_space = CellRead { inverse: true, flagged: true, ..blank() };
    let s = screen(2, 3, 0, (0, 0), &[(5, inverse_space)]);
    assert_eq!(s.last_content_row(), Some(2));
    let g = s.snapshot(&Palette::default());
    assert_eq!(g.cells[5].ch, ' ' as u32);
    assert_eq!(g.cells[5].flags, 4);
}

#[test]
fn cursor_off_screen_falls_back_to_its_row_kept_on_screen() {
    let below = screen(2, 5, 1, (7, 0), &[]);
    assert_eq!(below.last_content_row(), None);
    assert_eq!(below.used_rows(), 6);
    let g = below.snapshot(&Palette::default());
    assert_eq!(g.rows, 6);
    assert_eq!(g.cursor_row, 6);

    let above = screen(2, 5, 1, (-3, 0), &[]);
    assert_eq!(above.last_content_row(), None);
    assert_eq!(above.used_rows(), 2);
    assert_eq!(above.snapshot(&Palette::default()).cursor_row, 2);
}

#[test]
fn cells_encode_flags_wide_halves_and_colours() {
    let wide = CellRead {
        c: '漢',
        fg: TermColor::Spec(BtRgb24 { r: 1, g: 2, b: 3 }),
        bg: TermColor::Indexed(196),
        bold: true,
        italic: true,
        wide: true,
        flagged: true,
        ..blank()
    };
    let spacer = CellRead { c: ' ', underline: true, wide_spacer: true, flagged: true, ..blank() };
    let s = screen(2, 1, 0, (0, 0), &[(0, wide), (1, spacer)]);
    let g = s.snapshot(&Palette::default());
    assert_eq!(g.cells[0].ch, '漢' as u32);
    assert_eq!(g.cells[0].flags, 1 | 8 | 16);
    assert_eq!(g.cells[0].fg_rgba, 0x010203FF);
    assert_eq!(g.cells[0].bg_rgba, 0xFF0000FF);
    assert_eq!(g.cells[1].ch, 0);
    assert_eq!(g.cells[1].flags, 2 | 32);
}

#[test]
fn scrollback_rows_all_come_first() {
    let s = screen(1, 2, 3, (0, 0), &[(0, letter('a')), (2, letter('c'))]);
    let g = s.snapshot(&Palette::default());
    assert_eq!(g.rows, 4);
    let chars: Vec<u32> = g.cells.iter().map(|c| c.ch).collect();
    assert_eq!(chars, vec!['a' as u32, 0, 'c' as u32, 0]);
    assert_eq!(g.cursor_row, 3);
}

fn numbered(cols: u16, rows: u16, history: u16, cursor: (i32, usize)) -> ScreenCells {
    // Column 0 of each grid line holds a digit: '0' for the top of scrollback.
    let lines = history as usize + rows as usize;
    let marks: Vec<(usize, CellRead)> =
        (0..lines).map(|l| (l * cols as usize, letter(char::from(b'0' + l as u8)))).collect();
    screen(cols, rows, history, cursor, &marks)
}

fn first_column(g: &bedterm_core::snapshot::GridSnapshot) -> Vec<u32> {
    (0..g.rows as usize).map(|r| g.cells[r * g.cols as usize].ch).collect()
}

#[test]
fn viewport_follows_the_scroll_offset() {
    let s = numbered(2, 3, 4, (1, 1));
    let live = s.viewport_snapshot(0, &Palette::default());
    assert_eq!((live.rows, live.display_offset, live.cursor_row, live.cursor_col), (3, 0, 1, 1));
    assert_eq!(first_column(&live), vec!['4' as u32, '5' as u32, '6' as u32]);
    let up = s.viewport_snapshot(2, &Palette::default());
    assert_eq!(first_column(&up), vec!['2' as u32, '3' as u32, '4' as u32]);
    assert_eq!((up.display_offset, up.cursor_row), (2, 3));
    let top = s.viewport_snapshot(4, &Palette::default());
    assert_eq!(first_column(&top), vec!['0' as u32, '1' as u32, '2' as u32]);
    assert_eq!(top.cursor_row, 3);
}

#[test]
fn range_snapshot_clamps_to_the_grid() {
    let s = numbered(2, 3, 4, (0, 0));
    let g = s.range_snapshot(2, 5, &Palette::default());
    assert_eq!((g.rows, g.cursor_row, g.cursor_col, g.display_offset), (3, 3, 0, 0));
    assert_eq!(first_column(&g), vec!['2' as u32, '3' as u32, '4' as u32]);
    let clipped = s.range_snapshot(-5, 2, &Palette::default());
    assert_eq!(first_column(&clipped), vec!['0' as u32, '1' as u32]);
    let past = s.range_snapshot(5, 40, &Palette::default());
    assert_eq!(first_column(&past), vec!['5' as u32, '6' as u32]);
    let empty = s.range_snapshot(6, 3, &Palette::default());
    assert_eq!((empty.rows, empty.cells.len()), (0, 0));
    let gone = s.range_snapshot(-9, -2, &Palette::default());
    assert_eq!(gone.rows, 0);
}

#[test]
fn line_numbers_count_from_the_top_of_scrollback() {
    let s = numbered(2, 3, 4, (2, 0));
    assert_eq!(s.current_line(), 6);
    assert_eq!(s.screen_bottom_line(), 6);
    let fresh = screen(2, 5, 0, (0, 0), &[]);
    assert_eq!(fresh.current_line(), 0);
    assert_eq!(fresh.screen_bottom_line(), 4);
}

#[test]
fn mode_bits_join_the_running_block() {
    let none = TermModes {
        alt_screen: false,
        bracketed_paste: false,
        mouse_report: false,
        app_cursor: false,
        app_keypad: false,
        focus_in_out: false,
    };
    let global = TermModes { bracketed_paste: true, ..none };
    assert_eq!(mode_bits(global, None), 2);
    let tui = TermModes { alt_screen: true, mouse_report: true, app_cursor: true, ..none };
    assert_eq!(mode_bits(global, Some(tui)), 1 | 2 | 4 | 8);
    let all = TermModes {
        alt_screen: true,
        bracketed_paste: true,
        mouse_report: true,
        app_cursor: true,
        app_keypad: true,
        focus_in_out: true,
    };
    assert_eq!(mode_bits(none, Some(all)), 63);
    assert_eq!(mode_bits(none, None), 0);
}
