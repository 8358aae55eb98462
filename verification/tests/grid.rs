use ciri::grid::{
    CellDelta, ClientPaneGrid, DamageRegion, FullPaneSync, PackedCell, CURSOR_BEAM, CURSOR_BLOCK,
    FLAG_WIDE_CHAR_SPACER, MODE_ALT_SCREEN, MODE_SHELL_INTEGRATION,
};
use ciri::grid_query::LinkMatch;

fn sync(cols: u16, rows: u16, scrollback: Vec<PackedCell>, scrollback_rows: u32, cells: Vec<PackedCell>) -> FullPaneSync {
    FullPaneSync {
        pane_id: 1,
        generation: 1,
        cols,
        rows,
        cursor_line: 0,
        cursor_col: 0,
        cursor_shape: CURSOR_BLOCK,
        mode_flags: 0,
        title: String::new(),
        scrollback,
        scrollback_rows,
        cells,
        graphemes: vec![],
    }
}

fn grid_with_line(text: &str) -> ClientPaneGrid {
    let cols = text.chars().count() as u16;
    let mut grid = ClientPaneGrid::new(cols, 1, 0);
    for (i, ch) in text.chars().enumerate() {
        grid.viewport[i] = PackedCell::with_ch(ch);
    }
    grid
}

fn cells_of(text: &str) -> Vec<PackedCell> {
    text.chars().map(PackedCell::with_ch).collect()
}

/// 4 cols, 2 rows, up to 10 history rows; three syncs leave history
/// `aaaa`, `bbbb`, `cccc` and the viewport `CCCC` / `CCCC`.
fn grid_with_scrollback() -> ClientPaneGrid {
    let mut grid = ClientPaneGrid::new(4, 2, 10);
    for round in 0..3u8 {
        let ch = (b'a' + round) as char;
        let mut s = sync(4, 2, vec![PackedCell::with_ch(ch); 4], 1, vec![PackedCell::with_ch(ch.to_ascii_uppercase()); 8]);
        s.generation = round as u64;
        grid.apply_full_sync(&s);
    }
    grid
}

#[test]
fn word_bounds_select_identifier() {
    let grid = grid_with_line("echo hello_world test");
    assert_eq!(grid.word_bounds_at(7, 0), Some((5, 15)));
}

#[test]
fn word_bounds_select_whitespace_run() {
    let grid = grid_with_line("a   b");
    assert_eq!(grid.word_bounds_at(2, 0), Some((1, 3)));
}

#[test]
fn word_bounds_select_symbol_run() {
    let grid = grid_with_line("foo::bar");
    assert_eq!(grid.word_bounds_at(4, 0), Some((3, 4)));
}

#[test]
fn word_bounds_cover_wide_characters() {
    let mut grid = grid_with_line("ab全x cd");
    // "全" takes columns 2 and 3: column 3 is its spacer half.
    grid.viewport[3] = PackedCell { ch: ' ', flags: FLAG_WIDE_CHAR_SPACER };
    assert_eq!(grid.word_bounds_at(3, 0), Some((0, 3)));
    assert_eq!(grid.word_bounds_at(0, 0), Some((0, 3)));
    // Past the end of the row, the last cell is taken.
    assert_eq!(grid.word_bounds_at(200, 0), Some((5, 6)));
}

#[test]
fn link_at_detects_https_url() {
    let grid = grid_with_line("go https://example.com/docs now");
    assert_eq!(
        grid.link_at(8, 0),
        Some(LinkMatch { url: "https://example.com/docs".to_string(), start_col: 3, end_col: 26 })
    );
}

#[test]
fn link_at_trims_wrapping_punctuation() {
    let grid = grid_with_line("(https://example.com/path).");
    assert_eq!(
        grid.link_at(10, 0),
        Some(LinkMatch { url: "https://example.com/path".to_string(), start_col: 1, end_col: 24 })
    );
    assert_eq!(grid.link_at(0, 0), None);
    assert_eq!(grid.link_at(25, 0), None);
}

#[test]
fn link_at_normalizes_www_urls() {
    let grid = grid_with_line("visit www.example.com/test soon");
    assert_eq!(
        grid.link_at(10, 0),
        Some(LinkMatch { url: "https://www.example.com/test".to_string(), start_col: 6, end_col: 25 })
    );
}

#[test]
fn link_at_rejects_bare_scheme_and_plain_words() {
    let grid = grid_with_line("see HTTP://. or plain");
    assert_eq!(grid.link_at(6, 0), None);
    assert_eq!(grid.link_at(16, 0), None);
    let grid = grid_with_line("HTTP://X.org");
    assert_eq!(
        grid.link_at(0, 0),
        Some(LinkMatch { url: "HTTP://X.org".to_string(), start_col: 0, end_col: 11 })
    );
}

#[test]
fn row_returns_scrollback_row() {
    let grid = grid_with_scrollback();
    let row = grid.row(0);
    assert_eq!(row.len(), 4);
    assert_eq!(row[0].ch(), 'a');
}

#[test]
fn row_returns_viewport_row() {
    let grid = grid_with_scrollback();
    let sb = grid.scrollback.len();
    let row = grid.row(sb);
    assert_eq!(row.len(), 4);
    assert_eq!(row[0].ch(), 'C');
}

#[test]
fn row_out_of_bounds_returns_empty() {
    let grid = grid_with_scrollback();
    let row = grid.row(9999);
    assert!(row.is_empty());
}

#[test]
fn viewport_top_no_scroll() {
    let grid = grid_with_scrollback();
    assert_eq!(grid.viewport_top(), grid.scrollback.len());
}

#[test]
fn viewport_top_scrolled_up() {
    let mut grid = grid_with_scrollback();
    grid.scroll_up(2);
    assert_eq!(grid.viewport_top(), grid.scrollback.len() - 2);
}

#[test]
fn viewport_top_scrolled_max() {
    let mut grid = grid_with_scrollback();
    grid.scroll_up(100);
    assert_eq!(grid.viewport_top(), 0);
}

#[test]
fn visible_cells_no_scroll_returns_viewport_clone() {
    let grid = grid_with_scrollback();
    let cells = grid.visible_cells();
    assert_eq!(cells.len(), 8);
    assert_eq!(cells[0].ch(), 'C');
    assert_eq!(cells[7].ch(), 'C');
}

#[test]
fn visible_cells_scrolled_mixes_scrollback_and_viewport() {
    let mut grid = grid_with_scrollback();
    grid.scroll_up(1);
    let cells = grid.visible_cells();
    assert_eq!(cells.len(), 8);
    assert_eq!(cells[0].ch(), 'c');
    assert_eq!(cells[4].ch(), 'C');
}

#[test]
fn visible_cells_scrolled_to_top() {
    let mut grid = grid_with_scrollback();
    grid.scroll_up(100);
    let cells = grid.visible_cells();
    assert_eq!(cells[0].ch(), 'a');
    assert_eq!(cells[4].ch(), 'b');
}

#[test]
fn scroll_up_returns_actual_scrolled() {
    let mut grid = grid_with_scrollback();
    assert_eq!(grid.scroll_up(2), 2);
    assert_eq!(grid.scroll_up(5), 1);
    assert_eq!(grid.scroll_up(1), 0);
}

#[test]
fn scroll_down_returns_actual_scrolled() {
    let mut grid = grid_with_scrollback();
    grid.scroll_up(3);
    assert_eq!(grid.scroll_down(2), 2);
    assert_eq!(grid.scroll_down(5), 1);
    assert_eq!(grid.scroll_down(1), 0);
}

#[test]
fn scroll_round_trips_restore_the_offset() {
    let mut grid = grid_with_scrollback();
    grid.scroll_up(1);
    let up = grid.scroll_up(7);
    assert_eq!(up, 2);
    assert_eq!(grid.scroll_down(up), up);
    assert_eq!(grid.scroll_offset, 1);
    let down = grid.scroll_down(9);
    assert_eq!(grid.scroll_up(down), 1);
    assert_eq!(grid.scroll_offset, 1);
}

#[test]
fn scroll_up_no_scrollback_returns_zero() {
    let mut grid = ClientPaneGrid::new(4, 2, 0);
    assert_eq!(grid.scroll_up(10), 0);
}

#[test]
fn scroll_to_bottom_resets_offset() {
    let mut grid = grid_with_scrollback();
    grid.scroll_up(2);
    assert_eq!(grid.scroll_offset, 2);
    grid.scroll_to_bottom();
    assert_eq!(grid.scroll_offset, 0);
}

#[test]
fn set_scroll_offset_clamps_to_history() {
    let mut grid = grid_with_scrollback();
    grid.clear_dirty();
    grid.set_scroll_offset(2);
    assert_eq!(grid.scroll_offset, 2);
    assert!(grid.is_dirty());
    grid.set_scroll_offset(50);
    assert_eq!(grid.scroll_offset, 3);
}

#[test]
fn viewport_rows_map_to_buffer_rows_and_back() {
    let mut grid = grid_with_scrollback();
    grid.scroll_up(1);
    assert_eq!(grid.viewport_to_buffer_row(0), 2);
    assert_eq!(grid.buffer_to_viewport_row(2), Some(0));
    assert_eq!(grid.buffer_to_viewport_row(3), Some(1));
    assert_eq!(grid.buffer_to_viewport_row(4), None);
    assert_eq!(grid.buffer_to_viewport_row(1), None);
    assert_eq!(grid.cursor_in_viewport(), None);
    grid.scroll_to_bottom();
    assert_eq!(grid.cursor_in_viewport(), Some((0, 0)));
}

#[test]
fn full_sync_dimension_change_preserves_scrollback() {
    let mut grid = grid_with_scrollback();
    assert_eq!(grid.scrollback.len(), 3);
    let mut s = sync(6, 3, vec![], 0, vec![PackedCell::with_ch('X'); 18]);
    s.generation = 10;
    s.cursor_line = 1;
    s.cursor_col = 2;
    s.cursor_shape = CURSOR_BEAM;
    s.title = "resized".into();
    grid.apply_full_sync(&s);
    assert_eq!(grid.cols, 6);
    assert_eq!(grid.rows, 3);
    assert_eq!(grid.scrollback.len(), 3);
    assert_eq!(grid.viewport.len(), 18);
    assert_eq!(grid.viewport[0].ch(), 'X');
    assert_eq!(grid.scroll_offset, 0);

    grid.scroll_up(1);
    let cells = grid.visible_cells();
    assert_eq!(cells.len(), 18);
    assert_eq!(cells[0].ch(), 'c');
    assert_eq!(cells[3].ch(), 'c');
    assert_eq!(cells[4].ch(), ' ');
    assert_eq!(cells[5].ch(), ' ');
}

#[test]
fn full_sync_short_cells_blanks_remainder() {
    let mut grid = ClientPaneGrid::new(4, 2, 10);
    grid.apply_full_sync(&sync(4, 2, vec![], 0, vec![PackedCell::with_ch('A'); 3]));
    assert_eq!(grid.viewport[0].ch(), 'A');
    assert_eq!(grid.viewport[2].ch(), 'A');
    assert_eq!(grid.viewport[3].ch(), ' ');
    assert_eq!(grid.viewport[7].ch(), ' ');
}

#[test]
fn full_sync_scrollback_trimmed_to_max() {
    let mut grid = ClientPaneGrid::new(2, 1, 3);
    for i in 0u8..10 {
        let ch = (b'0' + i) as char;
        let mut s = sync(2, 1, vec![PackedCell::with_ch(ch); 2], 1, vec![PackedCell::with_ch('.'); 2]);
        s.generation = i as u64;
        grid.apply_full_sync(&s);
    }
    assert_eq!(grid.scrollback.len(), 3);
    assert_eq!(grid.scrollback[0][0].ch(), '7');
    assert_eq!(grid.scrollback[2][0].ch(), '9');
}

#[test]
fn full_sync_clamps_scroll_offset() {
    let mut grid = ClientPaneGrid::new(2, 1, 5);
    for i in 0..4u8 {
        let mut s = sync(2, 1, vec![PackedCell::with_ch('x'); 2], 1, vec![PackedCell::default(); 2]);
        s.generation = i as u64;
        grid.apply_full_sync(&s);
    }
    assert_eq!(grid.scrollback.len(), 4);
    grid.scroll_up(4);
    assert_eq!(grid.scroll_offset, 4);

    let mut s = sync(3, 1, vec![], 0, vec![PackedCell::default(); 3]);
    s.generation = 10;
    grid.apply_full_sync(&s);
    assert_eq!(grid.scroll_offset, 0);
    assert_eq!(grid.scrollback.len(), 4);
}

#[test]
fn full_sync_populates_viewport_and_scrollback() {
    let mut grid = ClientPaneGrid::new(4, 2, 100);
    grid.apply_full_sync(&sync(4, 2, vec![PackedCell::with_ch('S'); 4], 1, cells_of("ABCDEFGH")));
    assert_eq!(grid.scrollback.len(), 1);
    assert_eq!(grid.viewport[0].ch(), 'A');
    assert_eq!(grid.viewport[7].ch(), 'H');
    assert_eq!(grid.total_lines(), 3);
    assert_eq!(grid.max_scroll_offset(), 1);
}

fn delta(cursor_col: u16, cursor_shape: u8, mode_flags: u8, regions: Vec<DamageRegion>) -> CellDelta {
    CellDelta { pane_id: 1, generation: 1, cursor_line: 0, cursor_col, cursor_shape, mode_flags, regions }
}

#[test]
fn delta_apply_second_row() {
    let mut grid = ClientPaneGrid::new(5, 3, 0);
    grid.apply_delta(&delta(0, 0, 0, vec![DamageRegion { line: 2, left: 1, right: 3, cells: cells_of("XYZ") }]));
    assert_eq!(grid.viewport[10].ch(), ' ');
    assert_eq!(grid.viewport[11].ch(), 'X');
    assert_eq!(grid.viewport[12].ch(), 'Y');
    assert_eq!(grid.viewport[13].ch(), 'Z');
    assert_eq!(grid.viewport[14].ch(), ' ');
}

#[test]
fn delta_out_of_bounds_line_skipped() {
    let mut grid = ClientPaneGrid::new(4, 2, 0);
    grid.apply_delta(&delta(0, 0, 0, vec![DamageRegion { line: 5, left: 0, right: 0, cells: cells_of("X") }]));
    assert_eq!(grid.viewport[0].ch(), ' ');
}

#[test]
fn delta_region_clamped_to_cols() {
    let mut grid = ClientPaneGrid::new(3, 1, 0);
    grid.apply_delta(&delta(0, 0, 0, vec![DamageRegion { line: 0, left: 1, right: 9, cells: vec![PackedCell::with_ch('X'); 9] }]));
    assert_eq!(grid.viewport[0].ch(), ' ');
    assert_eq!(grid.viewport[1].ch(), 'X');
    assert_eq!(grid.viewport[2].ch(), 'X');
}

#[test]
fn delta_sets_mode_flags() {
    let mut grid = ClientPaneGrid::new(4, 1, 0);
    grid.apply_delta(&delta(3, CURSOR_BEAM, MODE_SHELL_INTEGRATION | MODE_ALT_SCREEN, vec![]));
    assert_eq!(grid.cursor_col, 3);
    assert_eq!(grid.cursor_shape, CURSOR_BEAM);
    assert!(grid.has_shell_integration);
    assert!(!grid.has_kitty_keyboard);
}

#[test]
fn delta_apply_patches_viewport() {
    let mut grid = ClientPaneGrid::new(10, 2, 0);
    grid.apply_delta(&delta(0, CURSOR_BLOCK, 0, vec![DamageRegion { line: 0, left: 2, right: 4, cells: cells_of("ABC") }]));
    assert_eq!(grid.viewport[2].ch(), 'A');
    assert_eq!(grid.viewport[3].ch(), 'B');
    assert_eq!(grid.viewport[4].ch(), 'C');
}

#[test]
fn dirty_rows_track_patched_lines() {
    let mut grid = ClientPaneGrid::new(3, 3, 0);
    grid.clear_dirty();
    assert!(!grid.is_dirty());
    grid.apply_delta(&delta(0, 0, 0, vec![DamageRegion { line: 1, left: 0, right: 0, cells: cells_of("Q") }]));
    assert!(grid.is_dirty());
    let rows = grid.take_dirty_rows();
    assert_eq!(rows, vec![false, true, false]);
    // A delta also marks the whole pane; only clearing resets that.
    assert!(grid.is_dirty());
    assert_eq!(grid.take_dirty_rows(), vec![false, false, false]);
    grid.clear_dirty();
    assert!(!grid.is_dirty());
}

#[test]
fn text_in_range_spans_scrollback_and_viewport() {
    let mut grid = ClientPaneGrid::new(3, 1, 10);
    grid.apply_full_sync(&sync(3, 1, cells_of("abc"), 1, cells_of("XYZ")));
    let text = grid.text_in_range((0, 0), (2, 1));
    assert_eq!(text, "abc\nXYZ");
    // The ends may be given in either order, and trailing blanks are cut.
    assert_eq!(grid.text_in_range((1, 1), (1, 0)), "bc\nXY");
}

#[test]
fn search_finds_in_scrollback_and_viewport() {
    let mut grid = ClientPaneGrid::new(5, 1, 10);
    grid.apply_full_sync(&sync(5, 1, cells_of("hello"), 1, cells_of("hello")));
    let results = grid.search("hello");
    assert_eq!(results.len(), 2);
    assert_eq!(results[0].0, 0);
    assert_eq!(results[1].0, 1);
}

#[test]
fn search_ignores_case_and_reports_overlaps() {
    let grid = grid_with_line("AaAa");
    assert_eq!(grid.search("aa"), vec![(0, 0, 1), (0, 1, 2), (0, 2, 3)]);
    assert_eq!(grid.search(""), vec![]);
}

#[test]
fn word_bounds_at_out_of_bounds_returns_none() {
    let grid = ClientPaneGrid::new(4, 2, 0);
    assert_eq!(grid.word_bounds_at(0, 999), None);
}

#[test]
fn link_at_out_of_bounds_returns_none() {
    let grid = ClientPaneGrid::new(4, 2, 0);
    assert_eq!(grid.link_at(0, 999), None);
}

#[test]
fn word_bounds_on_viewport_row() {
    let mut grid = ClientPaneGrid::new(5, 1, 10);
    grid.apply_full_sync(&sync(5, 1, vec![PackedCell::with_ch('x'); 5], 1, cells_of("ab cd")));
    assert_eq!(grid.word_bounds_at(0, 1), Some((0, 1)));
    assert_eq!(grid.word_bounds_at(3, 1), Some((3, 4)));
}
