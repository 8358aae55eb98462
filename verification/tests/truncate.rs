use ciri::truncate::{clip_label_columns, prefix_fit_cols, preedit_cursor_display_cols, truncate_to_cols};

#[test]
fn truncate_fits_exactly() {
    assert_eq!(truncate_to_cols("abcd", 4), "abcd");
}

#[test]
fn truncate_empty_when_no_budget() {
    assert_eq!(truncate_to_cols("abcd", 0), "");
}

#[test]
fn truncate_adds_ellipsis_when_overflows() {
    assert_eq!(truncate_to_cols("abcdef", 4), "abc…");
}

#[test]
fn truncate_handles_wide_chars() {
    assert_eq!(truncate_to_cols("全角", 3), "全…");
}

#[test]
fn truncate_single_column_budget() {
    assert_eq!(truncate_to_cols("ab", 1), "…");
    assert_eq!(truncate_to_cols("a", 1), "a");
    assert_eq!(truncate_to_cols("", 5), "");
    assert_eq!(truncate_to_cols("全", 1), "…");
}

#[test]
fn clip_label_keeps_whole_visible_characters() {
    assert_eq!(clip_label_columns("abcdef", 0, 4), Some(("abcd".to_string(), 0)));
    assert_eq!(clip_label_columns("abcdef", 2, 3), Some(("cde".to_string(), 2)));
    assert_eq!(clip_label_columns("abc", 3, 5), None);
    assert_eq!(clip_label_columns("abc", 0, 0), None);
    // "全" spans columns 0-1; scrolled by one column it straddles the edge
    // and the label starts with the next character, one column later.
    assert_eq!(clip_label_columns("全ab", 1, 4), Some(("ab".to_string(), 2)));
    // A wide character that reaches past the right edge ends the label.
    assert_eq!(clip_label_columns("a全b", 0, 2), Some(("a".to_string(), 0)));
}

#[test]
fn preedit_cursor_display_cols_handles_utf8_offsets_and_wide_chars() {
    let text = "你a好";
    assert_eq!(preedit_cursor_display_cols(text, 0), 0);
    assert_eq!(preedit_cursor_display_cols(text, "你".len()), 2);
    assert_eq!(preedit_cursor_display_cols(text, "你a".len()), 3);
    assert_eq!(preedit_cursor_display_cols(text, text.len()), 5);
    // A cursor inside a character counts that character; past the end, all.
    assert_eq!(preedit_cursor_display_cols(text, 1), 2);
    assert_eq!(preedit_cursor_display_cols(text, 999), 5);
}

#[test]
fn prefix_fit_cols_stops_at_budget() {
    // Two one-column characters fit in two cells; the third would exceed.
    assert_eq!(prefix_fit_cols("hello", 2), (2, 2));
    assert_eq!(prefix_fit_cols("hello", 9), (5, 5));
    assert_eq!(prefix_fit_cols("", 3), (0, 0));
    assert_eq!(prefix_fit_cols("abc", 0), (0, 0));
    // Wide characters take two cells and three bytes each.
    assert_eq!(prefix_fit_cols("日本語", 5), (6, 4));
    // A control character takes no column but keeps its byte.
    assert_eq!(prefix_fit_cols("a\u{7}b", 2), (3, 2));
    // The ellipsis is one column wide.
    assert_eq!(prefix_fit_cols("…", 1), (3, 1));
}
