use ciri::labels::{action_short_label, banner_lines, dot_phase_at, dot_suffix, StatusKind};

#[test]
fn short_labels_for_known_actions() {
    assert_eq!(action_short_label("focus_left"), "left");
    assert_eq!(action_short_label("move_pane_right"), "move \u{2192}");
    assert_eq!(action_short_label("new_row_below"), "split \u{2193}");
    assert_eq!(action_short_label("split_down"), "split \u{2193}");
    assert_eq!(action_short_label("scroll_page_up"), "page \u{2191}");
    assert_eq!(action_short_label("toggle_command_palette"), "palette");
}

#[test]
fn short_labels_for_mode_and_workspace_actions() {
    assert_eq!(action_short_label("enter_mode:resize"), "resize");
    assert_eq!(action_short_label("enter_mode:workspace_x"), "workspace");
    assert_eq!(action_short_label("enter_mode:custom"), "custom");
    assert_eq!(action_short_label("switch_workspace_3"), "3");
    assert_eq!(action_short_label("something_else"), "something_else");
}

#[test]
fn dots_cycle_through_four_phases() {
    assert_eq!(dot_phase_at(0), 0);
    assert_eq!(dot_phase_at(299), 0);
    assert_eq!(dot_phase_at(300), 1);
    assert_eq!(dot_phase_at(900), 3);
    assert_eq!(dot_phase_at(1200), 0);
    assert_eq!(dot_suffix(0), "");
    assert_eq!(dot_suffix(1), ".");
    assert_eq!(dot_suffix(2), "..");
    assert_eq!(dot_suffix(3), "...");
    assert_eq!(dot_suffix(7), "...");
}

#[test]
fn banner_lines_per_status() {
    assert_eq!(banner_lines(&StatusKind::Connecting, "host"), ("Connecting to host".to_string(), String::new()));
    assert_eq!(banner_lines(&StatusKind::Connecting, ""), ("Connecting".to_string(), String::new()));
    let r = StatusKind::Reconnecting { attempt: 0, max_attempts: 5, last_reason: Some("refused".into()) };
    assert_eq!(
        banner_lines(&r, "h"),
        ("Reconnecting to h (1/5)".to_string(), "last error: refused".to_string())
    );
    let r = StatusKind::Reconnecting { attempt: 9, max_attempts: 5, last_reason: None };
    assert_eq!(banner_lines(&r, "h"), ("Reconnecting to h (5/5)".to_string(), String::new()));
    let f = StatusKind::Failed { reason: "dns".into() };
    assert!(!f.animates());
    assert!(StatusKind::Connecting.animates());
    assert_eq!(
        banner_lines(&f, "h"),
        ("Connection failed: dns".to_string(), "Press Esc to dismiss".to_string())
    );
}
