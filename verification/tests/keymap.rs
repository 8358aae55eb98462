use ciri::keymap::{build_infobox_rows, pick_leader_hints, LeaderHintState};

fn pairs(items: &[(&str, &str)]) -> Vec<(String, String)> {
    items.iter().map(|(k, a)| (k.to_string(), a.to_string())).collect()
}

fn rows(items: &[(&str, &str)]) -> Vec<(String, String)> {
    pairs(items)
}

fn idle_state() -> LeaderHintState {
    LeaderHintState {
        locked: false,
        direct_bindings: vec![],
        bindings: vec![],
        overview_active: false,
        mode_active: false,
        mode_bindings: None,
        awaiting_action: false,
        bare_modifier_promotion: false,
        leader: "ctrl+a".into(),
        direct_help_key: None,
        direct_lock_key: None,
    }
}

#[test]
fn infobox_rows_group_keys_by_action() {
    let bindings = pairs(&[
        ("left", "focus_left"),
        ("h", "focus_left"),
        ("x", "close_pane"),
        ("shift+h", "move_pane_left"),
        ("ctrl+h", "focus_left"),
    ]);
    assert_eq!(
        build_infobox_rows(&bindings),
        rows(&[("h/left", "left"), ("x", "close"), ("shift+h", "move \u{2190}")])
    );
}

#[test]
fn infobox_rows_order_by_shortest_key() {
    let bindings = pairs(&[("tab", "toggle_overview"), ("b", "toggle_broadcast"), ("a", "detach"), ("[", "column_width_decrease")]);
    assert_eq!(
        build_infobox_rows(&bindings),
        rows(&[("[", "shrink"), ("a", "detach"), ("b", "broadcast"), ("tab", "overview")])
    );
    assert_eq!(build_infobox_rows(&vec![]), vec![]);
}

#[test]
fn infobox_rows_measure_keys_in_bytes() {
    // "é" takes two bytes, so the one-byte "z" comes first.
    let bindings = pairs(&[("é", "detach"), ("z", "custom_action")]);
    assert_eq!(build_infobox_rows(&bindings), rows(&[("z", "custom_action"), ("é", "detach")]));
}

#[test]
fn leader_hints_when_locked_show_unlock_key() {
    let mut st = idle_state();
    st.locked = true;
    assert_eq!(pick_leader_hints(&st), rows(&[("g", "unlock")]));
    st.bindings = pairs(&[("l", "toggle_lock")]);
    assert_eq!(pick_leader_hints(&st), rows(&[("l", "unlock")]));
    st.direct_bindings = pairs(&[("x", "other"), ("ctrl+g", "toggle_lock")]);
    assert_eq!(pick_leader_hints(&st), rows(&[("ctrl+g", "unlock")]));
}

#[test]
fn leader_hints_in_overview_and_modes() {
    let mut st = idle_state();
    st.overview_active = true;
    assert_eq!(pick_leader_hints(&st), rows(&[("hjkl", "move"), ("enter", "select"), ("esc", "exit")]));
    let mut st = idle_state();
    st.mode_active = true;
    assert_eq!(pick_leader_hints(&st), rows(&[("esc", "exit")]));
    st.mode_bindings = Some(pairs(&[
        ("left", "focus_left"),
        ("h", "focus_left"),
        ("j", "focus_down"),
        ("shift+k", "move_pane_left"),
        ("k", "focus_up"),
    ]));
    assert_eq!(
        pick_leader_hints(&st),
        rows(&[("h", "left"), ("j", "down"), ("k", "up"), ("esc", "exit")])
    );
}

#[test]
fn leader_hints_awaiting_action_and_idle() {
    let mut st = idle_state();
    st.awaiting_action = true;
    st.bindings = pairs(&[("p", "toggle_command_palette"), ("n", "new_column_right")]);
    assert_eq!(pick_leader_hints(&st), rows(&[("n", "new"), ("p", "palette")]));
    let mut st = idle_state();
    st.direct_lock_key = Some("ctrl+g".into());
    assert_eq!(pick_leader_hints(&st), rows(&[("ctrl+a", "leader"), ("ctrl+g", "lock")]));
    st.bare_modifier_promotion = true;
    st.direct_help_key = Some("f1".into());
    assert_eq!(pick_leader_hints(&st), rows(&[("f1", "help"), ("ctrl+g", "lock")]));
}
