use ciri::hit_ids::{
    action_for, context_menu_hit_from_id, decode, encode_chrome, encode_field, encode_sidebar,
    entry_hit_id, pane_id_from_hit_id, pane_tab_hit_id, paste_dialog_hit_from_id,
    settings_hit_from_id, settings_panel_hit_dialog_for_test, top_bar_hit_from_id, ButtonRole,
    ChromeOp, SettingsActionPayload, SettingsHit, SettingsUiAction, UiContextMenuHit,
    UiPasteDialogHit, UiSettingsHit, UiTopBarHit, HIT_CANCEL, HIT_CLOSE, HIT_MODE, HIT_PASTE,
    HIT_SESSION, HIT_WORKSPACE,
};

/// Number of settings categories the panel lists in these tests.
const CATEGORIES: usize = 6;
/// Schema ids of the fields exercised in these tests.
const FIELD_IDS: [u16; 5] = [0, 1, 7, 42, u16::MAX];

#[test]
fn action_for_close_outside_click() {
    assert_eq!(action_for(None), SettingsUiAction::CloseSettings);
}

#[test]
fn action_for_dialog_no_op() {
    assert_eq!(action_for(Some(SettingsHit::Chrome(ChromeOp::Dialog))), SettingsUiAction::SettingsNoOp);
}

#[test]
fn action_for_close_button_dismisses() {
    assert_eq!(action_for(Some(SettingsHit::Chrome(ChromeOp::Close))), SettingsUiAction::CloseSettings);
}

#[test]
fn action_for_open_toml_opens_file() {
    assert_eq!(action_for(Some(SettingsHit::Chrome(ChromeOp::OpenToml))), SettingsUiAction::OpenSettingsToml);
}

#[test]
fn action_for_sidebar_navigates() {
    assert_eq!(action_for(Some(SettingsHit::Sidebar(2))), SettingsUiAction::SelectSettingsCategory(2));
}

#[test]
fn action_for_stepper_routes_through_settings_control() {
    let inc = action_for(Some(SettingsHit::Field { field: 7, role: ButtonRole::StepperInc }));
    assert_eq!(
        inc,
        SettingsUiAction::SettingsControl(SettingsActionPayload::Nudge { field: 7, delta_sign: 1 })
    );
    let dec = action_for(Some(SettingsHit::Field { field: 7, role: ButtonRole::StepperDec }));
    assert_eq!(
        dec,
        SettingsUiAction::SettingsControl(SettingsActionPayload::Nudge { field: 7, delta_sign: -1 })
    );
}

#[test]
fn action_for_switch_routes_through_settings_control() {
    let toggle = action_for(Some(SettingsHit::Field { field: 3, role: ButtonRole::SwitchToggle }));
    assert_eq!(toggle, SettingsUiAction::SettingsControl(SettingsActionPayload::Toggle { field: 3 }));
}

#[test]
fn action_for_dropdown_opens_picker() {
    let open = action_for(Some(SettingsHit::Field { field: 9, role: ButtonRole::DropdownOpen }));
    assert_eq!(open, SettingsUiAction::OpenSettingsDropdown(9));
}

#[test]
fn chrome_round_trip() {
    for op in [ChromeOp::Dialog, ChromeOp::Close, ChromeOp::OpenToml] {
        assert_eq!(decode(encode_chrome(op), CATEGORIES, &FIELD_IDS), Some(SettingsHit::Chrome(op)));
    }
}

#[test]
fn sidebar_round_trip() {
    for cat in 0..CATEGORIES as u16 {
        assert_eq!(decode(encode_sidebar(cat), CATEGORIES, &FIELD_IDS), Some(SettingsHit::Sidebar(cat as usize)));
    }
    assert_eq!(decode(encode_sidebar(CATEGORIES as u16), CATEGORIES, &FIELD_IDS), None);
}

#[test]
fn field_round_trip_for_every_role() {
    for field in FIELD_IDS {
        for role in [ButtonRole::StepperDec, ButtonRole::StepperInc, ButtonRole::SwitchToggle, ButtonRole::DropdownOpen] {
            assert_eq!(
                decode(encode_field(field, role), CATEGORIES, &FIELD_IDS),
                Some(SettingsHit::Field { field, role }),
                "{:?} / {:?}",
                field,
                role
            );
        }
    }
}

#[test]
fn tag_namespaces_are_disjoint() {
    let chrome_ids: Vec<u64> =
        [ChromeOp::Dialog, ChromeOp::Close, ChromeOp::OpenToml].iter().map(|o| encode_chrome(*o)).collect();
    let sidebar_ids: Vec<u64> = (0..CATEGORIES as u16).map(encode_sidebar).collect();
    let field_ids: Vec<u64> = FIELD_IDS.iter().map(|f| encode_field(*f, ButtonRole::StepperDec)).collect();
    for c in &chrome_ids {
        assert!(!sidebar_ids.contains(c));
        assert!(!field_ids.contains(c));
    }
    for s in &sidebar_ids {
        assert!(!field_ids.contains(s));
    }
}

#[test]
fn decode_rejects_unknown_tags_and_codes() {
    assert_eq!(decode(0, CATEGORIES, &FIELD_IDS), None);
    assert_eq!(decode(9u64 << 56, CATEGORIES, &FIELD_IDS), None);
    assert_eq!(decode((1u64 << 56) | (7 << 40), CATEGORIES, &FIELD_IDS), None);
    assert_eq!(decode((3u64 << 56) | (7 << 40) | 5, CATEGORIES, &FIELD_IDS), None);
    // A field id the schema does not have is no field control.
    assert_eq!(decode(encode_field(3, ButtonRole::StepperInc), CATEGORIES, &FIELD_IDS), None);
    assert_eq!(decode(encode_field(7, ButtonRole::StepperInc), CATEGORIES, &[]), None);
    assert_eq!(ButtonRole::from_code(ButtonRole::SwitchToggle.code()), Some(ButtonRole::SwitchToggle));
    assert_eq!(ChromeOp::from_code(ChromeOp::OpenToml.code()), Some(ChromeOp::OpenToml));
}

#[test]
fn top_bar_ids_decode() {
    assert_eq!(top_bar_hit_from_id(Some(HIT_SESSION)), UiTopBarHit::Session);
    assert_eq!(top_bar_hit_from_id(Some(HIT_WORKSPACE)), UiTopBarHit::Workspace);
    assert_eq!(top_bar_hit_from_id(Some(HIT_MODE)), UiTopBarHit::Mode);
    assert_eq!(top_bar_hit_from_id(Some(pane_tab_hit_id(42))), UiTopBarHit::PaneTab(42));
    assert_eq!(top_bar_hit_from_id(Some(77)), UiTopBarHit::Background);
    assert_eq!(top_bar_hit_from_id(None), UiTopBarHit::Background);
    assert_eq!(pane_tab_hit_id(5), 1_000_005);
    assert_eq!(pane_id_from_hit_id(Some(pane_tab_hit_id(5))), Some(5));
    assert_eq!(pane_id_from_hit_id(Some(HIT_SESSION)), None);
}

#[test]
fn context_menu_and_paste_ids_decode() {
    assert_eq!(context_menu_hit_from_id(Some(entry_hit_id(3))), UiContextMenuHit::Entry(3));
    assert_eq!(context_menu_hit_from_id(Some(1)), UiContextMenuHit::Menu);
    assert_eq!(context_menu_hit_from_id(Some(2)), UiContextMenuHit::NoHit);
    assert_eq!(paste_dialog_hit_from_id(Some(HIT_PASTE)), UiPasteDialogHit::Paste);
    assert_eq!(paste_dialog_hit_from_id(Some(HIT_CANCEL)), UiPasteDialogHit::Cancel);
    assert_eq!(paste_dialog_hit_from_id(None), UiPasteDialogHit::NoHit);
    assert_eq!(settings_hit_from_id(Some(HIT_CLOSE)), UiSettingsHit::Close);
    assert_eq!(settings_hit_from_id(Some(settings_panel_hit_dialog_for_test())), UiSettingsHit::Dialog);
    assert_eq!(settings_hit_from_id(Some(99)), UiSettingsHit::NoHit);
}

#[test]
fn settings_hit_ids_follow_the_documented_layout() {
    assert_eq!(encode_chrome(ChromeOp::Dialog), 0x0100_0000_0000_0000);
    assert_eq!(encode_chrome(ChromeOp::Close), 0x0100_0100_0000_0000);
    assert_eq!(encode_chrome(ChromeOp::OpenToml), 0x0100_0200_0000_0000);
    assert_eq!(encode_sidebar(3), 0x0200_0300_0000_0000);
    assert_eq!(encode_field(1, ButtonRole::StepperDec), 0x0300_0100_0000_0001);
    assert_eq!(encode_field(0xABCD, ButtonRole::DropdownOpen), 0x03AB_CD00_0000_0004);
}
