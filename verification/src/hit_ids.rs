//! Hit-id encodings shared by the chrome components and the click
//! dispatcher: every clickable element carries a `u64` hit id, and each
//! component turns the id under the pointer back into its own hit enum.

use vstd::prelude::*;

verus! {

// ---------------------------------------------------------------- top bar / tab bar

pub const HIT_SESSION: u64 = 1;
pub const HIT_WORKSPACE: u64 = 2;
pub const HIT_MODE: u64 = 3;
/// Base of the pane-tab hit ids; far above every singleton chrome id.
pub const HIT_TAB_BASE: u64 = 1_000_000;

#[derive(Debug, Clone, Copy, PartialEq, Eq, Structural)]
pub enum UiTopBarHit {
    Session,
    Workspace,
    Mode,
    PaneTab(u64),
    Background,
}

/// Hit id of the tab for pane `pane_id`.
pub fn pane_tab_hit_id(pane_id: u64) -> (r: u64)
    requires
        pane_id <= u64::MAX - HIT_TAB_BASE,
    ensures
        r == HIT_TAB_BASE + pane_id,
{
    HIT_TAB_BASE + pane_id
}

pub open spec fn top_bar_hit_spec(hit_id: Option<u64>) -> UiTopBarHit {
    match hit_id {
        Some(id) => if id == HIT_SESSION {
            UiTopBarHit::Session
        } else if id == HIT_WORKSPACE {
            UiTopBarHit::Workspace
        } else if id == HIT_MODE {
            UiTopBarHit::Mode
        } else if id >= HIT_TAB_BASE {
            UiTopBarHit::PaneTab((id - HIT_TAB_BASE) as u64)
        } else {
            UiTopBarHit::Background
        },
        None => UiTopBarHit::Background,
    }
}

pub fn top_bar_hit_from_id(hit_id: Option<u64>) -> (r: UiTopBarHit)
    ensures
        r == top_bar_hit_spec(hit_id),
{
    match hit_id {
        Some(HIT_SESSION) => UiTopBarHit::Session,
        Some(HIT_WORKSPACE) => UiTopBarHit::Workspace,
        Some(HIT_MODE) => UiTopBarHit::Mode,
        Some(id) if id >= HIT_TAB_BASE => UiTopBarHit::PaneTab(id - HIT_TAB_BASE),
        _ => UiTopBarHit::Background,
    }
}

/// The pane a tab-bar hit id belongs to.
pub fn pane_id_from_hit_id(hit_id: Option<u64>) -> (r: Option<u64>)
    ensures
        r == match hit_id {
            Some(id) => if id >= HIT_TAB_BASE {
                Some((id - HIT_TAB_BASE) as u64)
            } else {
                None
            },
            None => None,
        },
{
    match hit_id {
        Some(id) => if id >= HIT_TAB_BASE {
            Some(id - HIT_TAB_BASE)
        } else {
            None
        },
        None => None,
    }
}

/// A pane tab's hit id decodes to that pane, in the top bar and in the
/// side tab bar, and never to a singleton chrome element.
pub proof fn lemma_pane_tab_round_trip(pane_id: u64)
    requires
        pane_id <= u64::MAX - HIT_TAB_BASE,
    ensures
        top_bar_hit_spec(Some((HIT_TAB_BASE + pane_id) as u64)) == UiTopBarHit::PaneTab(pane_id),
        ((HIT_TAB_BASE + pane_id) as u64) != HIT_SESSION,
        ((HIT_TAB_BASE + pane_id) as u64) != HIT_WORKSPACE,
        ((HIT_TAB_BASE + pane_id) as u64) != HIT_MODE,
{
}

// ---------------------------------------------------------------- context menu

pub const HIT_MENU: u64 = 1;
pub const HIT_ENTRY_BASE: u64 = 1_000_000;

#[derive(Debug, Clone, Copy, PartialEq, Eq, Structural)]
pub enum UiContextMenuHit {
    Entry(usize),
    Menu,
    NoHit,
}

pub fn entry_hit_id(index: usize) -> (r: u64)
    requires
        index as u64 <= u64::MAX - HIT_ENTRY_BASE,
    ensures
        r == HIT_ENTRY_BASE + index,
{
    HIT_ENTRY_BASE + index as u64
}

pub open spec fn context_menu_hit_spec(hit_id: Option<u64>) -> UiContextMenuHit {
    match hit_id {
        Some(id) => if id == HIT_MENU {
            UiContextMenuHit::Menu
        } else if id >= HIT_ENTRY_BASE {
            UiContextMenuHit::Entry((id - HIT_ENTRY_BASE) as usize)
        } else {
            UiContextMenuHit::NoHit
        },
        None => UiContextMenuHit::NoHit,
    }
}

pub fn context_menu_hit_from_id(hit_id: Option<u64>) -> (r: UiContextMenuHit)
    ensures
        r == context_menu_hit_spec(hit_id),
{
    match hit_id {
        Some(HIT_MENU) => UiContextMenuHit::Menu,
        Some(id) if id >= HIT_ENTRY_BASE => UiContextMenuHit::Entry((id - HIT_ENTRY_BASE) as usize),
        _ => UiContextMenuHit::NoHit,
    }
}

/// A menu row's hit id decodes back to that row.
pub proof fn lemma_entry_round_trip(index: usize)
    requires
        index as u64 <= u64::MAX - HIT_ENTRY_BASE,
    ensures
        context_menu_hit_spec(Some((HIT_ENTRY_BASE + index) as u64)) == UiContextMenuHit::Entry(index),
{
}

// ---------------------------------------------------------------- paste dialog

pub const HIT_PASTE_DIALOG: u64 = 1;
pub const HIT_PASTE: u64 = 2;
pub const HIT_CANCEL: u64 = 3;

#[derive(Debug, Clone, Copy, PartialEq, Eq, Structural)]
pub enum UiPasteDialogHit {
    Paste,
    Cancel,
    Dialog,
    NoHit,
}

pub fn paste_dialog_hit_from_id(hit_id: Option<u64>) -> (r: UiPasteDialogHit)
    ensures
        r == match hit_id {
            Some(id) => if id == HIT_PASTE {
                UiPasteDialogHit::Paste
            } else if id == HIT_CANCEL {
                UiPasteDialogHit::Cancel
            } else if id == HIT_PASTE_DIALOG {
                UiPasteDialogHit::Dialog
            } else {
                UiPasteDialogHit::NoHit
            },
            None => UiPasteDialogHit::NoHit,
        },
{
    match hit_id {
        Some(HIT_PASTE) => UiPasteDialogHit::Paste,
        Some(HIT_CANCEL) => UiPasteDialogHit::Cancel,
        Some(HIT_PASTE_DIALOG) => UiPasteDialogHit::Dialog,
        _ => UiPasteDialogHit::NoHit,
    }
}

// ---------------------------------------------------------------- settings panel (singletons)

pub const HIT_SETTINGS_DIALOG: u64 = 1;
pub const HIT_CLOSE: u64 = 2;
pub const HIT_OPEN_TOML: u64 = 3;
pub const HIT_THEME_DROPDOWN: u64 = 4;
pub const HIT_OPACITY_DEC: u64 = 5;
pub const HIT_OPACITY_INC: u64 = 6;

#[derive(Debug, Clone, Copy, PartialEq, Eq, Structural)]
pub enum UiSettingsHit {
    Close,
    OpenToml,
    ThemeDropdown,
    PaneOpacityDec,
    PaneOpacityInc,
    Dialog,
    NoHit,
}

/// The hit id of the settings panel's body.
pub fn settings_panel_hit_dialog_for_test() -> (r: u64)
    ensures
        r == HIT_SETTINGS_DIALOG,
{
    HIT_SETTINGS_DIALOG
}

pub fn settings_hit_from_id(hit_id: Option<u64>) -> (r: UiSettingsHit)
    ensures
        r == match hit_id {
            Some(id) => if id == HIT_CLOSE {
                UiSettingsHit::Close
            } else if id == HIT_OPEN_TOML {
                UiSettingsHit::OpenToml
            } else if id == HIT_THEME_DROPDOWN {
                UiSettingsHit::ThemeDropdown
            } else if id == HIT_OPACITY_DEC {
                UiSettingsHit::PaneOpacityDec
            } else if id == HIT_OPACITY_INC {
                UiSettingsHit::PaneOpacityInc
            } else if id == HIT_SETTINGS_DIALOG {
                UiSettingsHit::Dialog
            } else {
                UiSettingsHit::NoHit
            },
            None => UiSettingsHit::NoHit,
        },
{
    match hit_id {
        Some(HIT_CLOSE) => UiSettingsHit::Close,
        Some(HIT_OPEN_TOML) => UiSettingsHit::OpenToml,
        Some(HIT_THEME_DROPDOWN) => UiSettingsHit::ThemeDropdown,
        Some(HIT_OPACITY_DEC) => UiSettingsHit::PaneOpacityDec,
        Some(HIT_OPACITY_INC) => UiSettingsHit::PaneOpacityInc,
        Some(HIT_SETTINGS_DIALOG) => UiSettingsHit::Dialog,
        _ => UiSettingsHit::NoHit,
    }
}

// ---------------------------------------------------------------- settings panel (rows)
//
//  bits 63..56 : tag (1 = chrome, 2 = sidebar, 3 = field control)
//  bits 55..40 : payload (chrome op / category index / field id)
//  bits 7..0   : button role (field controls only)

pub const TAG_CHROME: u64 = 1;
pub const TAG_SIDEBAR: u64 = 2;
pub const TAG_FIELD: u64 = 3;
pub const TAG_SHIFT: u64 = 56;
pub const PAYLOAD_SHIFT: u64 = 40;
/// The payload's 16 bits, once shifted down.
pub const PAYLOAD_MASK: u64 = 0xFFFF;

/// Title-bar / footer-level elements of the settings panel.
#[derive(Debug, Clone, Copy, PartialEq, Eq, Structural)]
pub enum ChromeOp {
    Dialog,
    Close,
    OpenToml,
}

pub open spec fn chrome_code(op: ChromeOp) -> u64 {
    match op {
        ChromeOp::Dialog => 0,
        ChromeOp::Close => 1,
        ChromeOp::OpenToml => 2,
    }
}

pub open spec fn chrome_from_code(c: u64) -> Option<ChromeOp> {
    if c == 0 {
        Some(ChromeOp::Dialog)
    } else if c == 1 {
        Some(ChromeOp::Close)
    } else if c == 2 {
        Some(ChromeOp::OpenToml)
    } else {
        None
    }
}

impl ChromeOp {
    pub fn code(self) -> (r: u64)
        ensures
            r == chrome_code(self),
    {
        match self {
            ChromeOp::Dialog => 0,
            ChromeOp::Close => 1,
            ChromeOp::OpenToml => 2,
        }
    }

    pub fn from_code(c: u64) -> (r: Option<ChromeOp>)
        ensures
            r == chrome_from_code(c),
    {
        if c == 0 {
            Some(ChromeOp::Dialog)
        } else if c == 1 {
            Some(ChromeOp::Close)
        } else if c == 2 {
            Some(ChromeOp::OpenToml)
        } else {
            None
        }
    }
}

/// Per-control button role for field rows.
#[derive(Debug, Clone, Copy, PartialEq, Eq, Structural)]
pub enum ButtonRole {
    /// `-` button on a stepper.
    StepperDec,
    /// `+` button on a stepper.
    StepperInc,
    /// Switch tap target.
    SwitchToggle,
    /// Dropdown trigger.
    DropdownOpen,
}

pub open spec fn role_code(r: ButtonRole) -> u64 {
    match r {
        ButtonRole::StepperDec => 1,
        ButtonRole::StepperInc => 2,
        ButtonRole::SwitchToggle => 3,
        ButtonRole::DropdownOpen => 4,
    }
}

pub open spec fn role_from_code(c: u64) -> Option<ButtonRole> {
    if c == 1 {
        Some(ButtonRole::StepperDec)
    } else if c == 2 {
        Some(ButtonRole::StepperInc)
    } else if c == 3 {
        Some(ButtonRole::SwitchToggle)
    } else if c == 4 {
        Some(ButtonRole::DropdownOpen)
    } else {
        None
    }
}

impl ButtonRole {
    pub fn code(self) -> (r: u64)
        ensures
            r == role_code(self),
    {
        match self {
            ButtonRole::StepperDec => 1,
            ButtonRole::StepperInc => 2,
            ButtonRole::SwitchToggle => 3,
            ButtonRole::DropdownOpen => 4,
        }
    }

    pub fn from_code(c: u64) -> (r: Option<ButtonRole>)
        ensures
            r == role_from_code(c),
    {
        if c == 1 {
            Some(ButtonRole::StepperDec)
        } else if c == 2 {
            Some(ButtonRole::StepperInc)
        } else if c == 3 {
            Some(ButtonRole::SwitchToggle)
        } else if c == 4 {
            Some(ButtonRole::DropdownOpen)
        } else {
            None
        }
    }
}

/// A decoded settings-panel hit id. Categories are named by their index in
/// the category list, fields by their schema id.
#[derive(Debug, Clone, Copy, PartialEq, Eq, Structural)]
pub enum SettingsHit {
    Chrome(ChromeOp),
    Sidebar(usize),
    Field { field: u16, role: ButtonRole },
}

pub open spec fn encode_chrome_spec(op: ChromeOp) -> u64 {
    (TAG_CHROME << TAG_SHIFT) | (chrome_code(op) << PAYLOAD_SHIFT)
}

pub open spec fn encode_sidebar_spec(index: u16) -> u64 {
    (TAG_SIDEBAR << TAG_SHIFT) | ((index as u64) << PAYLOAD_SHIFT)
}

pub open spec fn encode_field_spec(field: u16, role: ButtonRole) -> u64 {
    (TAG_FIELD << TAG_SHIFT) | ((field as u64) << PAYLOAD_SHIFT) | role_code(role)
}

/// What `decode` answers for `id` when the panel lists `category_count`
/// categories and the schema's fields have the ids `field_ids`.
pub open spec fn decode_spec(id: u64, category_count: usize, field_ids: Seq<u16>) -> Option<SettingsHit> {
    let tag = id >> TAG_SHIFT;
    let payload = (id >> PAYLOAD_SHIFT) & PAYLOAD_MASK;
    if tag == TAG_CHROME {
        match chrome_from_code(payload) {
            Some(op) => Some(SettingsHit::Chrome(op)),
            None => None,
        }
    } else if tag == TAG_SIDEBAR {
        if payload < category_count {
            Some(SettingsHit::Sidebar(payload as usize))
        } else {
            None
        }
    } else if tag == TAG_FIELD {
        match role_from_code(id & 0xFF) {
            Some(role) => if field_ids.contains(payload as u16) {
                Some(SettingsHit::Field { field: payload as u16, role })
            } else {
                None
            },
            None => None,
        }
    } else {
        None
    }
}

pub fn encode_chrome(op: ChromeOp) -> (r: u64)
    ensures
        r == encode_chrome_spec(op),
{
    (TAG_CHROME << TAG_SHIFT) | (op.code() << PAYLOAD_SHIFT)
}

/// Hit id of the sidebar row for the category at `index`.
pub fn encode_sidebar(index: u16) -> (r: u64)
    ensures
        r == encode_sidebar_spec(index),
{
    (TAG_SIDEBAR << TAG_SHIFT) | ((index as u64) << PAYLOAD_SHIFT)
}

/// Hit id of the `role` button of the field with schema id `field`.
pub fn encode_field(field: u16, role: ButtonRole) -> (r: u64)
    ensures
        r == encode_field_spec(field, role),
{
    (TAG_FIELD << TAG_SHIFT) | ((field as u64) << PAYLOAD_SHIFT) | role.code()
}

/// The settings-panel element that hit id `id` names: a chrome element, a
/// listed category, or a control of a field the schema has (its ids are
/// `field_ids`); `None` for an id of another kind or an unknown element.
pub fn decode(id: u64, category_count: usize, field_ids: &[u16]) -> (r: Option<SettingsHit>)
    ensures
        r == decode_spec(id, category_count, field_ids@),
{
    let tag = id >> TAG_SHIFT;
    let payload = (id >> PAYLOAD_SHIFT) & PAYLOAD_MASK;
    if tag == TAG_CHROME {
        match ChromeOp::from_code(payload) {
            Some(op) => Some(SettingsHit::Chrome(op)),
            None => None,
        }
    } else if tag == TAG_SIDEBAR {
        if payload < category_count as u64 {
            Some(SettingsHit::Sidebar(payload as usize))
        } else {
            None
        }
    } else if tag == TAG_FIELD {
        match ButtonRole::from_code(id & 0xFF) {
            Some(role) => {
                let field = payload as u16;
                if has_field(field_ids, field) {
                    Some(SettingsHit::Field { field, role })
                } else {
                    None
                }
            },
            None => None,
        }
    } else {
        None
    }
}

/// Whether `field` is one of `field_ids`.
fn has_field(field_ids: &[u16], field: u16) -> (r: bool)
    ensures
        r == field_ids@.contains(field),
{
    let mut i: usize = 0;
    while i < field_ids.len()
        invariant
            i <= field_ids@.len(),
            forall|j: int| 0 <= j < i ==> field_ids@[j] != field,
        decreases field_ids@.len() - i,
    {
        if field_ids[i] == field {
            return true;
        }
        i = i + 1;
    }
    false
}

proof fn lemma_chrome_bits(c: u64)
    requires
        c <= 2,
    ensures
        ((1u64 << 56u64) | (c << 40u64)) >> 56u64 == 1,
        (((1u64 << 56u64) | (c << 40u64)) >> 40u64) & 0xFFFFu64 == c,
{
    assert(((1u64 << 56u64) | (c << 40u64)) >> 56u64 == 1) by (bit_vector)
        requires
            c <= 2,
    ;
    assert((((1u64 << 56u64) | (c << 40u64)) >> 40u64) & 0xFFFFu64 == c) by (bit_vector)
        requires
            c <= 2,
    ;
}

proof fn lemma_sidebar_bits(i: u64)
    requires
        i < 0x1_0000u64,
    ensures
        ((2u64 << 56u64) | (i << 40u64)) >> 56u64 == 2,
        (((2u64 << 56u64) | (i << 40u64)) >> 40u64) & 0xFFFFu64 == i,
{
    assert(((2u64 << 56u64) | (i << 40u64)) >> 56u64 == 2) by (bit_vector)
        requires
            i < 0x1_0000u64,
    ;
    assert((((2u64 << 56u64) | (i << 40u64)) >> 40u64) & 0xFFFFu64 == i) by (bit_vector)
        requires
            i < 0x1_0000u64,
    ;
}

proof fn lemma_field_bits(f: u64, r: u64)
    requires
        f < 0x1_0000u64,
        1 <= r <= 4,
    ensures
        ((3u64 << 56u64) | (f << 40u64) | r) >> 56u64 == 3,
        (((3u64 << 56u64) | (f << 40u64) | r) >> 40u64) & 0xFFFFu64 == f,
        ((3u64 << 56u64) | (f << 40u64) | r) & 0xFFu64 == r,
{
    assert(((3u64 << 56u64) | (f << 40u64) | r) >> 56u64 == 3) by (bit_vector)
        requires
            f < 0x1_0000u64,
            1 <= r <= 4,
    ;
    assert((((3u64 << 56u64) | (f << 40u64) | r) >> 40u64) & 0xFFFFu64 == f) by (bit_vector)
        requires
            f < 0x1_0000u64,
            1 <= r <= 4,
    ;
    assert(((3u64 << 56u64) | (f << 40u64) | r) & 0xFFu64 == r) by (bit_vector)
        requires
            f < 0x1_0000u64,
            1 <= r <= 4,
    ;
}

/// The documented layout: the tag sits in bits 63..56, the chrome op,
/// category index or field id in bits 55..40, and a field control's role
/// code in bits 7..0.
pub proof fn lemma_hit_id_layout(op: ChromeOp, index: u16, field: u16, role: ButtonRole)
    ensures
        encode_chrome_spec(op) >> 56u64 == TAG_CHROME,
        (encode_chrome_spec(op) >> 40u64) & 0xFFFFu64 == chrome_code(op),
        encode_sidebar_spec(index) >> 56u64 == TAG_SIDEBAR,
        (encode_sidebar_spec(index) >> 40u64) & 0xFFFFu64 == index,
        encode_field_spec(field, role) >> 56u64 == TAG_FIELD,
        (encode_field_spec(field, role) >> 40u64) & 0xFFFFu64 == field,
        encode_field_spec(field, role) & 0xFFu64 == role_code(role),
{
    lemma_chrome_bits(chrome_code(op));
    lemma_sidebar_bits(index as u64);
    lemma_field_bits(field as u64, role_code(role));
}

/// Every chrome element's hit id decodes back to that element.
pub proof fn lemma_chrome_round_trip(op: ChromeOp, category_count: usize, field_ids: Seq<u16>)
    ensures
        decode_spec(encode_chrome_spec(op), category_count, field_ids) == Some(SettingsHit::Chrome(op)),
{
    lemma_chrome_bits(chrome_code(op));
}

/// Every listed category's sidebar hit id decodes back to that category.
pub proof fn lemma_sidebar_round_trip(index: u16, category_count: usize, field_ids: Seq<u16>)
    requires
        index < category_count,
    ensures
        decode_spec(encode_sidebar_spec(index), category_count, field_ids) == Some(
            SettingsHit::Sidebar(index as usize),
        ),
{
    lemma_sidebar_bits(index as u64);
}

/// Every control of a schema field decodes back to that field and role.
pub proof fn lemma_field_round_trip(field: u16, role: ButtonRole, category_count: usize, field_ids: Seq<u16>)
    requires
        field_ids.contains(field),
    ensures
        decode_spec(encode_field_spec(field, role), category_count, field_ids) == Some(
            SettingsHit::Field { field, role },
        ),
{
    lemma_field_bits(field as u64, role_code(role));
}

/// Hit ids of different kinds (chrome, sidebar, field) never collide.
pub proof fn lemma_tag_namespaces_disjoint(op: ChromeOp, index: u16, field: u16, role: ButtonRole)
    ensures
        encode_chrome_spec(op) != encode_sidebar_spec(index),
        encode_chrome_spec(op) != encode_field_spec(field, role),
        encode_sidebar_spec(index) != encode_field_spec(field, role),
{
    lemma_chrome_bits(chrome_code(op));
    lemma_sidebar_bits(index as u64);
    lemma_field_bits(field as u64, role_code(role));
}

// ---------------------------------------------------------------- settings actions

/// The settings mutation a field-control click asks for.
#[derive(Debug, Clone, Copy, PartialEq, Eq, Structural)]
pub enum SettingsActionPayload {
    /// Stepper press; `delta_sign` is +1 or -1.
    Nudge { field: u16, delta_sign: i32 },
    /// Switch tap: flip the bool.
    Toggle { field: u16 },
}

/// What a click in the settings panel asks the app to do.
#[derive(Debug, Clone, Copy, PartialEq, Eq, Structural)]
pub enum SettingsUiAction {
    CloseSettings,
    SettingsNoOp,
    OpenSettingsToml,
    SelectSettingsCategory(usize),
    SettingsControl(SettingsActionPayload),
    OpenSettingsDropdown(u16),
}

pub open spec fn action_for_spec(hit: Option<SettingsHit>) -> SettingsUiAction {
    match hit {
        None => SettingsUiAction::CloseSettings,
        Some(SettingsHit::Chrome(ChromeOp::Dialog)) => SettingsUiAction::SettingsNoOp,
        Some(SettingsHit::Chrome(ChromeOp::Close)) => SettingsUiAction::CloseSettings,
        Some(SettingsHit::Chrome(ChromeOp::OpenToml)) => SettingsUiAction::OpenSettingsToml,
        Some(SettingsHit::Sidebar(c)) => SettingsUiAction::SelectSettingsCategory(c),
        Some(SettingsHit::Field { field, role }) => match role {
            ButtonRole::StepperDec => SettingsUiAction::SettingsControl(
                SettingsActionPayload::Nudge { field, delta_sign: -1i32 },
            ),
            ButtonRole::StepperInc => SettingsUiAction::SettingsControl(
                SettingsActionPayload::Nudge { field, delta_sign: 1i32 },
            ),
            ButtonRole::SwitchToggle => SettingsUiAction::SettingsControl(
                SettingsActionPayload::Toggle { field },
            ),
            ButtonRole::DropdownOpen => SettingsUiAction::OpenSettingsDropdown(field),
        },
    }
}

/// The action for a click whose hit id decoded to `hit` (`None`: the
/// click landed outside the panel).
pub fn action_for(hit: Option<SettingsHit>) -> (r: SettingsUiAction)
    ensures
        r == action_for_spec(hit),
{
    match hit {
        None => SettingsUiAction::CloseSettings,
        Some(SettingsHit::Chrome(ChromeOp::Dialog)) => SettingsUiAction::SettingsNoOp,
        Some(SettingsHit::Chrome(ChromeOp::Close)) => SettingsUiAction::CloseSettings,
        Some(SettingsHit::Chrome(ChromeOp::OpenToml)) => SettingsUiAction::OpenSettingsToml,
        Some(SettingsHit::Sidebar(c)) => SettingsUiAction::SelectSettingsCategory(c),
        Some(SettingsHit::Field { field, role }) => match role {
            ButtonRole::StepperDec => SettingsUiAction::SettingsControl(
                SettingsActionPayload::Nudge { field, delta_sign: -1i32 },
            ),
            ButtonRole::StepperInc => SettingsUiAction::SettingsControl(
                SettingsActionPayload::Nudge { field, delta_sign: 1i32 },
            ),
            ButtonRole::SwitchToggle => SettingsUiAction::SettingsControl(
                SettingsActionPayload::Toggle { field },
            ),
            ButtonRole::DropdownOpen => SettingsUiAction::OpenSettingsDropdown(field),
        },
    }
}

} // verus!
