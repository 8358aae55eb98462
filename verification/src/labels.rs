//! Short labels and banner text shown in the chrome.

use vstd::prelude::*;
use crate::text::{chars_of, slice_chars, string_of};

verus! {

/// `a == lit`, character by character.
pub fn eq_lit(a: &Vec<char>, lit: &str) -> (r: bool)
    ensures
        r == (a@ == lit@),
{
    let b = chars_of(lit);
    if a.len() != b.len() {
        return false;
    }
    let mut i: usize = 0;
    while i < a.len()
        invariant
            i <= a.len() == b.len(),
            b@ == lit@,
            forall|k: int| 0 <= k < i ==> a@[k] == b@[k],
        decreases a.len() - i,
    {
        if a[i] != b[i] {
            return false;
        }
        i = i + 1;
    }
    proof {
        assert(a@ =~= b@);
    }
    true
}

/// `a` starts with `lit`.
pub fn starts_with_lit(a: &Vec<char>, lit: &str) -> (r: bool)
    ensures
        r == (a@.len() >= lit@.len() && a@.take(lit@.len() as int) == lit@),
{
    let b = chars_of(lit);
    if a.len() < b.len() {
        return false;
    }
    let mut i: usize = 0;
    while i < b.len()
        invariant
            i <= b.len() <= a.len(),
            b@ == lit@,
            forall|k: int| 0 <= k < i ==> a@[k] == b@[k],
        decreases b.len() - i,
    {
        if a[i] != b[i] {
            proof {
                assert(a@.take(b.len() as int)[i as int] != b@[i as int]);
            }
            return false;
        }
        i = i + 1;
    }
    proof {
        assert(a@.take(b.len() as int) =~= b@);
    }
    true
}

/// The short label shown for a key-binding action.
pub open spec fn action_label(a: Seq<char>) -> Seq<char> {
    if a == "focus_left"@ {
        "left"@
    } else if a == "focus_right"@ {
        "right"@
    } else if a == "focus_up"@ {
        "up"@
    } else if a == "focus_down"@ {
        "down"@
    } else if a == "move_pane_left"@ {
        "move \u{2190}"@
    } else if a == "move_pane_right"@ {
        "move \u{2192}"@
    } else if a == "new_column_right"@ {
        "new pane"@
    } else if a == "new_row_below"@ || a == "new_workspace_below"@ || a == "split_down"@ {
        "split \u{2193}"@
    } else if a == "new_tile_below"@ || a == "stack_pane"@ {
        "stack \u{2193}"@
    } else if a == "close_pane"@ {
        "close"@
    } else if a == "column_width_decrease"@ {
        "shrink"@
    } else if a == "column_width_increase"@ {
        "grow"@
    } else if a == "column_width_full"@ {
        "full"@
    } else if a == "column_width_one_third"@ {
        "1/3"@
    } else if a == "column_width_half"@ {
        "1/2"@
    } else if a == "column_width_two_thirds"@ {
        "2/3"@
    } else if a == "cycle_preset_width"@ {
        "next width"@
    } else if a == "cycle_preset_width_reverse"@ {
        "prev width"@
    } else if a == "equalize_adjacent_columns"@ {
        "equalize"@
    } else if a == "consume_into_column"@ {
        "stack"@
    } else if a == "expel_from_column"@ {
        "unstack"@
    } else if a == "toggle_broadcast"@ {
        "broadcast"@
    } else if a == "toggle_overview"@ {
        "overview"@
    } else if a == "exit_overview"@ {
        "exit"@
    } else if a == "toggle_command_palette"@ {
        "palette"@
    } else if a == "toggle_lock"@ {
        "lock"@
    } else if a == "detach"@ {
        "detach"@
    } else if a == "scroll_line_up"@ {
        "line \u{2191}"@
    } else if a == "scroll_line_down"@ {
        "line \u{2193}"@
    } else if a == "scroll_half_page_up"@ {
        "half \u{2191}"@
    } else if a == "scroll_half_page_down"@ {
        "half \u{2193}"@
    } else if a == "scroll_page_up"@ {
        "page \u{2191}"@
    } else if a == "scroll_page_down"@ {
        "page \u{2193}"@
    } else if a == "scroll_top"@ {
        "top"@
    } else if a == "scroll_bottom"@ {
        "bottom"@
    } else if a.len() >= 20 && a.take(20) == "enter_mode:workspace"@ {
        "workspace"@
    } else if a.len() >= 18 && a.take(18) == "enter_mode:session"@ {
        "session"@
    } else if a.len() >= 17 && a.take(17) == "enter_mode:resize"@ {
        "resize"@
    } else if a.len() >= 15 && a.take(15) == "enter_mode:move"@ {
        "move"@
    } else if a.len() >= 17 && a.take(17) == "enter_mode:scroll"@ {
        "scroll"@
    } else if a.len() >= 11 && a.take(11) == "enter_mode:"@ {
        a.skip(11)
    } else if a.len() >= 17 && a.take(17) == "switch_workspace_"@ {
        a.skip(17)
    } else {
        a
    }
}

pub(crate) fn action_label_chars(a: &Vec<char>) -> (r: Vec<char>)
    ensures
        r@ == action_label(a@),
{
    proof {
        reveal_strlit("enter_mode:workspace");
        reveal_strlit("enter_mode:session");
        reveal_strlit("enter_mode:resize");
        reveal_strlit("enter_mode:move");
        reveal_strlit("enter_mode:scroll");
        reveal_strlit("enter_mode:");
        reveal_strlit("switch_workspace_");
    }
    if eq_lit(a, "focus_left") {
        chars_of("left")
    } else if eq_lit(a, "focus_right") {
        chars_of("right")
    } else if eq_lit(a, "focus_up") {
        chars_of("up")
    } else if eq_lit(a, "focus_down") {
        chars_of("down")
    } else if eq_lit(a, "move_pane_left") {
        chars_of("move \u{2190}")
    } else if eq_lit(a, "move_pane_right") {
        chars_of("move \u{2192}")
    } else if eq_lit(a, "new_column_right") {
        chars_of("new pane")
    } else if eq_lit(a, "new_row_below") || eq_lit(a, "new_workspace_below") || eq_lit(a, "split_down") {
        chars_of("split \u{2193}")
    } else if eq_lit(a, "new_tile_below") || eq_lit(a, "stack_pane") {
        chars_of("stack \u{2193}")
    } else if eq_lit(a, "close_pane") {
        chars_of("close")
    } else if eq_lit(a, "column_width_decrease") {
        chars_of("shrink")
    } else if eq_lit(a, "column_width_increase") {
        chars_of("grow")
    } else if eq_lit(a, "column_width_full") {
        chars_of("full")
    } else if eq_lit(a, "column_width_one_third") {
        chars_of("1/3")
    } else if eq_lit(a, "column_width_half") {
        chars_of("1/2")
    } else if eq_lit(a, "column_width_two_thirds") {
        chars_of("2/3")
    } else if eq_lit(a, "cycle_preset_width") {
        chars_of("next width")
    } else if eq_lit(a, "cycle_preset_width_reverse") {
        chars_of("prev width")
    } else if eq_lit(a, "equalize_adjacent_columns") {
        chars_of("equalize")
    } else if eq_lit(a, "consume_into_column") {
        chars_of("stack")
    } else if eq_lit(a, "expel_from_column") {
        chars_of("unstack")
    } else if eq_lit(a, "toggle_broadcast") {
        chars_of("broadcast")
    } else if eq_lit(a, "toggle_overview") {
        chars_of("overview")
    } else if eq_lit(a, "exit_overview") {
        chars_of("exit")
    } else if eq_lit(a, "toggle_command_palette") {
        chars_of("palette")
    } else if eq_lit(a, "toggle_lock") {
        chars_of("lock")
    } else if eq_lit(a, "detach") {
        chars_of("detach")
    } else if eq_lit(a, "scroll_line_up") {
        chars_of("line \u{2191}")
    } else if eq_lit(a, "scroll_line_down") {
        chars_of("line \u{2193}")
    } else if eq_lit(a, "scroll_half_page_up") {
        chars_of("half \u{2191}")
    } else if eq_lit(a, "scroll_half_page_down") {
        chars_of("half \u{2193}")
    } else if eq_lit(a, "scroll_page_up") {
        chars_of("page \u{2191}")
    } else if eq_lit(a, "scroll_page_down") {
        chars_of("page \u{2193}")
    } else if eq_lit(a, "scroll_top") {
        chars_of("top")
    } else if eq_lit(a, "scroll_bottom") {
        chars_of("bottom")
    } else if starts_with_lit(a, "enter_mode:workspace") {
        chars_of("workspace")
    } else if starts_with_lit(a, "enter_mode:session") {
        chars_of("session")
    } else if starts_with_lit(a, "enter_mode:resize") {
        chars_of("resize")
    } else if starts_with_lit(a, "enter_mode:move") {
        chars_of("move")
    } else if starts_with_lit(a, "enter_mode:scroll") {
        chars_of("scroll")
    } else if starts_with_lit(a, "enter_mode:") {
        slice_chars(a, 11, a.len())
    } else if starts_with_lit(a, "switch_workspace_") {
        slice_chars(a, 17, a.len())
    } else {
        slice_chars(a, 0, a.len())
    }
}

/// The short label shown for the key-binding action `action`.
pub fn action_short_label(action: &str) -> (r: String)
    ensures
        r@ == action_label(action@),
{
    let a = chars_of(action);
    let l = action_label_chars(&a);
    string_of(&l)
}

// ---------------------------------------------------------------- connection banner

/// The decimal digit character for `d` (`d < 10`).
pub open spec fn digit_char(d: nat) -> char {
    ((48 + d) as u8) as char
}

/// Decimal notation of `n` (what `Display` prints for an integer).
pub open spec fn decimal(n: nat) -> Seq<char>
    decreases n,
{
    if n < 10 {
        seq![digit_char(n)]
    } else {
        decimal(n / 10) + seq![digit_char(n % 10)]
    }
}

pub fn decimal_chars(n: u32) -> (r: Vec<char>)
    ensures
        r@ == decimal(n as nat),
    decreases n,
{
    let d = n % 10;
    let c = ((48 + d) as u8) as char;
    if n < 10 {
        let mut v: Vec<char> = Vec::new();
        v.push(c);
        v
    } else {
        let mut v = decimal_chars(n / 10);
        v.push(c);
        v
    }
}

const DOT_PHASE_MS: u64 = 300;
const DOT_PHASES: u32 = 4;

/// The animation phase `elapsed_ms` milliseconds after the animation epoch.
pub fn dot_phase_at(elapsed_ms: u64) -> (r: u32)
    ensures
        r == (elapsed_ms / 300) % 4,
{
    ((elapsed_ms / DOT_PHASE_MS) % (DOT_PHASES as u64)) as u32
}

/// The trailing dots shown in animation phase `phase`.
pub fn dot_suffix(phase: u32) -> (r: &'static str)
    ensures
        r@ == if phase % 4 == 0 {
            ""@
        } else if phase % 4 == 1 {
            "."@
        } else if phase % 4 == 2 {
            ".."@
        } else {
            "..."@
        },
{
    let p = phase % DOT_PHASES;
    if p == 0 {
        ""
    } else if p == 1 {
        "."
    } else if p == 2 {
        ".."
    } else {
        "..."
    }
}

pub enum StatusKind {
    Connecting,
    Reconnecting { attempt: u32, max_attempts: u32, last_reason: Option<String> },
    Failed { reason: String },
}

impl StatusKind {
    /// Whether the banner animates (everything but a final failure).
    pub fn animates(&self) -> (r: bool)
        ensures
            r == !(self is Failed),
    {
        match self {
            StatusKind::Connecting => true,
            StatusKind::Reconnecting { .. } => true,
            StatusKind::Failed { .. } => false,
        }
    }
}

/// The attempt number shown: at least 1, at most `max_attempts`.
pub open spec fn shown_attempt(attempt: u32, max_attempts: u32) -> u32 {
    let a = if attempt < 1 {
        1u32
    } else {
        attempt
    };
    if a < max_attempts {
        a
    } else {
        max_attempts
    }
}

/// The banner's two lines for `kind` while connecting to `target`.
pub open spec fn banner_spec(kind: StatusKind, target: Seq<char>) -> (Seq<char>, Seq<char>) {
    match kind {
        StatusKind::Connecting => (
            if target.len() == 0 {
                "Connecting"@
            } else {
                "Connecting to "@ + target
            },
            Seq::empty(),
        ),
        StatusKind::Reconnecting { attempt, max_attempts, last_reason } => (
            "Reconnecting to "@ + target + " ("@ + decimal(shown_attempt(attempt, max_attempts) as nat)
                + "/"@ + decimal(max_attempts as nat) + ")"@,
            match last_reason {
                Some(r) => "last error: "@ + r@,
                None => Seq::empty(),
            },
        ),
        StatusKind::Failed { reason } => ("Connection failed: "@ + reason@, "Press Esc to dismiss"@),
    }
}

fn push_lit(out: &mut Vec<char>, lit: &str)
    ensures
        final(out)@ == old(out)@ + lit@,
{
    let mut v = chars_of(lit);
    out.append(&mut v);
}

pub fn banner_lines(kind: &StatusKind, target: &str) -> (r: (String, String))
    ensures
        (r.0@, r.1@) == banner_spec(*kind, target@),
{
    match kind {
        StatusKind::Connecting => {
            let t = chars_of(target);
            let mut head: Vec<char> = Vec::new();
            if t.len() == 0 {
                push_lit(&mut head, "Connecting");
            } else {
                push_lit(&mut head, "Connecting to ");
                let mut tt = t;
                head.append(&mut tt);
            }
            proof {
                assert(Seq::<char>::empty() + "Connecting"@ =~= "Connecting"@);
                assert(Seq::<char>::empty() + "Connecting to "@ =~= "Connecting to "@);
            }
            (string_of(&head), string_of(&Vec::new()))
        },
        StatusKind::Reconnecting { attempt, max_attempts, last_reason } => {
            let a = if *attempt < 1 {
                1
            } else {
                *attempt
            };
            let shown = if a < *max_attempts {
                a
            } else {
                *max_attempts
            };
            let mut head: Vec<char> = Vec::new();
            push_lit(&mut head, "Reconnecting to ");
            push_lit(&mut head, target);
            push_lit(&mut head, " (");
            let mut sv = decimal_chars(shown);
            head.append(&mut sv);
            push_lit(&mut head, "/");
            let mut mv = decimal_chars(*max_attempts);
            head.append(&mut mv);
            push_lit(&mut head, ")");
            let mut tail: Vec<char> = Vec::new();
            match last_reason {
                Some(r) => {
                    push_lit(&mut tail, "last error: ");
                    push_lit(&mut tail, r.as_str());
                },
                None => {},
            }
            proof {
                assert(head@ =~= "Reconnecting to "@ + target@ + " ("@ + decimal(
                    shown_attempt(*attempt, *max_attempts) as nat,
                ) + "/"@ + decimal(*max_attempts as nat) + ")"@);
                match last_reason {
                    Some(r) => {
                        assert(tail@ =~= "last error: "@ + r@);
                    },
                    None => {
                        assert(tail@ =~= Seq::<char>::empty());
                    },
                }
            }
            (string_of(&head), string_of(&tail))
        },
        StatusKind::Failed { reason } => {
            let mut head: Vec<char> = Vec::new();
            push_lit(&mut head, "Connection failed: ");
            push_lit(&mut head, reason.as_str());
            let mut tail: Vec<char> = Vec::new();
            push_lit(&mut tail, "Press Esc to dismiss");
            proof {
                assert(head@ =~= "Connection failed: "@ + reason@);
                assert(tail@ =~= "Press Esc to dismiss"@);
            }
            (string_of(&head), string_of(&tail))
        },
    }
}

} // verus!
