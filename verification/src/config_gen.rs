//! The configuration file written by the setup wizard.

use vstd::prelude::*;
use crate::text::{chars_of, string_of, trim, trim_chars};

verus! {

/// How one character appears inside a TOML double-quoted string.
pub open spec fn escape_char(c: char) -> Seq<char> {
    if c == '\\' {
        seq!['\\', '\\']
    } else if c == '"' {
        seq!['\\', '"']
    } else if c == '\n' {
        seq!['\\', 'n']
    } else if c == '\r' {
        seq!['\\', 'r']
    } else if c == '\t' {
        seq!['\\', 't']
    } else {
        seq![c]
    }
}

/// `s` escaped for a TOML double-quoted string: backslash, quote,
/// newline, carriage return and tab become two-character escapes.
pub open spec fn escape(s: Seq<char>) -> Seq<char>
    decreases s.len(),
{
    if s.len() == 0 {
        Seq::empty()
    } else {
        escape(s.drop_last()) + escape_char(s.last())
    }
}

/// Reading an escaped TOML basic string back (for the five escapes that
/// `escape` produces).
pub open spec fn unescape(s: Seq<char>) -> Seq<char>
    decreases s.len(),
{
    if s.len() == 0 {
        Seq::empty()
    } else if s[0] == '\\' && s.len() >= 2 {
        let c = s[1];
        let d = if c == 'n' {
            '\n'
        } else if c == 'r' {
            '\r'
        } else if c == 't' {
            '\t'
        } else {
            c
        };
        seq![d] + unescape(s.skip(2))
    } else {
        seq![s[0]] + unescape(s.drop_first())
    }
}

fn push_escaped(out: &mut Vec<char>, c: char)
    ensures
        final(out)@ == old(out)@ + escape_char(c),
{
    if c == '\\' {
        out.push('\\');
        out.push('\\');
    } else if c == '"' {
        out.push('\\');
        out.push('"');
    } else if c == '\n' {
        out.push('\\');
        out.push('n');
    } else if c == '\r' {
        out.push('\\');
        out.push('r');
    } else if c == '\t' {
        out.push('\\');
        out.push('t');
    } else {
        out.push(c);
    }
}

fn escape_into(out: &mut Vec<char>, s: &str)
    ensures
        final(out)@ == old(out)@ + escape(s@),
{
    let v = chars_of(s);
    let ghost start = out@;
    let mut i: usize = 0;
    while i < v.len()
        invariant
            i <= v.len(),
            v@ == s@,
            out@ == start + escape(v@.take(i as int)),
        decreases v.len() - i,
    {
        proof {
            assert(v@.take(i + 1).drop_last() =~= v@.take(i as int));
        }
        push_escaped(out, v[i]);
        proof {
            assert(out@ =~= start + escape(v@.take(i + 1)));
        }
        i = i + 1;
    }
    proof {
        assert(v@.take(v.len() as int) =~= v@);
    }
}

fn append_str(out: &mut Vec<char>, s: &str)
    ensures
        final(out)@ == old(out)@ + s@,
{
    let mut v = chars_of(s);
    out.append(&mut v);
}

/// Escape a string for safe embedding in a TOML double-quoted value.
pub fn escape_toml_string(s: &str) -> (r: String)
    ensures
        r@ == escape(s@),
{
    let mut out: Vec<char> = Vec::new();
    escape_into(&mut out, s);
    proof {
        assert(out@ =~= escape(s@));
    }
    string_of(&out)
}

pub const CONFIG_HEAD: &'static str = "# Ciritty configuration — generated by `ciritty init`\n\n[font]\nfamily = \"";

pub const CONFIG_AFTER_FONT: &'static str = "\"\nsize = 10.0\n\n[appearance]\npadding = 4.0\ncolumn_gap = 8.0\nborder_width = 2.0\n\n[terminal]\nshell = \"";

pub const CONFIG_AFTER_SHELL: &'static str = "\"\n\n[statusbar]\nposition = \"";

pub const CONFIG_AFTER_POSITION: &'static str = "\"\n\n[input]\nmode = \"";

pub const CONFIG_AFTER_MODE: &'static str = "\"\n\n[theme]\npreset = \"";

pub const CONFIG_AFTER_THEME: &'static str = "\"\n\n[keys]\nleader = \"";

pub const CONFIG_TAIL: &'static str = "\"\n\n[keys.bindings]\nn = \"new_column_right\"\nd = \"new_row_below\"\nx = \"close_pane\"\nh = \"focus_left\"\nl = \"focus_right\"\nk = \"focus_up\"\nj = \"focus_down\"\n\"shift+h\" = \"move_pane_left\"\n\"shift+l\" = \"move_pane_right\"\n\"[\" = \"column_width_decrease\"\n\"]\" = \"column_width_increase\"\nr = \"cycle_preset_width\"\n\"shift+r\" = \"cycle_preset_width_reverse\"\nf = \"column_width_full\"\nb = \"toggle_broadcast\"\nc = \"consume_into_column\"\ne = \"expel_from_column\"\no = \"toggle_overview\"\ntab = \"toggle_overview\"\nq = \"detach\"\np = \"toggle_command_palette\"\n\n[keys.overview_bindings]\nh = \"focus_left\"\nl = \"focus_right\"\nj = \"focus_down\"\nk = \"focus_up\"\nx = \"close_pane\"\nn = \"new_column_right\"\nescape = \"exit_overview\"\nenter = \"exit_overview\"\no = \"exit_overview\"\ntab = \"exit_overview\"\n";

pub open spec fn config_text(
    mode: Seq<char>,
    leader: Seq<char>,
    theme: Seq<char>,
    statusbar_position: Seq<char>,
    shell: Seq<char>,
    font: Seq<char>,
) -> Seq<char> {
    CONFIG_HEAD@ + escape(font) + CONFIG_AFTER_FONT@ + escape(shell) + CONFIG_AFTER_SHELL@
        + statusbar_position + CONFIG_AFTER_POSITION@ + mode + CONFIG_AFTER_MODE@ + theme
        + CONFIG_AFTER_THEME@ + escape(leader) + CONFIG_TAIL@
}

/// The configuration file for the wizard's answers. Font, shell and
/// leader are escaped; mode, theme and status-bar position come from
/// fixed menus and are written as they are.
pub fn generate_config(
    mode: &str,
    leader: &str,
    theme: &str,
    statusbar_position: &str,
    shell: &str,
    font: &str,
) -> (r: String)
    ensures
        r@ == config_text(mode@, leader@, theme@, statusbar_position@, shell@, font@),
{
    let mut out: Vec<char> = Vec::new();
    append_str(&mut out, CONFIG_HEAD);
    escape_into(&mut out, font);
    append_str(&mut out, CONFIG_AFTER_FONT);
    escape_into(&mut out, shell);
    append_str(&mut out, CONFIG_AFTER_SHELL);
    append_str(&mut out, statusbar_position);
    append_str(&mut out, CONFIG_AFTER_POSITION);
    append_str(&mut out, mode);
    append_str(&mut out, CONFIG_AFTER_MODE);
    append_str(&mut out, theme);
    append_str(&mut out, CONFIG_AFTER_THEME);
    escape_into(&mut out, leader);
    append_str(&mut out, CONFIG_TAIL);
    proof {
        assert(out@ =~= config_text(mode@, leader@, theme@, statusbar_position@, shell@, font@));
    }
    string_of(&out)
}

proof fn lemma_escape_prepend(c: char, a: Seq<char>)
    ensures
        escape(seq![c] + a) == escape_char(c) + escape(a),
    decreases a.len(),
{
    if a.len() == 0 {
        assert(seq![c] + a =~= seq![c]);
        assert(seq![c].drop_last() =~= Seq::<char>::empty());
        assert(seq![c].last() == c);
        assert(escape(Seq::<char>::empty()) =~= Seq::<char>::empty());
        assert(Seq::<char>::empty() + escape_char(c) =~= escape_char(c));
        assert(escape(seq![c]) =~= escape_char(c));
        assert(escape_char(c) + escape(a) =~= escape_char(c));
    } else {
        let b = a.drop_last();
        lemma_escape_prepend(c, b);
        assert((seq![c] + a).drop_last() =~= seq![c] + b);
        assert((seq![c] + a).last() == a.last());
        assert(escape_char(c) + escape(a) =~= escape_char(c) + escape(b) + escape_char(a.last()));
    }
}

proof fn lemma_unescape_char_then(c: char, rest: Seq<char>)
    ensures
        unescape(escape_char(c) + rest) == seq![c] + unescape(rest),
{
    let e = escape_char(c) + rest;
    if c == '\\' || c == '"' || c == '\n' || c == '\r' || c == '\t' {
        assert(e.skip(2) =~= rest);
    } else {
        assert(e.drop_first() =~= rest);
    }
}

/// Reading the escaped text back gives the original string: escaping loses
/// nothing and keeps distinct strings distinct.
pub proof fn lemma_unescape_escape(s: Seq<char>)
    ensures
        unescape(escape(s)) == s,
    decreases s.len(),
{
    if s.len() > 0 {
        let t = s.drop_first();
        lemma_unescape_escape(t);
        assert(s =~= seq![s[0]] + t);
        lemma_escape_prepend(s[0], t);
        lemma_unescape_char_then(s[0], escape(t));
        assert(seq![s[0]] + t =~= s);
    }
}

/// The escaped text holds no raw newline, carriage return or tab, and every
/// quote in it is preceded by a backslash, so it cannot end the TOML string
/// or the line early.
pub proof fn lemma_escape_is_inert(s: Seq<char>)
    ensures
        forall|i: int| 0 <= i < escape(s).len() ==> #[trigger] escape(s)[i] != '\n' && escape(s)[i]
            != '\r' && escape(s)[i] != '\t',
        forall|i: int| 0 <= i < escape(s).len() && #[trigger] escape(s)[i] == '"' ==> i > 0 && escape(s)[i - 1]
            == '\\',
    decreases s.len(),
{
    if s.len() > 0 {
        let p = s.drop_last();
        lemma_escape_is_inert(p);
        let e = escape(s);
        let ep = escape(p);
        let ec = escape_char(s.last());
        assert(e == ep + ec);
        assert forall|i: int| 0 <= i < e.len() implies #[trigger] e[i] != '\n' && e[i] != '\r' && e[i] != '\t' by {
            if i < ep.len() {
                assert(e[i] == ep[i]);
            } else {
                assert(e[i] == ec[i - ep.len()]);
            }
        }
        assert forall|i: int| 0 <= i < e.len() && #[trigger] e[i] == '"' implies i > 0 && e[i - 1] == '\\' by {
            if i < ep.len() {
                assert(e[i] == ep[i]);
                assert(e[i - 1] == ep[i - 1]);
            } else {
                assert(e[i] == ec[i - ep.len()]);
                assert(i - ep.len() == 1);
                assert(e[i - 1] == ec[0]);
            }
        }
    }
}

/// The themes the wizard offers, in menu order.
pub open spec fn theme_names() -> Seq<Seq<char>> {
    seq![
        "one_dark"@,
        "catppuccin_mocha"@,
        "tokyo_night"@,
        "dracula"@,
        "nord"@,
        "gruvbox_dark"@,
    ]
}

/// The number of themes the wizard offers.
pub const THEME_COUNT: usize = 6;

/// The wizard's leader-key menu: Ctrl+W, Ctrl+A, Alt, or a key typed in.
pub open spec fn leader_choice(leader_idx: usize, custom: Seq<char>) -> Seq<char> {
    if leader_idx == 0 {
        "ctrl+w"@
    } else if leader_idx == 1 {
        "ctrl+a"@
    } else if leader_idx == 2 {
        "alt"@
    } else {
        custom
    }
}

/// A typed-in leader key is accepted unless it is blank.
pub fn leader_key_valid(input: &str) -> (r: bool)
    ensures
        r == (trim(input@).len() > 0),
{
    let v = chars_of(input);
    let t = trim_chars(&v);
    t.len() > 0
}

/// The configuration for the wizard's menu answers: keybinding style
/// (prefix or sticky), leader key, theme, status-bar position (top or
/// bottom), and the detected shell and font.
pub fn wizard_config(
    mode_idx: usize,
    leader_idx: usize,
    custom_leader: &str,
    theme_idx: usize,
    position_idx: usize,
    shell: &str,
    font: &str,
) -> (r: String)
    requires
        theme_idx < THEME_COUNT,
    ensures
        r@ == config_text(
            if mode_idx == 0 {
                "prefix"@
            } else {
                "sticky"@
            },
            leader_choice(leader_idx, custom_leader@),
            theme_names()[theme_idx as int],
            if position_idx == 0 {
                "top"@
            } else {
                "bottom"@
            },
            shell@,
            font@,
        ),
{
    let mode = if mode_idx == 0 {
        "prefix"
    } else {
        "sticky"
    };
    let leader = if leader_idx == 0 {
        "ctrl+w"
    } else if leader_idx == 1 {
        "ctrl+a"
    } else if leader_idx == 2 {
        "alt"
    } else {
        custom_leader
    };
    let theme = if theme_idx == 0 {
        "one_dark"
    } else if theme_idx == 1 {
        "catppuccin_mocha"
    } else if theme_idx == 2 {
        "tokyo_night"
    } else if theme_idx == 3 {
        "dracula"
    } else if theme_idx == 4 {
        "nord"
    } else {
        "gruvbox_dark"
    };
    let position = if position_idx == 0 {
        "top"
    } else {
        "bottom"
    };
    generate_config(mode, leader, theme, position, shell, font)
}

/// The shell written to the configuration: `$SHELL` when it is set and
/// not empty, else `/bin/sh`.
pub fn shell_from_env(shell_var: Option<&str>) -> (r: String)
    ensures
        r@ == match shell_var {
            Some(s) => if s@.len() > 0 {
                s@
            } else {
                "/bin/sh"@
            },
            None => "/bin/sh"@,
        },
{
    match shell_var {
        Some(s) => {
            let v = chars_of(s);
            if v.len() > 0 {
                string_of(&v)
            } else {
                "/bin/sh".to_owned()
            }
        },
        None => "/bin/sh".to_owned(),
    }
}

/// The font family written to the configuration: what `fc-match` printed
/// for the monospace family, trimmed, when it succeeded with something,
/// else `monospace`.
pub fn font_from_fc_match(output: Option<&str>) -> (r: String)
    ensures
        r@ == match output {
            Some(o) => if trim(o@).len() > 0 {
                trim(o@)
            } else {
                "monospace"@
            },
            None => "monospace"@,
        },
{
    match output {
        Some(o) => {
            let v = chars_of(o);
            let t = trim_chars(&v);
            if t.len() > 0 {
                string_of(&t)
            } else {
                "monospace".to_owned()
            }
        },
        None => "monospace".to_owned(),
    }
}

} // verus!
