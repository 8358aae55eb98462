//! What the control commands (`ciritty ls`, `ciritty msg ...`) make of the
//! server's replies: the table lines they print and the answers they draw
//! from a session list.

use vstd::prelude::*;
use crate::labels::{decimal, digit_char};
use crate::text::{chars_of, string_of, utf8_len};

verus! {

/// One session as the server lists it.
pub struct SessionRow {
    pub name: String,
    pub running: bool,
    pub pane_count: u64,
    pub client_count: u64,
}

/// One layout template as the server lists it.
pub struct TemplateRow {
    pub name: String,
    pub workspace_count: u64,
    pub total_panes: u64,
    pub description: Option<String>,
}

/// One pane as the server lists it.
pub struct PaneRow {
    pub pane_id: u64,
    pub cols: u16,
    pub rows: u16,
    pub title: String,
    pub is_active: bool,
    pub workspace_idx: u64,
    pub column_idx: u64,
    pub tile_idx: u64,
}

/// A session's details as the server reports them.
pub struct SessionInfo {
    pub name: String,
    pub running: bool,
    pub pane_count: u64,
    pub client_count: u64,
    pub workspace_count: u64,
    pub active_workspace: u64,
}

/// `n` spaces.
pub open spec fn spaces(n: nat) -> Seq<char> {
    Seq::new(n, |i: int| ' ')
}

/// `s` left-aligned in a column of `width` characters (`{:<width}`).
pub open spec fn pad(s: Seq<char>, width: nat) -> Seq<char> {
    if s.len() < width {
        s + spaces((width - s.len()) as nat)
    } else {
        s
    }
}

pub open spec fn lines_view(v: Seq<String>) -> Seq<Seq<char>> {
    v.map_values(|s: String| s@)
}

fn decimal_u64(n: u64) -> (r: Vec<char>)
    ensures
        r@ == decimal(n as nat),
    decreases n,
{
    let d = n % 10;
    let c = ((48 + d) as u8) as char;
    proof {
        assert(c == digit_char((n % 10) as nat));
    }
    if n < 10 {
        let mut v: Vec<char> = Vec::new();
        v.push(c);
        v
    } else {
        let mut v = decimal_u64(n / 10);
        v.push(c);
        v
    }
}

fn push_chars(out: &mut Vec<char>, s: &Vec<char>)
    ensures
        final(out)@ == old(out)@ + s@,
{
    let mut i: usize = 0;
    while i < s.len()
        invariant
            i <= s@.len(),
            out@ == old(out)@ + s@.take(i as int),
        decreases s@.len() - i,
    {
        out.push(s[i]);
        proof {
            assert(s@.take(i + 1) =~= s@.take(i as int).push(s@[i as int]));
        }
        i = i + 1;
    }
    proof {
        assert(s@.take(s@.len() as int) =~= s@);
    }
}

fn push_str(out: &mut Vec<char>, s: &str)
    ensures
        final(out)@ == old(out)@ + s@,
{
    let v = chars_of(s);
    push_chars(out, &v);
}

/// Append `s` padded to `width` characters.
fn push_padded(out: &mut Vec<char>, s: &Vec<char>, width: usize)
    ensures
        final(out)@ == old(out)@ + pad(s@, width as nat),
{
    push_chars(out, s);
    let ghost base = out@;
    if s.len() < width {
        let n = width - s.len();
        let mut i: usize = 0;
        while i < n
            invariant
                i <= n,
                out@ == base + spaces(i as nat),
            decreases n - i,
        {
            out.push(' ');
            proof {
                assert(spaces((i + 1) as nat) =~= spaces(i as nat).push(' '));
            }
            i = i + 1;
        }
    } else {
        proof {
            assert(out@ =~= base + Seq::<char>::empty());
        }
    }
    proof {
        assert(out@ =~= old(out)@ + pad(s@, width as nat));
    }
}

/// The table line of a listed session: name, status, panes, clients.
pub open spec fn session_line(s: SessionRow) -> Seq<char> {
    pad(s.name@, 20) + " "@ + pad(
        if s.running {
            "running"@
        } else {
            "saved"@
        },
        10,
    ) + " "@ + pad(decimal(s.pane_count as nat), 6) + " "@ + decimal(s.client_count as nat)
}

pub open spec fn session_header() -> Seq<char> {
    pad("NAME"@, 20) + " "@ + pad("STATUS"@, 10) + " "@ + pad("PANES"@, 6) + " CLIENTS"@
}

/// What `ciritty ls` prints for the server's session list.
pub open spec fn session_list_spec(sessions: Seq<SessionRow>) -> Seq<Seq<char>> {
    if sessions.len() == 0 {
        seq!["no sessions"@]
    } else {
        seq![session_header()] + sessions.map_values(|s: SessionRow| session_line(s))
    }
}

/// The table lines for the server's session list.
pub fn session_list_lines(sessions: &Vec<SessionRow>) -> (r: Vec<String>)
    ensures
        lines_view(r@) == session_list_spec(sessions@),
{
    let mut out: Vec<String> = Vec::new();
    if sessions.len() == 0 {
        out.push("no sessions".to_owned());
        proof {
            assert(lines_view(out@) =~= session_list_spec(sessions@));
        }
        return out;
    }
    let mut h: Vec<char> = Vec::new();
    push_padded(&mut h, &chars_of("NAME"), 20);
    push_str(&mut h, " ");
    push_padded(&mut h, &chars_of("STATUS"), 10);
    push_str(&mut h, " ");
    push_padded(&mut h, &chars_of("PANES"), 6);
    push_str(&mut h, " CLIENTS");
    proof {
        assert(h@ =~= session_header());
    }
    out.push(string_of(&h));
    let mut i: usize = 0;
    while i < sessions.len()
        invariant
            i <= sessions@.len(),
            out@.len() == i + 1,
            lines_view(out@) == session_list_spec(sessions@).take(i + 1),
        decreases sessions@.len() - i,
    {
        let s = &sessions[i];
        let mut line: Vec<char> = Vec::new();
        push_padded(&mut line, &chars_of(s.name.as_str()), 20);
        push_str(&mut line, " ");
        let status = if s.running {
            chars_of("running")
        } else {
            chars_of("saved")
        };
        push_padded(&mut line, &status, 10);
        push_str(&mut line, " ");
        push_padded(&mut line, &decimal_u64(s.pane_count), 6);
        push_str(&mut line, " ");
        push_chars(&mut line, &decimal_u64(s.client_count));
        proof {
            assert(line@ =~= session_line(sessions@[i as int]));
        }
        let l = string_of(&line);
        let ghost prev = out@;
        out.push(l);
        proof {
            assert(out@ == prev.push(l));
            assert(lines_view(out@) =~= session_list_spec(sessions@).take(i + 2));
        }
        i = i + 1;
    }
    proof {
        assert(session_list_spec(sessions@).take(sessions@.len() as int + 1) =~= session_list_spec(sessions@));
    }
    out
}

/// What `ciritty ls` prints when no server runs: the saved sessions.
pub open spec fn saved_list_spec(saved: Seq<String>) -> Seq<Seq<char>> {
    if saved.len() == 0 {
        seq!["no sessions"@]
    } else {
        seq![pad("NAME"@, 20) + " STATUS"@] + saved.map_values(|s: String| pad(s@, 20) + " saved"@)
    }
}

/// The lines listing the saved sessions when no server runs.
pub fn saved_session_lines(saved: &Vec<String>) -> (r: Vec<String>)
    ensures
        lines_view(r@) == saved_list_spec(saved@),
{
    let mut out: Vec<String> = Vec::new();
    if saved.len() == 0 {
        out.push("no sessions".to_owned());
        proof {
            assert(lines_view(out@) =~= saved_list_spec(saved@));
        }
        return out;
    }
    let mut h: Vec<char> = Vec::new();
    push_padded(&mut h, &chars_of("NAME"), 20);
    push_str(&mut h, " STATUS");
    proof {
        assert(h@ =~= pad("NAME"@, 20) + " STATUS"@);
    }
    out.push(string_of(&h));
    let mut i: usize = 0;
    while i < saved.len()
        invariant
            i <= saved@.len(),
            out@.len() == i + 1,
            lines_view(out@) == saved_list_spec(saved@).take(i + 1),
        decreases saved@.len() - i,
    {
        let mut line: Vec<char> = Vec::new();
        push_padded(&mut line, &chars_of(saved[i].as_str()), 20);
        push_str(&mut line, " saved");
        proof {
            assert(line@ =~= pad(saved@[i as int]@, 20) + " saved"@);
        }
        let l = string_of(&line);
        let ghost prev = out@;
        out.push(l);
        proof {
            assert(out@ == prev.push(l));
            assert(lines_view(out@) =~= saved_list_spec(saved@).take(i + 2));
        }
        i = i + 1;
    }
    proof {
        assert(saved_list_spec(saved@).take(saved@.len() as int + 1) =~= saved_list_spec(saved@));
    }
    out
}

/// Whether the list has a running session called `name`.
pub open spec fn running_in(sessions: Seq<SessionRow>, name: Seq<char>) -> bool {
    exists|i: int| 0 <= i < sessions.len() && #[trigger] sessions[i].running && sessions[i].name@ == name
}

/// Whether the server's session list shows `name` running.
pub fn session_running(sessions: &Vec<SessionRow>, name: &str) -> (r: bool)
    ensures
        r == running_in(sessions@, name@),
{
    let wanted = chars_of(name);
    let mut i: usize = 0;
    while i < sessions.len()
        invariant
            i <= sessions@.len(),
            wanted@ == name@,
            forall|k: int| 0 <= k < i ==> !(#[trigger] sessions@[k].running && sessions@[k].name@ == name@),
        decreases sessions@.len() - i,
    {
        if sessions[i].running {
            let n = chars_of(sessions[i].name.as_str());
            if chars_eq_vec(&n, &wanted) {
                return true;
            }
        }
        i = i + 1;
    }
    false
}

/// The names of the running sessions, in list order.
pub open spec fn running_names_upto(sessions: Seq<SessionRow>, n: int) -> Seq<Seq<char>>
    decreases n,
{
    if n <= 0 || n > sessions.len() {
        Seq::empty()
    } else {
        running_names_upto(sessions, n - 1) + if sessions[n - 1].running {
            seq![sessions[n - 1].name@]
        } else {
            Seq::empty()
        }
    }
}

/// The running sessions of the server's list (most recently used first,
/// as the server orders them).
pub fn running_session_names(sessions: &Vec<SessionRow>) -> (r: Vec<String>)
    ensures
        lines_view(r@) == running_names_upto(sessions@, sessions@.len() as int),
{
    let mut out: Vec<String> = Vec::new();
    let mut i: usize = 0;
    while i < sessions.len()
        invariant
            i <= sessions@.len(),
            lines_view(out@) == running_names_upto(sessions@, i as int),
        decreases sessions@.len() - i,
    {
        if sessions[i].running {
            let name = sessions[i].name.clone();
            let ghost prev = out@;
            out.push(name);
            proof {
                assert(out@ == prev.push(name));
                assert(lines_view(out@) =~= running_names_upto(sessions@, i + 1));
            }
        } else {
            proof {
                assert(lines_view(out@) =~= running_names_upto(sessions@, i + 1));
            }
        }
        i = i + 1;
    }
    out
}

fn chars_eq_vec(a: &Vec<char>, b: &Vec<char>) -> (r: bool)
    ensures
        r == (a@ == b@),
{
    if a.len() != b.len() {
        return false;
    }
    let mut i: usize = 0;
    while i < a.len()
        invariant
            a@.len() == b@.len(),
            i <= a@.len(),
            forall|k: int| 0 <= k < i ==> a@[k] == b@[k],
        decreases a@.len() - i,
    {
        if a[i] != b[i] {
            return false;
        }
        i = i + 1;
    }
    proof {
        assert(a@ =~= b@);
    }
    true
}

/// The table line of a listed template: name, workspaces, panes,
/// description.
pub open spec fn template_line(t: TemplateRow) -> Seq<char> {
    pad(t.name@, 20) + " "@ + pad(decimal(t.workspace_count as nat), 12) + " "@ + pad(
        decimal(t.total_panes as nat),
        6,
    ) + " "@ + match t.description {
        Some(d) => d@,
        None => Seq::empty(),
    }
}

/// What `ciritty template ls` prints for the server's template list.
pub open spec fn template_list_spec(templates: Seq<TemplateRow>) -> Seq<Seq<char>> {
    if templates.len() == 0 {
        seq!["no templates"@]
    } else {
        seq![pad("NAME"@, 20) + " "@ + pad("WORKSPACES"@, 12) + " "@ + pad("PANES"@, 6) + " DESCRIPTION"@]
            + templates.map_values(|t: TemplateRow| template_line(t))
    }
}

/// The table lines for the server's template list.
pub fn template_list_lines(templates: &Vec<TemplateRow>) -> (r: Vec<String>)
    ensures
        lines_view(r@) == template_list_spec(templates@),
{
    let mut out: Vec<String> = Vec::new();
    if templates.len() == 0 {
        out.push("no templates".to_owned());
        proof {
            assert(lines_view(out@) =~= template_list_spec(templates@));
        }
        return out;
    }
    let mut h: Vec<char> = Vec::new();
    push_padded(&mut h, &chars_of("NAME"), 20);
    push_str(&mut h, " ");
    push_padded(&mut h, &chars_of("WORKSPACES"), 12);
    push_str(&mut h, " ");
    push_padded(&mut h, &chars_of("PANES"), 6);
    push_str(&mut h, " DESCRIPTION");
    proof {
        assert(h@ =~= pad("NAME"@, 20) + " "@ + pad("WORKSPACES"@, 12) + " "@ + pad("PANES"@, 6)
            + " DESCRIPTION"@);
    }
    out.push(string_of(&h));
    let mut i: usize = 0;
    while i < templates.len()
        invariant
            i <= templates@.len(),
            out@.len() == i + 1,
            lines_view(out@) == template_list_spec(templates@).take(i + 1),
        decreases templates@.len() - i,
    {
        let t = &templates[i];
        let mut line: Vec<char> = Vec::new();
        push_padded(&mut line, &chars_of(t.name.as_str()), 20);
        push_str(&mut line, " ");
        push_padded(&mut line, &decimal_u64(t.workspace_count), 12);
        push_str(&mut line, " ");
        push_padded(&mut line, &decimal_u64(t.total_panes), 6);
        push_str(&mut line, " ");
        match &t.description {
            Some(d) => push_str(&mut line, d.as_str()),
            None => {},
        }
        proof {
            assert(line@ =~= template_line(templates@[i as int]));
        }
        let l = string_of(&line);
        let ghost prev = out@;
        out.push(l);
        proof {
            assert(out@ == prev.push(l));
            assert(lines_view(out@) =~= template_list_spec(templates@).take(i + 2));
        }
        i = i + 1;
    }
    proof {
        assert(template_list_spec(templates@).take(templates@.len() as int + 1) =~= template_list_spec(
            templates@,
        ));
    }
    out
}

/// How many leading characters of `t` make up its first `n` UTF-8 bytes
/// (the first character that would cross byte `n` excluded).
pub open spec fn chars_in_bytes(t: Seq<char>, n: nat, k: int) -> int
    decreases t.len() - k,
{
    if k < 0 || k >= t.len() || utf8_len(t.take(k + 1)) > n {
        k
    } else {
        chars_in_bytes(t, n, k + 1)
    }
}

/// A title longer than 30 bytes is cut after its 27th byte, which must
/// end a character.
pub open spec fn title_cut_ok(t: Seq<char>) -> bool {
    utf8_len(t) <= 30 || utf8_len(t.take(chars_in_bytes(t, 27, 0))) == 27
}

/// The title shown in the pane table: titles over 30 bytes cut to their
/// first 27 bytes and marked with `...`.
pub open spec fn shown_title(t: Seq<char>) -> Seq<char> {
    if utf8_len(t) > 30 {
        t.take(chars_in_bytes(t, 27, 0)) + "..."@
    } else {
        t
    }
}

/// The table line of a listed pane.
pub open spec fn pane_line(p: PaneRow) -> Seq<char> {
    pad(decimal(p.pane_id as nat), 8) + " "@ + decimal(p.cols as nat) + "x"@ + pad(decimal(p.rows as nat), 7)
        + " "@ + pad(shown_title(p.title@), 30) + " "@ + pad(
        if p.is_active {
            "*"@
        } else {
            Seq::empty()
        },
        6,
    ) + " "@ + pad(decimal(p.workspace_idx as nat), 4) + " "@ + pad(decimal(p.column_idx as nat), 4) + " "@
        + pad(decimal(p.tile_idx as nat), 4)
}

/// `p` with its active flag set to `active`.
pub open spec fn with_active(p: PaneRow, active: bool) -> PaneRow {
    PaneRow { is_active: active, ..p }
}

/// `x` and `y` have one length and agree everywhere but at `j`.
pub open spec fn agree_except(x: Seq<char>, y: Seq<char>, j: int) -> bool {
    x.len() == y.len() && forall|i: int| 0 <= i < x.len() && i != j ==> #[trigger] x[i] == y[i]
}

/// The row of an active pane and of the same pane inactive differ in one
/// character: `*` in the first, a space in the second.
#[verifier::spinoff_prover]
#[verifier::rlimit(40)]
proof fn lemma_line_marker(p: PaneRow)
    ensures
        exists|j: int|
            0 <= j < pane_line(with_active(p, true)).len() && pane_line(with_active(p, true))[j] == '*'
                && pane_line(with_active(p, false))[j] == ' ' && #[trigger] agree_except(
                pane_line(with_active(p, true)),
                pane_line(with_active(p, false)),
                j,
            ),
{
    reveal_strlit("*");
    let a = with_active(p, true);
    let b = with_active(p, false);
    let head = pad(decimal(p.pane_id as nat), 8) + " "@ + decimal(p.cols as nat) + "x"@ + pad(
        decimal(p.rows as nat),
        7,
    ) + " "@ + pad(shown_title(p.title@), 30) + " "@;
    let tail = " "@ + pad(decimal(p.workspace_idx as nat), 4) + " "@ + pad(decimal(p.column_idx as nat), 4)
        + " "@ + pad(decimal(p.tile_idx as nat), 4);
    let star = pad("*"@, 6);
    let blank = pad(Seq::<char>::empty(), 6);
    assert(star =~= seq!['*', ' ', ' ', ' ', ' ', ' ']);
    assert(blank =~= seq![' ', ' ', ' ', ' ', ' ', ' ']);
    let x = pane_line(a);
    let y = pane_line(b);
    assert(x =~= head + star + tail);
    assert(y =~= head + blank + tail);
    let j = head.len() as int;
    assert forall|i: int| 0 <= i < x.len() && i != j implies #[trigger] x[i] == y[i] by {
        if j <= i < j + 6 {
            assert(star[i - j] == blank[i - j]);
        }
    }
    assert(x[j] == '*' && y[j] == ' ');
    assert(agree_except(x, y, j));
}

/// Flipping whether a listed pane is active changes one character of the
/// table and nothing else: in that pane's row, the ACTIVE column shows `*`
/// for the active pane where it shows a space for an inactive one.
pub proof fn lemma_active_marker(panes: Seq<PaneRow>, k: int)
    requires
        0 <= k < panes.len(),
    ensures
        ({
            let on = pane_list_spec(panes.update(k, with_active(panes[k], true)));
            let off = pane_list_spec(panes.update(k, with_active(panes[k], false)));
            &&& on.len() == off.len() == panes.len() + 1
            &&& forall|m: int| 0 <= m < on.len() && m != k + 1 ==> on[m] == off[m]
            &&& exists|j: int|
                0 <= j < on[k + 1].len() && on[k + 1][j] == '*' && off[k + 1][j] == ' ' && #[trigger] agree_except(
                    on[k + 1],
                    off[k + 1],
                    j,
                )
        }),
{
    let a = with_active(panes[k], true);
    let b = with_active(panes[k], false);
    let pa = panes.update(k, a);
    let pb = panes.update(k, b);
    let on = pane_list_spec(pa);
    let off = pane_list_spec(pb);
    assert forall|m: int| 0 <= m < on.len() && m != k + 1 implies on[m] == off[m] by {
        if m > 0 {
            assert(pa[m - 1] == pb[m - 1]);
        }
    }
    assert(on[k + 1] == pane_line(a));
    assert(off[k + 1] == pane_line(b));
    lemma_line_marker(panes[k]);
}

pub open spec fn pane_header() -> Seq<char> {
    pad("ID"@, 8) + " "@ + pad("SIZE"@, 10) + " "@ + pad("TITLE"@, 30) + " "@ + pad("ACTIVE"@, 6) + " "@
        + pad("WS"@, 4) + " "@ + pad("COL"@, 4) + " "@ + pad("TILE"@, 4)
}

/// What `ciritty msg list-panes` prints for the server's pane list.
pub open spec fn pane_list_spec(panes: Seq<PaneRow>) -> Seq<Seq<char>> {
    if panes.len() == 0 {
        seq!["no panes"@]
    } else {
        seq![pane_header()] + panes.map_values(|p: PaneRow| pane_line(p))
    }
}

fn title_for_table(title: &str) -> (r: Vec<char>)
    requires
        title_cut_ok(title@),
    ensures
        r@ == shown_title(title@),
{
    let t = chars_of(title);
    let total = byte_len_u128(&t);
    if total <= 30 {
        return t;
    }
    let mut k: usize = 0;
    let mut bytes: u128 = 0;
    proof {
        assert(t@.take(0) =~= Seq::<char>::empty());
    }
    while k < t.len() && bytes + char_bytes(t[k]) <= 27
        invariant
            k <= t@.len(),
            bytes == utf8_len(t@.take(k as int)),
            bytes <= 27,
            chars_in_bytes(t@, 27, k as int) == chars_in_bytes(t@, 27, 0),
        decreases t@.len() - k,
    {
        proof {
            assert(t@.take(k + 1).drop_last() =~= t@.take(k as int));
        }
        bytes = bytes + char_bytes(t[k]);
        k = k + 1;
    }
    proof {
        if k < t@.len() {
            assert(t@.take(k + 1).drop_last() =~= t@.take(k as int));
        }
    }
    let mut out: Vec<char> = Vec::new();
    let mut i: usize = 0;
    while i < k
        invariant
            i <= k <= t@.len(),
            out@ == t@.take(i as int),
        decreases k - i,
    {
        out.push(t[i]);
        proof {
            assert(t@.take(i + 1) =~= t@.take(i as int).push(t@[i as int]));
        }
        i = i + 1;
    }
    push_str(&mut out, "...");
    out
}

fn char_bytes(c: char) -> (r: u128)
    ensures
        r == crate::text::char_utf8_len(c),
        r <= 4,
{
    if (c as u32) < 0x80 {
        1
    } else if (c as u32) < 0x800 {
        2
    } else if (c as u32) < 0x10000 {
        3
    } else {
        4
    }
}

fn byte_len_u128(s: &Vec<char>) -> (n: u128)
    ensures
        n == utf8_len(s@),
{
    let mut n: u128 = 0;
    let mut i: usize = 0;
    while i < s.len()
        invariant
            i <= s@.len(),
            n == utf8_len(s@.take(i as int)),
            n <= 4 * i,
        decreases s@.len() - i,
    {
        proof {
            assert(s@.take(i + 1).drop_last() =~= s@.take(i as int));
        }
        n = n + char_bytes(s[i]);
        i = i + 1;
    }
    proof {
        assert(s@.take(s@.len() as int) =~= s@);
    }
    n
}

/// The table lines for the server's pane list.
pub fn pane_list_lines(panes: &Vec<PaneRow>) -> (r: Vec<String>)
    requires
        forall|k: int| 0 <= k < panes@.len() ==> title_cut_ok(#[trigger] panes@[k].title@),
    ensures
        lines_view(r@) == pane_list_spec(panes@),
{
    let mut out: Vec<String> = Vec::new();
    if panes.len() == 0 {
        out.push("no panes".to_owned());
        proof {
            assert(lines_view(out@) =~= pane_list_spec(panes@));
        }
        return out;
    }
    let mut h: Vec<char> = Vec::new();
    push_padded(&mut h, &chars_of("ID"), 8);
    push_str(&mut h, " ");
    push_padded(&mut h, &chars_of("SIZE"), 10);
    push_str(&mut h, " ");
    push_padded(&mut h, &chars_of("TITLE"), 30);
    push_str(&mut h, " ");
    push_padded(&mut h, &chars_of("ACTIVE"), 6);
    push_str(&mut h, " ");
    push_padded(&mut h, &chars_of("WS"), 4);
    push_str(&mut h, " ");
    push_padded(&mut h, &chars_of("COL"), 4);
    push_str(&mut h, " ");
    push_padded(&mut h, &chars_of("TILE"), 4);
    proof {
        assert(h@ =~= pane_header());
    }
    out.push(string_of(&h));
    let mut i: usize = 0;
    while i < panes.len()
        invariant
            i <= panes@.len(),
            out@.len() == i + 1,
            forall|k: int| 0 <= k < panes@.len() ==> title_cut_ok(#[trigger] panes@[k].title@),
            lines_view(out@) == pane_list_spec(panes@).take(i + 1),
        decreases panes@.len() - i,
    {
        let p = &panes[i];
        proof {
            assert(title_cut_ok(panes@[i as int].title@));
        }
        let mut line: Vec<char> = Vec::new();
        push_padded(&mut line, &decimal_u64(p.pane_id), 8);
        push_str(&mut line, " ");
        push_chars(&mut line, &decimal_u64(p.cols as u64));
        push_str(&mut line, "x");
        push_padded(&mut line, &decimal_u64(p.rows as u64), 7);
        push_str(&mut line, " ");
        push_padded(&mut line, &title_for_table(p.title.as_str()), 30);
        push_str(&mut line, " ");
        let active = if p.is_active {
            chars_of("*")
        } else {
            Vec::new()
        };
        push_padded(&mut line, &active, 6);
        push_str(&mut line, " ");
        push_padded(&mut line, &decimal_u64(p.workspace_idx), 4);
        push_str(&mut line, " ");
        push_padded(&mut line, &decimal_u64(p.column_idx), 4);
        push_str(&mut line, " ");
        push_padded(&mut line, &decimal_u64(p.tile_idx), 4);
        proof {
            assert(line@ =~= pane_line(panes@[i as int]));
        }
        let l = string_of(&line);
        let ghost prev = out@;
        out.push(l);
        proof {
            assert(out@ == prev.push(l));
            assert(lines_view(out@) =~= pane_list_spec(panes@).take(i + 2));
        }
        i = i + 1;
    }
    proof {
        assert(pane_list_spec(panes@).take(panes@.len() as int + 1) =~= pane_list_spec(panes@));
    }
    out
}

/// What `ciritty msg info` prints for a session's details.
pub open spec fn session_info_spec(info: SessionInfo) -> Seq<Seq<char>> {
    seq![
        "Session: "@ + info.name@,
        "  Status:           "@ + if info.running {
            "running"@
        } else {
            "stopped"@
        },
        "  Panes:            "@ + decimal(info.pane_count as nat),
        "  Clients:          "@ + decimal(info.client_count as nat),
        "  Workspaces:       "@ + decimal(info.workspace_count as nat),
        "  Active workspace: "@ + decimal(info.active_workspace as nat),
    ]
}

fn labelled(label: &str, value: &Vec<char>) -> (r: String)
    ensures
        r@ == label@ + value@,
{
    let mut v = chars_of(label);
    push_chars(&mut v, value);
    string_of(&v)
}

/// The lines describing a session.
pub fn session_info_lines(info: &SessionInfo) -> (r: Vec<String>)
    ensures
        lines_view(r@) == session_info_spec(*info),
{
    let status = if info.running {
        chars_of("running")
    } else {
        chars_of("stopped")
    };
    let out = vec![
        labelled("Session: ", &chars_of(info.name.as_str())),
        labelled("  Status:           ", &status),
        labelled("  Panes:            ", &decimal_u64(info.pane_count)),
        labelled("  Clients:          ", &decimal_u64(info.client_count)),
        labelled("  Workspaces:       ", &decimal_u64(info.workspace_count)),
        labelled("  Active workspace: ", &decimal_u64(info.active_workspace)),
    ];
    proof {
        assert(lines_view(out@) =~= session_info_spec(*info));
    }
    out
}

/// What a command's result prints: on success the message (with the new
/// pane's id where there is one) on standard output; on failure
/// `error: ` and the message on standard error, and the command fails.
pub open spec fn command_result_spec(success: bool, message: Seq<char>, pane_id: Option<u64>) -> Result<Seq<char>, Seq<char>> {
    if success {
        Ok(
            match pane_id {
                Some(id) => message + " (pane "@ + decimal(id as nat) + ")"@,
                None => message,
            },
        )
    } else {
        Err("error: "@ + message)
    }
}

pub fn command_result_line(success: bool, message: &str, pane_id: Option<u64>) -> (r: Result<String, String>)
    ensures
        match r {
            Ok(l) => command_result_spec(success, message@, pane_id) == Ok::<Seq<char>, Seq<char>>(l@),
            Err(l) => command_result_spec(success, message@, pane_id) == Err::<Seq<char>, Seq<char>>(l@),
        },
{
    let m = chars_of(message);
    if success {
        match pane_id {
            Some(id) => {
                let mut v = m;
                push_str(&mut v, " (pane ");
                push_chars(&mut v, &decimal_u64(id));
                push_str(&mut v, ")");
                Ok(string_of(&v))
            },
            None => Ok(string_of(&m)),
        }
    } else {
        Err(labelled("error: ", &m))
    }
}

/// The line confirming a server action.
pub enum Confirmation {
    SessionKilled(String),
    ServerShutdown,
    TemplateSaved(String),
    TemplateApplied(String),
}

pub open spec fn confirmation_spec(c: Confirmation) -> Seq<char> {
    match c {
        Confirmation::SessionKilled(s) => "killed session '"@ + s@ + "'"@,
        Confirmation::ServerShutdown => "server shutting down"@,
        Confirmation::TemplateSaved(t) => "saved template '"@ + t@ + "'"@,
        Confirmation::TemplateApplied(s) => "applied template to session '"@ + s@ + "'"@,
    }
}

pub fn confirmation_line(c: &Confirmation) -> (r: String)
    ensures
        r@ == confirmation_spec(*c),
{
    match c {
        Confirmation::SessionKilled(s) => {
            let mut v = chars_of("killed session '");
            push_str(&mut v, s.as_str());
            push_str(&mut v, "'");
            string_of(&v)
        },
        Confirmation::ServerShutdown => "server shutting down".to_owned(),
        Confirmation::TemplateSaved(t) => {
            let mut v = chars_of("saved template '");
            push_str(&mut v, t.as_str());
            push_str(&mut v, "'");
            string_of(&v)
        },
        Confirmation::TemplateApplied(s) => {
            let mut v = chars_of("applied template to session '");
            push_str(&mut v, s.as_str());
            push_str(&mut v, "'");
            string_of(&v)
        },
    }
}

} // verus!
