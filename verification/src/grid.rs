//! Client-side pane grid: scrollback history plus the live viewport, the
//! scroll position over them, per-row dirty tracking, and the text
//! queries (word and link under the pointer, selection text, search).

use std::collections::VecDeque;
use vstd::prelude::*;
use crate::text::{chars_of, is_ws, string_of, trim_end, trim_end_chars};

verus! {

/// Cell flag: the cell is the second half of a double-width character.
pub const FLAG_WIDE_CHAR_SPACER: u16 = 0x0100;
/// Pane mode flag: the alternate screen is active.
pub const MODE_ALT_SCREEN: u8 = 0x01;
/// Pane mode flag: the shell reports prompt boundaries (OSC 133).
pub const MODE_SHELL_INTEGRATION: u8 = 0x10;
/// Pane mode flag: the kitty keyboard protocol is active.
pub const MODE_KITTY_KEYBOARD: u8 = 0x20;
pub const CURSOR_BLOCK: u8 = 0;
pub const CURSOR_UNDERLINE: u8 = 1;
pub const CURSOR_BEAM: u8 = 2;

/// One terminal cell: its character and attribute flags.
#[derive(Debug, Clone, Copy, PartialEq, Eq, Structural)]
pub struct PackedCell {
    pub ch: char,
    pub flags: u16,
}

pub open spec fn blank_cell() -> PackedCell {
    PackedCell { ch: ' ', flags: 0 }
}

pub open spec fn is_spacer(c: PackedCell) -> bool {
    c.flags & FLAG_WIDE_CHAR_SPACER != 0
}

impl PackedCell {
    /// A blank cell (a space, no flags).
    pub fn blank() -> (r: PackedCell)
        ensures
            r == blank_cell(),
    {
        PackedCell { ch: ' ', flags: 0 }
    }

    pub fn with_ch(ch: char) -> (r: PackedCell)
        ensures
            r == (PackedCell { ch, flags: 0 }),
    {
        PackedCell { ch, flags: 0 }
    }

    pub fn ch(&self) -> (r: char)
        ensures
            r == self.ch,
    {
        self.ch
    }

    pub fn flags_u16(&self) -> (r: u16)
        ensures
            r == self.flags,
    {
        self.flags
    }
}

impl Default for PackedCell {
    fn default() -> (r: PackedCell)
        ensures
            r == blank_cell(),
    {
        PackedCell { ch: ' ', flags: 0 }
    }
}

/// A full snapshot of a pane sent by the server.
pub struct FullPaneSync {
    pub pane_id: u64,
    pub generation: u64,
    pub cols: u16,
    pub rows: u16,
    pub cursor_line: i16,
    pub cursor_col: u16,
    pub cursor_shape: u8,
    pub mode_flags: u8,
    pub title: String,
    /// New history rows since the last sync, oldest first, `cols` cells each.
    pub scrollback: Vec<PackedCell>,
    pub scrollback_rows: u32,
    /// The live viewport, row-major.
    pub cells: Vec<PackedCell>,
    /// Full grapheme text of cells that hold more than one code point,
    /// keyed by cell index.
    pub graphemes: Vec<(u32, String)>,
}

/// A run of changed cells on one viewport line.
pub struct DamageRegion {
    pub line: u16,
    pub left: u16,
    pub right: u16,
    pub cells: Vec<PackedCell>,
}

/// An incremental update of the live viewport.
pub struct CellDelta {
    pub pane_id: u64,
    pub generation: u64,
    pub cursor_line: i16,
    pub cursor_col: u16,
    pub cursor_shape: u8,
    pub mode_flags: u8,
    pub regions: Vec<DamageRegion>,
}

pub struct ClientPaneGrid {
    pub cols: u16,
    pub rows: u16,
    /// History rows, oldest first.
    pub scrollback: VecDeque<Vec<PackedCell>>,
    /// The live viewport, `rows * cols` cells, row-major.
    pub viewport: Vec<PackedCell>,
    pub max_scrollback: usize,
    /// 0 = live (showing bottom), > 0 = scrolled up that many lines.
    pub scroll_offset: usize,
    pub cursor_line: i16,
    pub cursor_col: u16,
    pub cursor_shape: u8,
    pub mode_flags: u8,
    pub title: String,
    /// The whole pane needs a rebuild.
    pub dirty: bool,
    /// Per-row dirty flags for incremental updates.
    pub dirty_rows: Vec<bool>,
    pub graphemes: Vec<(u32, String)>,
    /// Number of `true` entries of `dirty_rows`.
    pub dirty_row_count: usize,
    pub has_shell_integration: bool,
    pub has_kitty_keyboard: bool,
}

pub open spec fn count_true(s: Seq<bool>) -> nat
    decreases s.len(),
{
    if s.len() == 0 {
        0
    } else {
        count_true(s.drop_last()) + if s.last() {
            1nat
        } else {
            0nat
        }
    }
}

proof fn lemma_count_true_bound(s: Seq<bool>)
    ensures
        count_true(s) <= s.len(),
    decreases s.len(),
{
    if s.len() > 0 {
        lemma_count_true_bound(s.drop_last());
    }
}

proof fn lemma_count_true_zero(s: Seq<bool>)
    ensures
        (count_true(s) == 0) == (forall|i: int| 0 <= i < s.len() ==> !s[i]),
    decreases s.len(),
{
    if s.len() > 0 {
        lemma_count_true_zero(s.drop_last());
        if count_true(s.drop_last()) != 0 {
            let i = choose|i: int| 0 <= i < s.drop_last().len() && s.drop_last()[i];
            assert(s[i]);
        }
        assert forall|i: int| 0 <= i < s.len() - 1 implies s.drop_last()[i] == s[i] by {}
    }
}

proof fn lemma_count_true_update(s: Seq<bool>, i: int)
    requires
        0 <= i < s.len(),
        !s[i],
    ensures
        count_true(s.update(i, true)) == count_true(s) + 1,
    decreases s.len(),
{
    let t = s.update(i, true);
    if i == s.len() - 1 {
        assert(t.drop_last() =~= s.drop_last());
    } else {
        assert(t.drop_last() =~= s.drop_last().update(i, true));
        lemma_count_true_update(s.drop_last(), i);
    }
}

pub open spec fn all_false(n: nat) -> Seq<bool> {
    Seq::new(n, |i: int| false)
}

proof fn lemma_count_all_false(n: nat)
    ensures
        count_true(all_false(n)) == 0,
{
    lemma_count_true_zero(all_false(n));
}

/// Scroll position after scrolling up `lines` from `off`, at most `max`.
pub open spec fn scroll_up_spec(off: nat, max: nat, lines: nat) -> nat {
    if off + lines < max {
        off + lines
    } else {
        max
    }
}

/// Scroll position after scrolling down `lines` from `off`.
pub open spec fn scroll_down_spec(off: nat, lines: nat) -> nat {
    if off >= lines {
        (off - lines) as nat
    } else {
        0
    }
}

/// Scrolling down by the number of lines a scroll up reported returns to
/// the position before it.
pub proof fn lemma_scroll_up_then_down(off: nat, max: nat, lines: nat)
    requires
        off <= max,
    ensures
        scroll_down_spec(scroll_up_spec(off, max, lines), (scroll_up_spec(off, max, lines) - off) as nat)
            == off,
        off <= scroll_up_spec(off, max, lines) <= max,
{
}

/// Scrolling up by the number of lines a scroll down reported returns to
/// the position before it.
pub proof fn lemma_scroll_down_then_up(off: nat, max: nat, lines: nat)
    requires
        off <= max,
    ensures
        scroll_up_spec(scroll_down_spec(off, lines), max, (off - scroll_down_spec(off, lines)) as nat)
            == off,
        scroll_down_spec(off, lines) <= off,
{
}

/// The rows a full sync adds to the history: `rows` rows of `cols` cells
/// taken from `cells`, the last one cut short when `cells` runs out.
pub open spec fn sync_rows(cells: Seq<PackedCell>, rows: nat, cols: nat) -> Seq<Seq<PackedCell>>
    decreases rows,
{
    if rows == 0 || cols == 0 || cells.len() == 0 {
        Seq::empty()
    } else {
        let w = if cols < cells.len() {
            cols as int
        } else {
            cells.len() as int
        };
        seq![cells.take(w)] + sync_rows(cells.skip(w), (rows - 1) as nat, cols)
    }
}

/// `rows` cut to its last `max` entries.
pub open spec fn keep_last<T>(rows: Seq<T>, max: nat) -> Seq<T> {
    if rows.len() > max {
        rows.skip(rows.len() - max)
    } else {
        rows
    }
}

/// The viewport a full sync installs: the sync's cells, padded with blanks.
pub open spec fn synced_viewport(cells: Seq<PackedCell>, n: nat) -> Seq<PackedCell> {
    Seq::new(n, |i: int| if i < cells.len() { cells[i] } else { blank_cell() })
}

impl ClientPaneGrid {
    /// The history rows, oldest first.
    pub open spec fn history(&self) -> Seq<Seq<PackedCell>> {
        rows_view(self.scrollback@)
    }

    pub open spec fn max_history(&self) -> nat {
        self.max_scrollback as nat
    }

    /// The grid's own consistency: the viewport holds `rows * cols` cells,
    /// there is one dirty flag per row and the dirty count matches them,
    /// the history respects its limit, and the scroll position stays
    /// inside the history.
    pub open spec fn wf(&self) -> bool {
        &&& self.viewport@.len() == self.cols as nat * self.rows as nat
        &&& self.dirty_rows@.len() == self.rows as nat
        &&& self.dirty_row_count as nat == count_true(self.dirty_rows@)
        &&& self.scrollback@.len() <= self.max_scrollback
        &&& self.max_scrollback + 65535 <= usize::MAX
        &&& self.scroll_offset <= self.scrollback@.len()
    }

    /// Row `r` of the whole buffer (0 = oldest history row); empty past
    /// the end.
    pub open spec fn row_spec(&self, r: int) -> Seq<PackedCell> {
        let sb = self.history().len();
        if 0 <= r < sb {
            self.history()[r]
        } else {
            let v = r - sb;
            let c = self.cols as int;
            if 0 <= v && (v + 1) * c <= self.viewport@.len() {
                self.viewport@.subrange(v * c, (v + 1) * c)
            } else {
                Seq::empty()
            }
        }
    }

    /// Buffer row shown at the top of the screen.
    pub open spec fn top_spec(&self) -> nat {
        if self.history().len() >= self.scroll_offset {
            (self.history().len() - self.scroll_offset) as nat
        } else {
            0
        }
    }

    pub fn new(cols: u16, rows: u16, max_scrollback: usize) -> (r: Self)
        requires
            max_scrollback + 65535 <= usize::MAX,
        ensures
            r.wf(),
            r.cols == cols,
            r.rows == rows,
            r.max_history() == max_scrollback,
            r.history().len() == 0,
            r.viewport@ == Seq::new(cols as nat * rows as nat, |i: int| blank_cell()),
            r.scroll_offset == 0,
            r.cursor_line == 0,
            r.cursor_col == 0,
            r.cursor_shape == CURSOR_BLOCK,
            r.mode_flags == 0,
            r.title@.len() == 0,
            r.dirty,
            r.dirty_rows@ == all_false(rows as nat),
            r.graphemes@.len() == 0,
            !r.has_shell_integration,
            !r.has_kitty_keyboard,
    {
        let n = cell_count(cols, rows);
        let viewport = blank_cells(n);
        let dirty_rows = false_flags(rows as usize);
        proof {
            lemma_count_all_false(rows as nat);
        }
        ClientPaneGrid {
            cols,
            rows,
            scrollback: VecDeque::new(),
            viewport,
            max_scrollback,
            scroll_offset: 0,
            cursor_line: 0,
            cursor_col: 0,
            cursor_shape: CURSOR_BLOCK,
            mode_flags: 0,
            title: String::new(),
            dirty: true,
            dirty_rows,
            graphemes: Vec::new(),
            dirty_row_count: 0,
            has_shell_integration: false,
            has_kitty_keyboard: false,
        }
    }

    /// Number of history rows.
    pub fn scrollback_len(&self) -> (r: usize)
        ensures
            r == self.history().len(),
    {
        self.scrollback.len()
    }

    /// Row `buf_row` of the whole buffer (0 = oldest history row); empty
    /// past the end.
    pub fn row(&self, buf_row: usize) -> (r: Vec<PackedCell>)
        requires
            self.wf(),
        ensures
            r@ == self.row_spec(buf_row as int),
    {
        let sb_len = self.scrollback.len();
        if buf_row < sb_len {
            let r = copy_cells(&self.scrollback[buf_row], 0, self.scrollback[buf_row].len());
            proof {
                assert(r@ =~= self.scrollback@[buf_row as int]@);
            }
            r
        } else {
            let vp_line = buf_row - sb_len;
            let cols = self.cols as usize;
            let vlen = self.viewport.len();
            if cols == 0 {
                proof {
                    assert(self.viewport@.subrange(vp_line * 0, (vp_line + 1) * 0).len() == 0);
                }
                return Vec::new();
            }
            if vp_line < vlen / cols {
                proof {
                    assert(vp_line + 1 <= vlen / cols);
                    assert((vp_line + 1) * cols <= vlen) by (nonlinear_arith)
                        requires
                            vp_line + 1 <= vlen / cols,
                            cols > 0,
                    ;
                    assert(vp_line * cols + cols == (vp_line + 1) * cols) by (nonlinear_arith);
                }
                let start = vp_line * cols;
                copy_cells(&self.viewport, start, start + cols)
            } else {
                proof {
                    assert((vp_line + 1) * cols > vlen) by (nonlinear_arith)
                        requires
                            vp_line >= vlen / cols,
                            cols > 0,
                    ;
                }
                Vec::new()
            }
        }
    }

    /// Total number of lines in the buffer (history + viewport).
    pub fn total_lines(&self) -> (r: usize)
        requires
            self.wf(),
        ensures
            r == self.history().len() + self.rows,
    {
        self.scrollback.len() + self.rows as usize
    }

    /// Total number of rows in the buffer (history + viewport).
    pub fn buffer_len(&self) -> (r: usize)
        requires
            self.wf(),
        ensures
            r == self.history().len() + self.rows,
    {
        self.scrollback.len() + self.rows as usize
    }

    /// True if any content changed (full rebuild or some row).
    pub fn is_dirty(&self) -> (r: bool)
        requires
            self.wf(),
        ensures
            r == (self.dirty || exists|i: int| 0 <= i < self.dirty_rows@.len() && self.dirty_rows@[i]),
    {
        proof {
            lemma_count_true_zero(self.dirty_rows@);
        }
        self.dirty || self.dirty_row_count > 0
    }

    /// Mark viewport line `line` dirty (idempotent).
    fn mark_row_dirty(&mut self, line: usize)
        requires
            old(self).wf(),
        ensures
            final(self).wf(),
            final(self).dirty_rows@ == if line < old(self).dirty_rows@.len() {
                old(self).dirty_rows@.update(line as int, true)
            } else {
                old(self).dirty_rows@
            },
            final(self).viewport == old(self).viewport,
            final(self).scrollback == old(self).scrollback,
            final(self).cols == old(self).cols,
            final(self).rows == old(self).rows,
            final(self).max_scrollback == old(self).max_scrollback,
            final(self).scroll_offset == old(self).scroll_offset,
            final(self).dirty == old(self).dirty,
            final(self).cursor_line == old(self).cursor_line,
            final(self).cursor_col == old(self).cursor_col,
            final(self).cursor_shape == old(self).cursor_shape,
            final(self).mode_flags == old(self).mode_flags,
            final(self).title == old(self).title,
            final(self).graphemes == old(self).graphemes,
            final(self).has_shell_integration == old(self).has_shell_integration,
            final(self).has_kitty_keyboard == old(self).has_kitty_keyboard,
    {
        if line < self.dirty_rows.len() && !self.dirty_rows[line] {
            proof {
                lemma_count_true_update(self.dirty_rows@, line as int);
                lemma_count_true_bound(self.dirty_rows@.update(line as int, true));
            }
            self.dirty_rows.set(line, true);
            self.dirty_row_count = self.dirty_row_count + 1;
        } else {
            proof {
                if line < self.dirty_rows@.len() {
                    assert(self.dirty_rows@.update(line as int, true) =~= self.dirty_rows@);
                }
            }
        }
    }

    /// Swap out the dirty-row flags, leaving all rows clean.
    pub fn take_dirty_rows(&mut self) -> (r: Vec<bool>)
        requires
            old(self).wf(),
        ensures
            final(self).wf(),
            r@ == old(self).dirty_rows@,
            final(self).dirty_rows@ == all_false(old(self).rows as nat),
            final(self).dirty == old(self).dirty,
            final(self).viewport == old(self).viewport,
            final(self).history() == old(self).history(),
            final(self).scroll_offset == old(self).scroll_offset,
    {
        let mut taken = false_flags(self.dirty_rows.len());
        std::mem::swap(&mut taken, &mut self.dirty_rows);
        self.dirty_row_count = 0;
        proof {
            lemma_count_all_false(old(self).rows as nat);
        }
        taken
    }

    /// Clear all dirty flags after rendering.
    pub fn clear_dirty(&mut self)
        requires
            old(self).wf(),
        ensures
            final(self).wf(),
            !final(self).dirty,
            final(self).dirty_rows@ == all_false(old(self).rows as nat),
            final(self).viewport == old(self).viewport,
            final(self).history() == old(self).history(),
            final(self).scroll_offset == old(self).scroll_offset,
    {
        self.dirty = false;
        if self.dirty_row_count > 0 {
            let n = self.dirty_rows.len();
            self.dirty_rows = false_flags(n);
            self.dirty_row_count = 0;
            proof {
                lemma_count_all_false(n as nat);
            }
        } else {
            proof {
                lemma_count_true_zero(self.dirty_rows@);
                assert(self.dirty_rows@ =~= all_false(self.rows as nat));
            }
        }
    }

    /// How far up the user can scroll.
    pub fn max_scroll_offset(&self) -> (r: usize)
        ensures
            r == self.history().len(),
    {
        self.scrollback.len()
    }

    /// Buffer row shown at the top of the screen.
    pub fn viewport_top(&self) -> (r: usize)
        ensures
            r == self.top_spec(),
    {
        let sb = self.scrollback.len();
        if sb >= self.scroll_offset {
            sb - self.scroll_offset
        } else {
            0
        }
    }

    /// Apply a full snapshot from the server: resize (keeping history) if
    /// the dimensions changed, append the new history rows, install the
    /// viewport, trim the history to its limit and clamp the scroll
    /// position.
    pub fn apply_full_sync(&mut self, sync: &FullPaneSync)
        requires
            old(self).wf(),
        ensures
            final(self).wf(),
            final(self).cols == sync.cols,
            final(self).rows == sync.rows,
            final(self).history() == keep_last(
                old(self).history() + sync_rows(
                    sync.scrollback@,
                    sync.scrollback_rows as nat,
                    sync.cols as nat,
                ),
                old(self).max_history(),
            ),
            final(self).max_history() == old(self).max_history(),
            final(self).viewport@ == synced_viewport(sync.cells@, sync.cols as nat * sync.rows as nat),
            final(self).scroll_offset == if sync.cols != old(self).cols || sync.rows != old(self).rows {
                0
            } else if old(self).scroll_offset <= final(self).history().len() {
                old(self).scroll_offset as nat
            } else {
                final(self).history().len()
            },
            final(self).dirty_rows@ == if sync.cols != old(self).cols || sync.rows != old(self).rows {
                all_false(sync.rows as nat)
            } else {
                old(self).dirty_rows@
            },
            final(self).cursor_line == sync.cursor_line,
            final(self).cursor_col == sync.cursor_col,
            final(self).cursor_shape == sync.cursor_shape,
            final(self).mode_flags == sync.mode_flags,
            final(self).has_shell_integration == (sync.mode_flags & MODE_SHELL_INTEGRATION != 0),
            final(self).has_kitty_keyboard == (sync.mode_flags & MODE_KITTY_KEYBOARD != 0),
            final(self).title@ == sync.title@,
            final(self).graphemes@.len() == sync.graphemes@.len(),
            forall|i: int|
                0 <= i < sync.graphemes@.len() ==> (#[trigger] final(self).graphemes@[i]).0
                    == sync.graphemes@[i].0 && final(self).graphemes@[i].1@ == sync.graphemes@[i].1@,
            final(self).dirty,
    {
        let new_cols = sync.cols as usize;
        let new_rows = sync.rows as usize;
        let ghost old_history = self.history();
        if sync.cols != self.cols || sync.rows != self.rows {
            self.cols = sync.cols;
            self.rows = sync.rows;
            self.viewport = blank_cells(cell_count(sync.cols, sync.rows));
            self.dirty_rows = false_flags(new_rows);
            self.dirty_row_count = 0;
            self.scroll_offset = 0;
            proof {
                lemma_count_all_false(new_rows as nat);
            }
        }
        // New history rows, oldest first.
        let mut sb: VecDeque<Vec<PackedCell>> = VecDeque::new();
        std::mem::swap(&mut sb, &mut self.scrollback);
        let sb_rows = sync.scrollback_rows as usize;
        let len = sync.scrollback.len();
        let ghost all_rows = sync_rows(sync.scrollback@, sb_rows as nat, new_cols as nat);
        let mut start: usize = 0;
        let mut r: usize = 0;
        proof {
            assert(sync.scrollback@.skip(0) =~= sync.scrollback@);
            assert(rows_view(sb@) =~= old_history + Seq::<Seq<PackedCell>>::empty());
        }
        while r < sb_rows && new_cols > 0 && start < len
            invariant
                start <= len == sync.scrollback@.len(),
                r <= sb_rows,
                new_cols == sync.cols,
                all_rows == sync_rows(sync.scrollback@, sb_rows as nat, new_cols as nat),
                exists|pushed: Seq<Seq<PackedCell>>|
                    #![trigger pushed.len()]
                    rows_view(sb@) == old_history + pushed && pushed + sync_rows(
                        sync.scrollback@.skip(start as int),
                        (sb_rows - r) as nat,
                        new_cols as nat,
                    ) == all_rows,
            decreases sb_rows - r,
        {
            let end = if len - start < new_cols {
                len
            } else {
                start + new_cols
            };
            let row = copy_cells(&sync.scrollback, start, end);
            let ghost t = sync.scrollback@.skip(start as int);
            let ghost pushed = choose|pushed: Seq<Seq<PackedCell>>|
                #![trigger pushed.len()]
                rows_view(sb@) == old_history + pushed && pushed + sync_rows(
                    t,
                    (sb_rows - r) as nat,
                    new_cols as nat,
                ) == all_rows;
            let ghost hist_before = rows_view(sb@);
            let ghost row_v = row@;
            sb.push_back(row);
            proof {
                let w = (end - start) as int;
                assert(t.take(w) =~= row_v);
                assert(t.skip(w) =~= sync.scrollback@.skip(end as int));
                assert(sync_rows(t, (sb_rows - r) as nat, new_cols as nat) == seq![t.take(w)] + sync_rows(
                    t.skip(w),
                    (sb_rows - r - 1) as nat,
                    new_cols as nat,
                ));
                let np = pushed.push(row_v);
                assert(rows_view(sb@) =~= hist_before.push(row_v));
                assert(rows_view(sb@) =~= old_history + np);
                assert(np + sync_rows(
                    sync.scrollback@.skip(end as int),
                    (sb_rows - (r + 1)) as nat,
                    new_cols as nat,
                ) =~= all_rows);
            }
            start = end;
            r = r + 1;
        }
        proof {
            let pushed = choose|pushed: Seq<Seq<PackedCell>>|
                #![trigger pushed.len()]
                rows_view(sb@) == old_history + pushed && pushed + sync_rows(
                    sync.scrollback@.skip(start as int),
                    (sb_rows - r) as nat,
                    new_cols as nat,
                ) == all_rows;
            assert(sync_rows(sync.scrollback@.skip(start as int), (sb_rows - r) as nat, new_cols as nat)
                =~= Seq::<Seq<PackedCell>>::empty());
            assert(pushed =~= all_rows);
            assert(rows_view(sb@) =~= old_history + all_rows);
        }
        // Trim the history to its limit.
        let max = self.max_scrollback;
        let ghost full = rows_view(sb@);
        while sb.len() > max
            invariant
                full.len() >= sb@.len(),
                rows_view(sb@) == full.skip(full.len() - sb@.len()),
                sb@.len() >= max || sb@.len() == full.len(),
            decreases sb@.len(),
        {
            let ghost before = rows_view(sb@);
            sb.pop_front();
            proof {
                assert(rows_view(sb@) =~= before.skip(1));
                assert(rows_view(sb@) =~= full.skip(full.len() - sb@.len()));
            }
        }
        proof {
            if full.len() > max {
                assert(rows_view(sb@) =~= keep_last(full, max as nat));
            } else {
                assert(full.skip(0) =~= full);
                assert(rows_view(sb@) =~= keep_last(full, max as nat));
            }
        }
        std::mem::swap(&mut sb, &mut self.scrollback);
        // The live viewport.
        let vp_cells = cell_count(sync.cols, sync.rows);
        let mut vp: Vec<PackedCell> = Vec::new();
        let mut i: usize = 0;
        while i < vp_cells
            invariant
                i <= vp_cells,
                vp@ =~= synced_viewport(sync.cells@, vp_cells as nat).take(i as int),
            decreases vp_cells - i,
        {
            if i < sync.cells.len() {
                vp.push(sync.cells[i]);
            } else {
                vp.push(PackedCell::blank());
            }
            i = i + 1;
        }
        proof {
            assert(vp@ =~= synced_viewport(sync.cells@, vp_cells as nat));
        }
        self.viewport = vp;
        // Clamp the scroll position.
        let max_off = self.scrollback.len();
        if self.scroll_offset > max_off {
            self.scroll_offset = max_off;
        }
        self.cursor_line = sync.cursor_line;
        self.cursor_col = sync.cursor_col;
        self.cursor_shape = sync.cursor_shape;
        self.mode_flags = sync.mode_flags;
        self.has_shell_integration = sync.mode_flags & MODE_SHELL_INTEGRATION != 0;
        self.has_kitty_keyboard = sync.mode_flags & MODE_KITTY_KEYBOARD != 0;
        self.title = sync.title.clone();
        self.graphemes = copy_graphemes(&sync.graphemes);
        self.dirty = true;
    }

    /// Apply an incremental update: patch the regions of the live viewport
    /// (lines past the bottom skipped, columns past the right edge cut off)
    /// and take the cursor and mode from the update.
    pub fn apply_delta(&mut self, delta: &CellDelta)
        requires
            old(self).wf(),
        ensures
            final(self).wf(),
            final(self).cols == old(self).cols,
            final(self).rows == old(self).rows,
            final(self).history() == old(self).history(),
            final(self).scroll_offset == old(self).scroll_offset,
            final(self).viewport@ == patched(
                old(self).viewport@,
                delta.regions@.map_values(|g: DamageRegion| region_view(g)),
                old(self).cols as nat,
                old(self).rows as nat,
            ),
            final(self).cursor_line == delta.cursor_line,
            final(self).cursor_col == delta.cursor_col,
            final(self).cursor_shape == delta.cursor_shape,
            final(self).mode_flags == delta.mode_flags,
            final(self).has_shell_integration == (delta.mode_flags & MODE_SHELL_INTEGRATION != 0),
            final(self).has_kitty_keyboard == (delta.mode_flags & MODE_KITTY_KEYBOARD != 0),
            final(self).dirty,
            final(self).dirty_rows@ == dirtied(
                old(self).dirty_rows@,
                delta.regions@.map_values(|g: DamageRegion| region_view(g)),
                old(self).cols as nat,
                old(self).rows as nat,
            ),
            final(self).title == old(self).title,
            final(self).graphemes == old(self).graphemes,
    {
        self.cursor_line = delta.cursor_line;
        self.cursor_col = delta.cursor_col;
        self.cursor_shape = delta.cursor_shape;
        self.mode_flags = delta.mode_flags;
        self.has_shell_integration = delta.mode_flags & MODE_SHELL_INTEGRATION != 0;
        self.has_kitty_keyboard = delta.mode_flags & MODE_KITTY_KEYBOARD != 0;
        let cols = self.cols as usize;
        let nrows = self.rows as usize;
        let ghost regions = delta.regions@.map_values(|g: DamageRegion| region_view(g));
        let mut k: usize = 0;
        while k < delta.regions.len()
            invariant
                self.wf(),
                k <= delta.regions@.len(),
                cols == self.cols,
                nrows == self.rows,
                self.cols == old(self).cols,
                self.rows == old(self).rows,
                self.history() == old(self).history(),
                self.scroll_offset == old(self).scroll_offset,
                regions == delta.regions@.map_values(|g: DamageRegion| region_view(g)),
                self.viewport@ == patched(
                    old(self).viewport@,
                    regions.take(k as int),
                    cols as nat,
                    nrows as nat,
                ),
                self.dirty_rows@ == dirtied(old(self).dirty_rows@, regions.take(k as int), cols as nat, nrows as nat),
                self.title == old(self).title,
                self.graphemes == old(self).graphemes,
                self.cursor_line == delta.cursor_line,
                self.cursor_col == delta.cursor_col,
                self.cursor_shape == delta.cursor_shape,
                self.mode_flags == delta.mode_flags,
                self.has_shell_integration == (delta.mode_flags & MODE_SHELL_INTEGRATION != 0),
                self.has_kitty_keyboard == (delta.mode_flags & MODE_KITTY_KEYBOARD != 0),
            decreases delta.regions.len() - k,
        {
            let region = &delta.regions[k];
            let line = region.line as usize;
            let ghost prev = self.viewport@;
            proof {
                assert(regions.take(k + 1).drop_last() =~= regions.take(k as int));
                assert(regions.take(k + 1).last() == region_view(*region));
            }
            let vlen = self.viewport.len();
            if line < nrows {
                let col_start = region.left as usize;
                let n = region.cells.len();
                let col_end = if col_start <= cols && n <= cols - col_start {
                    col_start + n
                } else {
                    cols
                };
                if col_end > col_start {
                    proof {
                        assert(line * cols + cols <= nrows * cols) by (nonlinear_arith)
                            requires
                                line < nrows,
                        ;
                        assert(nrows * cols == vlen) by (nonlinear_arith)
                            requires
                                vlen == cols * nrows,
                        ;
                    }
                    let base = line * cols;
                    write_region(&mut self.viewport, base, col_start, col_end, &region.cells);
                    proof {
                        assert(self.viewport@ =~= patch_region(prev, region_view(*region), cols as nat, nrows as nat));
                    }
                    self.mark_row_dirty(line);
                } else {
                    proof {
                        assert(prev =~= patch_region(prev, region_view(*region), cols as nat, nrows as nat));
                    }
                }
            }
            k = k + 1;
        }
        self.dirty = true;
        proof {
            assert(regions.take(delta.regions@.len() as int) =~= regions);
        }
    }

    /// Scroll up into history; returns the lines actually scrolled.
    pub fn scroll_up(&mut self, lines: usize) -> (r: usize)
        requires
            old(self).wf(),
        ensures
            final(self).wf(),
            final(self).scroll_offset == scroll_up_spec(
                old(self).scroll_offset as nat,
                old(self).history().len(),
                lines as nat,
            ),
            r == final(self).scroll_offset - old(self).scroll_offset,
            final(self).dirty == (old(self).dirty || r > 0),
            *final(self) == (ClientPaneGrid {
                scroll_offset: final(self).scroll_offset,
                dirty: final(self).dirty,
                ..*old(self)
            }),
    {
        let max = self.scrollback.len();
        let old = self.scroll_offset;
        self.scroll_offset = if lines < max - old {
            old + lines
        } else {
            max
        };
        let scrolled = self.scroll_offset - old;
        if scrolled > 0 {
            self.dirty = true;
        }
        scrolled
    }

    /// Scroll down toward the live view; returns the lines actually scrolled.
    pub fn scroll_down(&mut self, lines: usize) -> (r: usize)
        requires
            old(self).wf(),
        ensures
            final(self).wf(),
            final(self).scroll_offset == scroll_down_spec(old(self).scroll_offset as nat, lines as nat),
            r == old(self).scroll_offset - final(self).scroll_offset,
            final(self).dirty == (old(self).dirty || r > 0),
            *final(self) == (ClientPaneGrid {
                scroll_offset: final(self).scroll_offset,
                dirty: final(self).dirty,
                ..*old(self)
            }),
    {
        let old = self.scroll_offset;
        self.scroll_offset = self.scroll_offset.saturating_sub(lines);
        let scrolled = old - self.scroll_offset;
        if scrolled > 0 {
            self.dirty = true;
        }
        scrolled
    }

    /// Set the scroll position directly, clamped to the history.
    pub fn set_scroll_offset(&mut self, offset: usize)
        requires
            old(self).wf(),
        ensures
            final(self).wf(),
            final(self).scroll_offset == if offset <= old(self).history().len() {
                offset as nat
            } else {
                old(self).history().len()
            },
            final(self).dirty == (old(self).dirty || final(self).scroll_offset != old(self).scroll_offset),
            *final(self) == (ClientPaneGrid {
                scroll_offset: final(self).scroll_offset,
                dirty: final(self).dirty,
                ..*old(self)
            }),
    {
        let max = self.scrollback.len();
        let new = if offset < max {
            offset
        } else {
            max
        };
        if new != self.scroll_offset {
            self.scroll_offset = new;
            self.dirty = true;
        }
    }

    /// Jump to the live view.
    pub fn scroll_to_bottom(&mut self)
        requires
            old(self).wf(),
        ensures
            final(self).wf(),
            final(self).scroll_offset == 0,
            final(self).dirty == (old(self).dirty || old(self).scroll_offset > 0),
            *final(self) == (ClientPaneGrid {
                scroll_offset: final(self).scroll_offset,
                dirty: final(self).dirty,
                ..*old(self)
            }),
    {
        if self.scroll_offset > 0 {
            self.scroll_offset = 0;
            self.dirty = true;
        }
    }

    /// The cells on screen, row-major: the live viewport when not
    /// scrolled, otherwise the buffer rows from the top row on, each cut or
    /// padded with blanks to the current width.
    pub open spec fn visible_spec(&self) -> Seq<PackedCell> {
        if self.scroll_offset == 0 {
            self.viewport@
        } else {
            concat_rows(
                Seq::new(
                    self.rows as nat,
                    |r: int| pad_row(self.row_spec(self.top_spec() + r), self.cols as nat),
                ),
            )
        }
    }

    /// The cells on screen (see [`Self::visible_spec`]).
    pub fn visible_cells(&self) -> (r: Vec<PackedCell>)
        requires
            self.wf(),
        ensures
            r@ == self.visible_spec(),
            r@.len() == self.rows as nat * self.cols as nat,
    {
        if self.scroll_offset == 0 {
            let r = copy_cells(&self.viewport, 0, self.viewport.len());
            proof {
                assert(r@ =~= self.viewport@);
                assert(self.cols as nat * self.rows as nat == self.rows as nat * self.cols as nat) by (nonlinear_arith);
            }
            return r;
        }
        let top = self.viewport_top();
        let rows = self.rows as usize;
        let cols = self.cols as usize;
        let ghost padded = Seq::new(
            self.rows as nat,
            |r: int| pad_row(self.row_spec(self.top_spec() + r), self.cols as nat),
        );
        let mut cells: Vec<PackedCell> = Vec::new();
        let mut r: usize = 0;
        while r < rows
            invariant
                self.wf(),
                r <= rows == self.rows,
                cols == self.cols,
                top == self.top_spec(),
                top <= self.history().len(),
                padded == Seq::new(
                    self.rows as nat,
                    |r: int| pad_row(self.row_spec(self.top_spec() + r), self.cols as nat),
                ),
                cells@ == concat_rows(padded.take(r as int)),
                cells@.len() == r * cols,
            decreases rows - r,
        {
            let row = self.row(top + r);
            let take = if row.len() < cols {
                row.len()
            } else {
                cols
            };
            let ghost before = cells@;
            let mut c: usize = 0;
            while c < cols
                invariant
                    c <= cols,
                    take <= row@.len(),
                    take == (if row@.len() < cols { row@.len() } else { cols as nat }),
                    cells@ == before + pad_row(row@, cols as nat).take(c as int),
                decreases cols - c,
            {
                if c < take {
                    cells.push(row[c]);
                } else {
                    cells.push(PackedCell::blank());
                }
                proof {
                    assert(pad_row(row@, cols as nat).take(c + 1) =~= pad_row(row@, cols as nat).take(
                        c as int,
                    ).push(pad_row(row@, cols as nat)[c as int]));
                }
                c = c + 1;
            }
            proof {
                assert(pad_row(row@, cols as nat).take(cols as int) =~= pad_row(row@, cols as nat));
                assert(padded[r as int] == pad_row(row@, cols as nat));
                assert(padded.take(r + 1).drop_last() =~= padded.take(r as int));
                assert(cells@.len() == (r + 1) * cols) by (nonlinear_arith)
                    requires
                        cells@.len() == r * cols + cols,
                ;
            }
            r = r + 1;
        }
        proof {
            assert(padded.take(rows as int) =~= padded);
            assert(cells@.len() == self.rows as nat * self.cols as nat);
        }
        cells
    }

    /// Rows `i..=last` of the buffer as text (see [`Self::text_in_range`]).
    pub open spec fn range_text_from(&self, first: (u16, usize), last: (u16, usize), i: int) -> Seq<char>
        decreases last.1 - i + 1,
    {
        if i > last.1 || i < first.1 || i >= self.history().len() + self.rows {
            Seq::empty()
        } else {
            let left = if i == first.1 {
                first.0 as int
            } else {
                0
            };
            let right = if i == last.1 {
                last.0 as int
            } else if self.cols > 0 {
                self.cols - 1
            } else {
                0
            };
            trim_end(cells_text(self.row_spec(i), left, right)) + (if i < last.1 {
                seq!['\n']
            } else {
                Seq::empty()
            }) + self.range_text_from(first, last, i + 1)
        }
    }

    /// The selection text between two buffer positions (column, row),
    /// in either order: per row, the characters from the start column
    /// (first row) or 0 to the end column (last row) or the last column,
    /// without wide-character spacers and empty cells, trailing white space
    /// trimmed; rows joined by newlines; rows past the buffer's end dropped.
    pub open spec fn text_spec(&self, start: (u16, usize), end: (u16, usize)) -> Seq<char> {
        let (first, last) = if start.1 < end.1 || (start.1 == end.1 && start.0 <= end.0) {
            (start, end)
        } else {
            (end, start)
        };
        self.range_text_from(first, last, first.1 as int)
    }

    pub fn text_in_range(&self, start: (u16, usize), end: (u16, usize)) -> (r: String)
        requires
            self.wf(),
        ensures
            r@ == self.text_spec(start, end),
    {
        let (first, last) = if start.1 < end.1 || (start.1 == end.1 && start.0 <= end.0) {
            (start, end)
        } else {
            (end, start)
        };
        let total = self.buffer_len();
        let mut result: Vec<char> = Vec::new();
        let mut i = first.1;
        while i <= last.1 && i < total
            invariant
                self.wf(),
                total == self.history().len() + self.rows,
                first.1 <= i,
                first.1 <= last.1,
                result@ + self.range_text_from(first, last, i as int) == self.range_text_from(
                    first,
                    last,
                    first.1 as int,
                ),
            decreases total - i,
        {
            let row_data = self.row(i);
            let left: usize = if i == first.1 {
                first.0 as usize
            } else {
                0
            };
            let right: usize = if i == last.1 {
                last.0 as usize
            } else if self.cols > 0 {
                self.cols as usize - 1
            } else {
                0
            };
            let line = cells_text_exec(&row_data, left, right);
            let trimmed = trim_end_chars(&line);
            let ghost before = result@;
            let mut t = trimmed;
            result.append(&mut t);
            if i < last.1 {
                result.push('\n');
            }
            proof {
                let piece = trim_end(cells_text(self.row_spec(i as int), left as int, right as int)) + (if i
                    < last.1 {
                    seq!['\n']
                } else {
                    Seq::empty()
                });
                assert(result@ =~= before + piece);
                assert(self.range_text_from(first, last, i as int) == piece + self.range_text_from(
                    first,
                    last,
                    i + 1,
                ));
                assert(before + self.range_text_from(first, last, i as int) =~= result@ + self.range_text_from(
                    first,
                    last,
                    i + 1,
                ));
            }
            i = i + 1;
        }
        proof {
            assert(self.range_text_from(first, last, i as int) =~= Seq::<char>::empty());
            assert(result@ =~= self.range_text_from(first, last, first.1 as int));
        }
        string_of(&result)
    }

    /// Matches of `ql` in rows `i..` of the buffer.
    pub open spec fn search_from_row(&self, ql: Seq<char>, i: int) -> Seq<(usize, u16, u16)>
        decreases self.history().len() + self.rows - i,
    {
        if i < 0 || i >= self.history().len() + self.rows {
            Seq::empty()
        } else {
            row_matches(folded(self.row_spec(i)), ql, i as usize, 0) + self.search_from_row(ql, i + 1)
        }
    }

    /// Case-insensitive search of the whole buffer: every position (row,
    /// first column, last column) where the lower-cased query occurs in a
    /// row's lower-cased text, rows in order and positions left to right,
    /// overlapping matches included.
    pub open spec fn search_spec(&self, query: Seq<char>) -> Seq<(usize, u16, u16)> {
        if query.len() == 0 {
            Seq::empty()
        } else {
            self.search_from_row(str_lowercase(query), 0)
        }
    }

    pub fn search(&self, query: &str) -> (r: Vec<(usize, u16, u16)>)
        requires
            self.wf(),
        ensures
            r@ == self.search_spec(query@),
    {
        let mut results: Vec<(usize, u16, u16)> = Vec::new();
        let query_chars = chars_of(query);
        if query_chars.len() == 0 {
            return results;
        }
        let ql = chars_of(lowercase_str(query).as_str());
        let total = self.buffer_len();
        let mut row_idx: usize = 0;
        while row_idx < total
            invariant
                self.wf(),
                query@.len() > 0,
                total == self.history().len() + self.rows,
                row_idx <= total,
                ql@ == str_lowercase(query@),
                results@ + self.search_from_row(ql@, row_idx as int) == self.search_from_row(ql@, 0),
            decreases total - row_idx,
        {
            let row = self.row(row_idx);
            let f = fold_row(&row);
            let ghost before = results@;
            append_row_matches(&mut results, &f, &ql, row_idx);
            proof {
                assert(before + self.search_from_row(ql@, row_idx as int) =~= results@ + self.search_from_row(
                    ql@,
                    row_idx + 1,
                ));
            }
            row_idx = row_idx + 1;
        }
        proof {
            assert(self.search_from_row(ql@, total as int) =~= Seq::<(usize, u16, u16)>::empty());
            assert(results@ =~= self.search_from_row(ql@, 0));
        }
        results
    }

    /// Cursor position on screen, or `None` while scrolled into history.
    pub fn cursor_in_viewport(&self) -> (r: Option<(u16, i16)>)
        ensures
            r == if self.scroll_offset == 0 {
                Some((self.cursor_col, self.cursor_line))
            } else {
                None
            },
    {
        if self.scroll_offset == 0 {
            Some((self.cursor_col, self.cursor_line))
        } else {
            None
        }
    }

    /// Buffer row of screen row `viewport_row`.
    pub fn viewport_to_buffer_row(&self, viewport_row: u16) -> (r: usize)
        requires
            self.top_spec() + viewport_row <= usize::MAX,
        ensures
            r == self.top_spec() + viewport_row,
    {
        self.viewport_top() + viewport_row as usize
    }

    /// Screen row of buffer row `buffer_row`, if it is on screen.
    pub fn buffer_to_viewport_row(&self, buffer_row: usize) -> (r: Option<u16>)
        ensures
            r == if self.top_spec() <= buffer_row < self.top_spec() + self.rows {
                Some((buffer_row - self.top_spec()) as u16)
            } else {
                None
            },
    {
        let top = self.viewport_top();
        if buffer_row >= top && buffer_row - top < self.rows as usize {
            Some((buffer_row - top) as u16)
        } else {
            None
        }
    }
}

/// A screen row maps to a buffer row that maps back to the same screen
/// row, and a buffer row on screen maps to a screen row that maps back to it.
pub proof fn lemma_viewport_row_round_trip(g: ClientPaneGrid, viewport_row: u16, buffer_row: int)
    ensures
        viewport_row < g.rows ==> g.top_spec() <= g.top_spec() + viewport_row < g.top_spec() + g.rows
            && (g.top_spec() + viewport_row - g.top_spec()) as u16 == viewport_row,
        g.top_spec() <= buffer_row < g.top_spec() + g.rows ==> g.top_spec() + ((buffer_row
            - g.top_spec()) as u16) == buffer_row,
{
}

/// The lower-case mapping of `s` (`str::to_lowercase`).
pub uninterp spec fn str_lowercase(s: Seq<char>) -> Seq<char>;

/// The lower-case mapping of `c` (`char::to_lowercase`), one or more chars.
pub uninterp spec fn char_lowercase(c: char) -> Seq<char>;

/// `str::to_lowercase`.
#[verifier::external_body]
fn lowercase_str(s: &str) -> (r: String)
    ensures
        r@ == str_lowercase(s@),
{
    s.to_lowercase()
}

/// `char::to_lowercase`, its characters collected.
#[verifier::external_body]
fn lowercase_char(c: char) -> (r: Vec<char>)
    ensures
        r@ == char_lowercase(c),
{
    c.to_lowercase().collect()
}

/// The searchable text of one cell at column `col`: nothing for a
/// wide-character spacer, else the lower-cased character (an empty cell
/// counts as a space), each tagged with `col`.
pub open spec fn cell_fold(c: PackedCell, col: u16) -> Seq<(char, u16)> {
    if is_spacer(c) {
        Seq::empty()
    } else {
        let ch = if c.ch == '\0' {
            ' '
        } else {
            c.ch
        };
        char_lowercase(ch).map_values(|l: char| (l, col))
    }
}

/// The searchable text of a row, each character tagged with its column.
pub open spec fn folded(row: Seq<PackedCell>) -> Seq<(char, u16)>
    decreases row.len(),
{
    if row.len() == 0 {
        Seq::empty()
    } else {
        folded(row.drop_last()) + cell_fold(row.last(), (row.len() - 1) as u16)
    }
}

/// Matches of `q` in `f` starting at position `p` or later.
pub open spec fn row_matches(f: Seq<(char, u16)>, q: Seq<char>, row: usize, p: int) -> Seq<(usize, u16, u16)>
    decreases f.len() - p,
{
    if q.len() == 0 || p < 0 || p + q.len() > f.len() {
        Seq::empty()
    } else {
        (if forall|k: int| 0 <= k < q.len() ==> #[trigger] f[p + k].0 == q[k] {
            seq![(row, f[p].1, f[p + q.len() - 1].1)]
        } else {
            Seq::empty()
        }) + row_matches(f, q, row, p + 1)
    }
}

fn fold_row(row: &Vec<PackedCell>) -> (r: Vec<(char, u16)>)
    ensures
        r@ == folded(row@),
{
    let mut out: Vec<(char, u16)> = Vec::new();
    let mut j: usize = 0;
    while j < row.len()
        invariant
            j <= row.len(),
            out@ == folded(row@.take(j as int)),
        decreases row.len() - j,
    {
        let cell = row[j];
        let ghost before = out@;
        if cell.flags & FLAG_WIDE_CHAR_SPACER == 0 {
            let ch = if cell.ch == '\0' {
                ' '
            } else {
                cell.ch
            };
            let lows = lowercase_char(ch);
            let mut k: usize = 0;
            while k < lows.len()
                invariant
                    k <= lows.len(),
                    out@ == before + lows@.take(k as int).map_values(|l: char| (l, j as u16)),
                decreases lows.len() - k,
            {
                out.push((lows[k], j as u16));
                proof {
                    assert(lows@.take(k + 1).map_values(|l: char| (l, j as u16)) =~= lows@.take(
                        k as int,
                    ).map_values(|l: char| (l, j as u16)).push((lows@[k as int], j as u16)));
                }
                k = k + 1;
            }
            proof {
                assert(lows@.take(lows@.len() as int) =~= lows@);
            }
        }
        proof {
            assert(row@.take(j + 1).drop_last() =~= row@.take(j as int));
            assert(row@.take(j + 1).last() == cell);
            assert(out@ =~= folded(row@.take(j + 1)));
        }
        j = j + 1;
    }
    proof {
        assert(row@.take(row@.len() as int) =~= row@);
    }
    out
}

fn append_row_matches(results: &mut Vec<(usize, u16, u16)>, f: &Vec<(char, u16)>, q: &Vec<char>, row: usize)
    ensures
        final(results)@ == old(results)@ + row_matches(f@, q@, row, 0),
{
    let n = f.len();
    let m = q.len();
    if m == 0 || m > n {
        return;
    }
    let mut p: usize = 0;
    while p <= n - m
        invariant
            0 < m <= n,
            n == f@.len(),
            m == q@.len(),
            old(results)@ + row_matches(f@, q@, row, 0) == results@ + row_matches(f@, q@, row, p as int),
        decreases n - p,
    {
        let mut k: usize = 0;
        let mut same = true;
        while k < m
            invariant
                k <= m,
                p + m <= n,
                n == f@.len(),
                m == q@.len(),
                same == (forall|t: int| 0 <= t < k ==> #[trigger] f@[p + t].0 == q@[t]),
            decreases m - k,
        {
            if f[p + k].0 != q[k] {
                same = false;
            }
            k = k + 1;
        }
        let ghost before = results@;
        if same {
            results.push((row, f[p].1, f[p + m - 1].1));
        }
        proof {
            assert(before + row_matches(f@, q@, row, p as int) =~= results@ + row_matches(
                f@,
                q@,
                row,
                p + 1,
            ));
        }
        p = p + 1;
    }
    proof {
        assert(row_matches(f@, q@, row, p as int) =~= Seq::<(usize, u16, u16)>::empty());
    }
}

/// The characters of `row[j..=right]` (cut at the row's end), without
/// wide-character spacers and empty (`'\0'`) cells.
pub open spec fn cells_text(row: Seq<PackedCell>, j: int, right: int) -> Seq<char>
    decreases right - j + 1,
{
    if j < 0 || j > right || j >= row.len() {
        Seq::empty()
    } else {
        (if is_spacer(row[j]) || row[j].ch == '\0' {
            Seq::empty()
        } else {
            seq![row[j].ch]
        }) + cells_text(row, j + 1, right)
    }
}

fn cells_text_exec(row: &Vec<PackedCell>, left: usize, right: usize) -> (r: Vec<char>)
    ensures
        r@ == cells_text(row@, left as int, right as int),
{
    let mut out: Vec<char> = Vec::new();
    let mut j = left;
    while j <= right && j < row.len()
        invariant
            left <= j,
            out@ + cells_text(row@, j as int, right as int) == cells_text(row@, left as int, right as int),
        decreases row.len() - j,
    {
        let cell = row[j];
        let ghost before = out@;
        if !(cell.flags & FLAG_WIDE_CHAR_SPACER != 0 || cell.ch == '\0') {
            out.push(cell.ch);
        }
        proof {
            assert(before + cells_text(row@, j as int, right as int) =~= out@ + cells_text(
                row@,
                j + 1,
                right as int,
            ));
        }
        j = j + 1;
    }
    proof {
        assert(cells_text(row@, j as int, right as int) =~= Seq::<char>::empty());
        assert(out@ =~= cells_text(row@, left as int, right as int));
    }
    out
}

/// `row` cut or padded with blanks to `cols` cells.
pub open spec fn pad_row(row: Seq<PackedCell>, cols: nat) -> Seq<PackedCell> {
    Seq::new(cols, |c: int| if c < row.len() { row[c] } else { blank_cell() })
}

/// The rows one after another.
pub open spec fn concat_rows(rows: Seq<Seq<PackedCell>>) -> Seq<PackedCell>
    decreases rows.len(),
{
    if rows.len() == 0 {
        Seq::empty()
    } else {
        concat_rows(rows.drop_last()) + rows.last()
    }
}

/// The rows of a history queue as cell sequences.
pub open spec fn rows_view(q: Seq<Vec<PackedCell>>) -> Seq<Seq<PackedCell>> {
    q.map_values(|r: Vec<PackedCell>| r@)
}

/// A damage region as plain values: line, first column, cells.
pub open spec fn region_view(g: DamageRegion) -> (u16, u16, Seq<PackedCell>) {
    (g.line, g.left, g.cells@)
}

/// `vp` with one region written in: lines past `rows` are skipped and
/// columns past `cols` cut off.
pub open spec fn patch_region(vp: Seq<PackedCell>, g: (u16, u16, Seq<PackedCell>), cols: nat, rows: nat) -> Seq<PackedCell> {
    let (line, left, cells) = g;
    if line >= rows {
        vp
    } else {
        let base = line * cols;
        Seq::new(
            vp.len(),
            |m: int|
                if base + left <= m < base + cols && m - base - left < cells.len() {
                    cells[m - base - left]
                } else {
                    vp[m]
                },
        )
    }
}

/// Whether writing region `g` changes any cell: its line is on screen, it
/// starts left of the right edge, and it has cells.
pub open spec fn region_writes(g: (u16, u16, Seq<PackedCell>), cols: nat, rows: nat) -> bool {
    g.0 < rows && g.1 < cols && g.2.len() > 0
}

/// The dirty-row flags after writing `regions`: each line a region changes
/// is marked.
pub open spec fn dirtied(flags: Seq<bool>, regions: Seq<(u16, u16, Seq<PackedCell>)>, cols: nat, rows: nat) -> Seq<bool>
    decreases regions.len(),
{
    if regions.len() == 0 {
        flags
    } else {
        let f = dirtied(flags, regions.drop_last(), cols, rows);
        if region_writes(regions.last(), cols, rows) && regions.last().0 < f.len() {
            f.update(regions.last().0 as int, true)
        } else {
            f
        }
    }
}

/// `vp` with `regions` written in, in order.
pub open spec fn patched(vp: Seq<PackedCell>, regions: Seq<(u16, u16, Seq<PackedCell>)>, cols: nat, rows: nat) -> Seq<PackedCell>
    decreases regions.len(),
{
    if regions.len() == 0 {
        vp
    } else {
        patch_region(patched(vp, regions.drop_last(), cols, rows), regions.last(), cols, rows)
    }
}

/// `cols * rows`, which always fits: 65535 * 65535 < 2^32.
pub fn cell_count(cols: u16, rows: u16) -> (r: usize)
    ensures
        r == cols as nat * rows as nat,
{
    proof {
        assert(cols as nat * rows as nat <= 65535 * 65535) by (nonlinear_arith)
            requires
                cols <= 65535,
                rows <= 65535,
        ;
    }
    cols as usize * rows as usize
}

/// Write `cells[..col_end - col_start]` at `base + col_start ..`.
fn write_region(vp: &mut Vec<PackedCell>, base: usize, col_start: usize, col_end: usize, cells: &Vec<PackedCell>)
    requires
        col_start <= col_end,
        base + col_end <= old(vp)@.len(),
        col_end - col_start <= cells@.len(),
    ensures
        final(vp)@ == Seq::new(
            old(vp)@.len(),
            |m: int|
                if base + col_start <= m < base + col_end {
                    cells@[m - base - col_start]
                } else {
                    old(vp)@[m]
                },
        ),
{
    let n = vp.len();
    let mut j = col_start;
    while j < col_end
        invariant
            col_start <= j <= col_end,
            n == vp@.len(),
            base + col_end <= n,
            vp@.len() == old(vp)@.len(),
            col_end - col_start <= cells@.len(),
            forall|m: int|
                0 <= m < vp@.len() ==> #[trigger] vp@[m] == if base + col_start <= m < base + j {
                    cells@[m - base - col_start]
                } else {
                    old(vp)@[m]
                },
        decreases col_end - j,
    {
        let c = cells[j - col_start];
        vp.set(base + j, c);
        j = j + 1;
    }
    proof {
        assert(vp@ =~= Seq::new(
            old(vp)@.len(),
            |m: int|
                if base + col_start <= m < base + col_end {
                    cells@[m - base - col_start]
                } else {
                    old(vp)@[m]
                },
        ));
    }
}

fn blank_cells(n: usize) -> (r: Vec<PackedCell>)
    ensures
        r@ == Seq::new(n as nat, |i: int| blank_cell()),
{
    let mut v: Vec<PackedCell> = Vec::new();
    let mut i: usize = 0;
    while i < n
        invariant
            i <= n,
            v@ =~= Seq::new(i as nat, |k: int| blank_cell()),
        decreases n - i,
    {
        v.push(PackedCell::blank());
        i = i + 1;
    }
    v
}

fn false_flags(n: usize) -> (r: Vec<bool>)
    ensures
        r@ == all_false(n as nat),
{
    let mut v: Vec<bool> = Vec::new();
    let mut i: usize = 0;
    while i < n
        invariant
            i <= n,
            v@ =~= all_false(i as nat),
        decreases n - i,
    {
        v.push(false);
        i = i + 1;
    }
    v
}

/// The cells `v[lo..hi]`.
pub fn copy_cells(v: &Vec<PackedCell>, lo: usize, hi: usize) -> (r: Vec<PackedCell>)
    requires
        lo <= hi <= v.len(),
    ensures
        r@ == v@.subrange(lo as int, hi as int),
{
    let mut r: Vec<PackedCell> = Vec::new();
    let mut i = lo;
    while i < hi
        invariant
            lo <= i <= hi <= v.len(),
            r@ =~= v@.subrange(lo as int, i as int),
        decreases hi - i,
    {
        r.push(v[i]);
        i = i + 1;
    }
    r
}

fn copy_graphemes(g: &Vec<(u32, String)>) -> (r: Vec<(u32, String)>)
    ensures
        r@.len() == g@.len(),
        forall|i: int| 0 <= i < g@.len() ==> (#[trigger] r@[i]).0 == g@[i].0 && r@[i].1@ == g@[i].1@,
{
    let mut r: Vec<(u32, String)> = Vec::new();
    let mut i: usize = 0;
    while i < g.len()
        invariant
            i <= g.len(),
            r@.len() == i,
            forall|k: int| 0 <= k < i ==> (#[trigger] r@[k]).0 == g@[k].0 && r@[k].1@ == g@[k].1@,
        decreases g.len() - i,
    {
        let (key, text) = &g[i];
        r.push((*key, text.clone()));
        i = i + 1;
    }
    r
}

} // verus!
