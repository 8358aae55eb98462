//! Clipping a label to a number of terminal columns.

use unicode_width::UnicodeWidthChar;
use vstd::prelude::*;
use crate::text::{char_utf8_len, chars_of, string_of, utf8_len};

verus! {

/// The display width `unicode_width` gives `c`, or `None` for a control
/// character (`UnicodeWidthChar::width`).
pub uninterp spec fn unicode_char_width(c: char) -> Option<usize>;

/// `UnicodeWidthChar::width`. Beside the name, its source shows that the
/// printable ASCII characters and the ellipsis `…` are one column wide,
/// that the C0 and C1 control characters have no width, and that no
/// character is wider than three columns.
#[verifier::external_body]
fn char_width(c: char) -> (r: Option<usize>)
    ensures
        r == unicode_char_width(c),
        ' ' <= c && c < '\u{7f}' ==> r == Some(1usize),
        c == '\u{2026}' ==> r == Some(1usize),
        (c < ' ' || ('\u{7f}' <= c && c < '\u{a0}')) ==> r is None,
        r matches Some(w) ==> w <= 3,
{
    UnicodeWidthChar::width(c)
}

/// The columns `c` takes, a control character none.
pub open spec fn width_of(c: char) -> nat {
    match unicode_char_width(c) {
        Some(w) => w as nat,
        None => 0,
    }
}

/// The columns the first `n` characters of `s` take.
pub open spec fn prefix_width(s: Seq<char>, n: int) -> nat
    decreases n,
{
    if n <= 0 || n > s.len() {
        0
    } else {
        prefix_width(s, n - 1) + width_of(s[n - 1])
    }
}

/// Character `i` can be kept: the characters up to it fit in `max`
/// columns, with one column to spare for an ellipsis if any follow.
pub open spec fn fits(s: Seq<char>, i: int, max: nat) -> bool {
    prefix_width(s, i + 1) + (if i + 1 < s.len() {
        1nat
    } else {
        0nat
    }) <= max
}

/// How many leading characters are kept: those from `i` on up to the
/// first that does not fit.
pub open spec fn kept_from(s: Seq<char>, i: int, max: nat) -> int
    decreases s.len() - i,
{
    if 0 <= i < s.len() && fits(s, i, max) {
        kept_from(s, i + 1, max)
    } else {
        i
    }
}

/// The clipped label: the characters that fit, and an ellipsis where
/// characters were dropped and a column is left for it; nothing when there
/// are no columns at all.
pub open spec fn truncate_spec(s: Seq<char>, max: nat) -> Seq<char> {
    if max == 0 {
        Seq::empty()
    } else {
        let k = kept_from(s, 0, max);
        s.take(k) + if k < s.len() && prefix_width(s, k) + 1 <= max {
            seq!['…']
        } else {
            Seq::empty()
        }
    }
}

proof fn lemma_kept_bounds(s: Seq<char>, i: int, max: nat)
    requires
        0 <= i <= s.len(),
        i > 0 ==> prefix_width(s, i) + 1 <= max || i == s.len(),
        i > 0 ==> prefix_width(s, i) <= max,
    ensures
        i <= kept_from(s, i, max) <= s.len(),
        prefix_width(s, kept_from(s, i, max)) <= max || kept_from(s, i, max) == 0,
        kept_from(s, i, max) > 0 && kept_from(s, i, max) < s.len() ==> prefix_width(s, kept_from(s, i, max)) + 1 <= max,
        kept_from(s, i, max) == s.len() || !fits(s, kept_from(s, i, max), max),
    decreases s.len() - i,
{
    if i < s.len() && fits(s, i, max) {
        lemma_kept_bounds(s, i + 1, max);
    }
}

/// The clipped label is a prefix of the label, takes at most `max` columns
/// (the ellipsis one), ends in an ellipsis exactly when characters were
/// dropped, and is the whole label when the whole label fits and its last
/// character takes a column (or it has at most one character).
pub proof fn lemma_truncate_fits(s: Seq<char>, max: nat)
    requires
        max > 0,
    ensures
        ({
            let k = kept_from(s, 0, max);
            let t = truncate_spec(s, max);
            &&& 0 <= k <= s.len()
            &&& t.take(k) == s.take(k)
            &&& prefix_width(s, k) + (t.len() - k) <= max
            &&& (t.len() == k + 1 <==> k < s.len())
            &&& t.len() == k + 1 ==> t[k] == '…'
            &&& prefix_width(s, s.len() as int) <= max && (s.len() <= 1 || prefix_width(s, s.len() - 1)
                + 1 <= max) ==> t == s
        }),
{
    lemma_kept_bounds(s, 0, max);
    let k = kept_from(s, 0, max);
    if prefix_width(s, s.len() as int) <= max && (s.len() <= 1 || prefix_width(s, s.len() - 1) + 1
        <= max) {
        lemma_all_fit(s, 0, max);
        assert(s.take(s.len() as int) =~= s);
    }
}

proof fn lemma_prefix_mono(s: Seq<char>, i: int, j: int)
    requires
        0 <= i <= j <= s.len(),
    ensures
        prefix_width(s, i) <= prefix_width(s, j),
    decreases j - i,
{
    if i < j {
        lemma_prefix_mono(s, i, j - 1);
    }
}

proof fn lemma_all_fit(s: Seq<char>, i: int, max: nat)
    requires
        0 <= i <= s.len(),
        prefix_width(s, s.len() as int) <= max,
        s.len() <= 1 || prefix_width(s, s.len() - 1) + 1 <= max,
    ensures
        kept_from(s, i, max) == s.len(),
    decreases s.len() - i,
{
    if i < s.len() {
        if i + 1 < s.len() {
            lemma_prefix_mono(s, i + 1, s.len() - 1);
        }
        lemma_all_fit(s, i + 1, max);
    }
}

/// Clip `s` to at most `max_cols` display columns, appending "…" if
/// characters were dropped. Returns an empty string if `max_cols == 0`.
pub fn truncate_to_cols(s: &str, max_cols: usize) -> (r: String)
    ensures
        r@ == truncate_spec(s@, max_cols as nat),
{
    if max_cols == 0 {
        return String::new();
    }
    let chars = chars_of(s);
    let n = chars.len();
    let mut out: Vec<char> = Vec::new();
    let mut col: usize = 0;
    let mut i: usize = 0;
    while i < n
        invariant
            n == chars@.len(),
            chars@ == s@,
            max_cols > 0,
            i <= n,
            col <= max_cols,
            col == prefix_width(s@, i as int),
            kept_from(s@, i as int, max_cols as nat) == kept_from(s@, 0, max_cols as nat),
            out@ == s@.take(i as int),
            i > 0 && i < n ==> col + 1 <= max_cols,
        decreases n - i,
    {
        let w = match char_width(chars[i]) {
            Some(w) => w,
            None => 0,
        };
        let more = i + 1 < n;
        let room = max_cols - col;
        let over = if more {
            w >= room
        } else {
            w > room
        };
        if over {
            proof {
                assert(!fits(s@, i as int, max_cols as nat));
                assert(kept_from(s@, i as int, max_cols as nat) == i);
            }
            if col < max_cols {
                out.push('…');
            }
            return string_of(&out);
        }
        out.push(chars[i]);
        proof {
            assert(s@.take(i + 1) =~= s@.take(i as int).push(s@[i as int]));
        }
        col = col + w;
        i = i + 1;
    }
    proof {
        assert(s@.take(n as int) =~= s@);
    }
    string_of(&out)
}

/// The characters of `s` from index `i` on that lie wholly inside the
/// columns `[skip, limit)`, up to the first that reaches past `limit`.
pub open spec fn clip_from(s: Seq<char>, i: int, skip: nat, limit: nat) -> Seq<char>
    decreases s.len() - i,
{
    if i < 0 || i >= s.len() || prefix_width(s, i + 1) > limit {
        Seq::empty()
    } else {
        (if prefix_width(s, i) >= skip {
            seq![s[i]]
        } else {
            Seq::empty()
        }) + clip_from(s, i + 1, skip, limit)
    }
}

/// The column at which the first character of `clip_from(s, i, ..)`
/// starts (`skip` if there is none).
pub open spec fn clip_start_from(s: Seq<char>, i: int, skip: nat, limit: nat) -> nat
    decreases s.len() - i,
{
    if i < 0 || i >= s.len() || prefix_width(s, i + 1) > limit {
        skip
    } else if prefix_width(s, i) >= skip {
        prefix_width(s, i)
    } else {
        clip_start_from(s, i + 1, skip, limit)
    }
}

/// The part of a tab label that shows when the columns before `skip_cols`
/// are scrolled out of view and `visible_cols` columns are on screen: the
/// characters wholly inside the visible columns, with the column the first
/// of them starts at (later than `skip_cols` when a wide character
/// straddles the left edge); `None` when nothing shows.
pub fn clip_label_columns(label: &str, skip_cols: usize, visible_cols: usize) -> (r: Option<(String, usize)>)
    requires
        skip_cols + visible_cols <= usize::MAX,
    ensures
        ({
            let shown = clip_from(label@, 0, skip_cols as nat, (skip_cols + visible_cols) as nat);
            match r {
                None => shown.len() == 0,
                Some((t, start)) => shown.len() > 0 && t@ == shown && start == clip_start_from(
                    label@,
                    0,
                    skip_cols as nat,
                    (skip_cols + visible_cols) as nat,
                ),
            }
        }),
{
    let chars = chars_of(label);
    let n = chars.len();
    let limit = skip_cols + visible_cols;
    let ghost s = label@;
    let mut out: Vec<char> = Vec::new();
    let mut start = skip_cols;
    let mut col: usize = 0;
    let mut i: usize = 0;
    while i < n
        invariant
            n == chars@.len(),
            chars@ == s,
            s == label@,
            limit == skip_cols + visible_cols,
            i <= n,
            col == prefix_width(s, i as int),
            col <= limit,
            out@ + clip_from(s, i as int, skip_cols as nat, limit as nat) == clip_from(
                s,
                0,
                skip_cols as nat,
                limit as nat,
            ),
            out@.len() == 0 ==> clip_start_from(s, i as int, skip_cols as nat, limit as nat)
                == clip_start_from(s, 0, skip_cols as nat, limit as nat),
            out@.len() > 0 ==> start == clip_start_from(s, 0, skip_cols as nat, limit as nat),
        ensures
            out@ == clip_from(s, 0, skip_cols as nat, limit as nat),
            out@.len() > 0 ==> start == clip_start_from(s, 0, skip_cols as nat, limit as nat),
        decreases n - i,
    {
        let w = match char_width(chars[i]) {
            Some(w) => w,
            None => 0,
        };
        if w > limit - col {
            proof {
                assert(prefix_width(s, i + 1) > limit);
                assert(clip_from(s, i as int, skip_cols as nat, limit as nat) =~= Seq::<char>::empty());
                assert(out@ + Seq::<char>::empty() =~= out@);
            }
            break;
        }
        let ghost before = out@;
        if col >= skip_cols {
            if out.len() == 0 {
                start = col;
            }
            out.push(chars[i]);
        }
        proof {
            assert(prefix_width(s, i + 1) == col + w);
            let rest = clip_from(s, i + 1, skip_cols as nat, limit as nat);
            if col >= skip_cols {
                assert(clip_from(s, i as int, skip_cols as nat, limit as nat) == seq![s[i as int]] + rest);
                assert(out@ + rest =~= before + (seq![s[i as int]] + rest));
            } else {
                assert(clip_from(s, i as int, skip_cols as nat, limit as nat) =~= Seq::<char>::empty() + rest);
                assert(out@ + rest =~= before + (Seq::<char>::empty() + rest));
            }
        }
        col = col + w;
        i = i + 1;
    }
    if out.len() == 0 {
        None
    } else {
        Some((string_of(&out), start))
    }
}

/// How many leading characters of `s` start before byte `c` (counted
/// from index `i` on).
pub open spec fn chars_starting_before(s: Seq<char>, c: nat, i: int) -> int
    decreases s.len() - i,
{
    if i < 0 || i >= s.len() || utf8_len(s.take(i)) >= c {
        i
    } else {
        chars_starting_before(s, c, i + 1)
    }
}

/// The display column of the input-method cursor at byte `cursor_byte`
/// of the pre-edit text: the width of the characters that start before it
/// (the cursor held to the end of the text).
pub fn preedit_cursor_display_cols(text: &str, cursor_byte: usize) -> (r: usize)
    requires
        text@.len() <= usize::MAX / 4,
    ensures
        r == prefix_width(
            text@,
            chars_starting_before(
                text@,
                if cursor_byte < utf8_len(text@) {
                    cursor_byte as nat
                } else {
                    utf8_len(text@)
                },
                0,
            ),
        ),
{
    let chars = chars_of(text);
    let n = chars.len();
    let ghost s = text@;
    let mut total: u128 = 0;
    let mut k: usize = 0;
    while k < n
        invariant
            n == chars@.len(),
            chars@ == s,
            k <= n,
            total == utf8_len(s.take(k as int)),
            total <= 4 * k,
        decreases n - k,
    {
        proof {
            assert(s.take(k + 1).drop_last() =~= s.take(k as int));
        }
        let c = chars[k];
        let b: u128 = if (c as u32) < 0x80 {
            1
        } else if (c as u32) < 0x800 {
            2
        } else if (c as u32) < 0x10000 {
            3
        } else {
            4
        };
        total = total + b;
        k = k + 1;
    }
    proof {
        assert(s.take(n as int) =~= s);
    }
    let cursor: u128 = if (cursor_byte as u128) < total {
        cursor_byte as u128
    } else {
        total
    };
    let ghost cap: nat = cursor as nat;
    let mut cols: usize = 0;
    let mut offset: u128 = 0;
    let mut i: usize = 0;
    proof {
        assert(s.take(0) =~= Seq::<char>::empty());
    }
    while i < n && offset < cursor
        invariant
            n == chars@.len(),
            chars@ == s,
            n <= usize::MAX / 4,
            i <= n,
            offset == utf8_len(s.take(i as int)),
            offset <= 4 * i,
            cap == cursor,
            cols == prefix_width(s, i as int),
            cols <= 3 * i,
            chars_starting_before(s, cap, i as int) == chars_starting_before(s, cap, 0),
        decreases n - i,
    {
        proof {
            assert(s.take(i + 1).drop_last() =~= s.take(i as int));
        }
        let c = chars[i];
        let w = match char_width(c) {
            Some(w) => w,
            None => 0,
        };
        let b: u128 = if (c as u32) < 0x80 {
            1
        } else if (c as u32) < 0x800 {
            2
        } else if (c as u32) < 0x10000 {
            3
        } else {
            4
        };
        proof {
            assert(b == char_utf8_len(c));
        }
        offset = offset + b;
        cols = cols + w;
        i = i + 1;
    }
    cols
}

/// The index of the first character, from `i` on, that would take the
/// leading characters of `s` past `max` columns (`s.len()` if none does).
pub open spec fn fit_count(s: Seq<char>, i: int, max: nat) -> int
    decreases s.len() - i,
{
    if 0 <= i < s.len() && prefix_width(s, i + 1) <= max {
        fit_count(s, i + 1, max)
    } else {
        i
    }
}

/// The longest prefix of `text` that fits in `max_cols` columns, fitted
/// character by character: its length in bytes and the columns it takes.
/// This is the cell-grid measure that UI chrome falls back to when no
/// shaped font is at hand, with the pixel budget already turned into
/// whole cells.
pub fn prefix_fit_cols(text: &str, max_cols: usize) -> (r: (usize, usize))
    requires
        text@.len() <= usize::MAX / 4,
    ensures
        ({
            let k = fit_count(text@, 0, max_cols as nat);
            r.0 == utf8_len(text@.take(k)) && r.1 == prefix_width(text@, k)
        }),
{
    let chars = chars_of(text);
    let n = chars.len();
    let ghost s = text@;
    let mut col: usize = 0;
    let mut bytes: usize = 0;
    let mut i: usize = 0;
    proof {
        assert(s.take(0) =~= Seq::<char>::empty());
    }
    while i < n
        invariant
            n == chars@.len(),
            chars@ == s,
            s == text@,
            n <= usize::MAX / 4,
            i <= n,
            col == prefix_width(s, i as int),
            col <= max_cols,
            bytes == utf8_len(s.take(i as int)),
            bytes <= 4 * i,
            fit_count(s, i as int, max_cols as nat) == fit_count(s, 0, max_cols as nat),
        decreases n - i,
    {
        let c = chars[i];
        let w = match char_width(c) {
            Some(w) => w,
            None => 0,
        };
        if w > max_cols - col {
            return (bytes, col);
        }
        let b: usize = if (c as u32) < 0x80 {
            1
        } else if (c as u32) < 0x800 {
            2
        } else if (c as u32) < 0x10000 {
            3
        } else {
            4
        };
        proof {
            assert(s.take(i + 1).drop_last() =~= s.take(i as int));
            assert(b == char_utf8_len(c));
        }
        bytes = bytes + b;
        col = col + w;
        i = i + 1;
    }
    (bytes, col)
}

} // verus!
