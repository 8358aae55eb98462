//! Queries on one buffer row under the pointer: the word (a run of cells
//! of one class) and the web link at a column.

use vstd::prelude::*;
use crate::grid::{is_spacer, ClientPaneGrid, PackedCell, FLAG_WIDE_CHAR_SPACER};
use crate::text::{is_alnum, is_ws, string_of, whitespace};

verus! {

/// Whether `c` is alphabetic or numeric in Unicode (`char::is_alphanumeric`).
pub uninterp spec fn unicode_alphanumeric(c: char) -> bool;

/// `char::is_alphanumeric`. Beside the name: among ASCII characters,
/// exactly the letters and digits are alphanumeric.
#[verifier::external_body]
fn alphanumeric(c: char) -> (r: bool)
    ensures
        r == unicode_alphanumeric(c),
        c < '\u{80}' ==> r == is_alnum(c),
{
    c.is_alphanumeric()
}

/// Cell `i` begins a character: the first cell of the row, or any cell
/// that is not the spacer half of a wide character.
pub open spec fn is_cell_start(r: Seq<PackedCell>, i: int) -> bool {
    0 <= i < r.len() && (i == 0 || !is_spacer(r[i]))
}

/// `p` is the start of the character just before column `i`.
pub open spec fn is_prev_start(r: Seq<PackedCell>, p: int, i: int) -> bool {
    &&& is_cell_start(r, p)
    &&& p < i
    &&& forall|q: int| p < q < i ==> !#[trigger] is_cell_start(r, q)
}

/// `s` is the start of the character that covers column `c`.
pub open spec fn is_start_covering(r: Seq<PackedCell>, c: int, s: int) -> bool {
    &&& is_cell_start(r, s)
    &&& s <= c
    &&& forall|q: int| s < q <= c ==> !#[trigger] is_cell_start(r, q)
}

/// The last column of the character starting at `i`: `i` and the spacer
/// cells that follow it.
pub open spec fn cell_end_of(r: Seq<PackedCell>, i: int) -> int
    decreases r.len() - i,
{
    if 0 <= i && i + 1 < r.len() && is_spacer(r[i + 1]) {
        cell_end_of(r, i + 1)
    } else {
        i
    }
}

/// The kinds of cells that a double click selects together.
#[derive(Clone, Copy, PartialEq, Eq, Structural)]
pub enum WordClass {
    Whitespace,
    Word,
    Symbol,
}

pub open spec fn word_class(c: PackedCell) -> WordClass {
    if c.ch == '\0' || is_ws(c.ch) {
        WordClass::Whitespace
    } else if unicode_alphanumeric(c.ch) || c.ch == '_' {
        WordClass::Word
    } else {
        WordClass::Symbol
    }
}

/// `[l, e]` is the run of characters of the class of the character starting
/// at `idx`: it starts at a character, every character in it has that
/// class, and the characters just before and just after it (where there
/// are any) have another class.
pub open spec fn is_word_span(r: Seq<PackedCell>, idx: int, l: int, e: int) -> bool {
    let cls = word_class(r[idx]);
    &&& is_cell_start(r, idx)
    &&& is_cell_start(r, l)
    &&& l <= idx <= e < r.len()
    &&& forall|t: int| l <= t <= e && #[trigger] is_cell_start(r, t) ==> word_class(r[t]) == cls
    &&& forall|p: int| #[trigger] is_prev_start(r, p, l) ==> word_class(r[p]) != cls
    &&& e + 1 < r.len() ==> !is_spacer(r[e + 1]) && word_class(r[e + 1]) != cls
}

/// The column the pointer is taken to be at: `col`, or the last cell of a
/// row narrower than that.
pub open spec fn clamp_col(r: Seq<PackedCell>, col: u16) -> int {
    if col < r.len() {
        col as int
    } else {
        r.len() - 1
    }
}

/// A word span is determined by the character it is asked about.
pub proof fn lemma_word_span_unique(r: Seq<PackedCell>, idx: int, l1: int, e1: int, l2: int, e2: int)
    requires
        is_word_span(r, idx, l1, e1),
        is_word_span(r, idx, l2, e2),
    ensures
        l1 == l2,
        e1 == e2,
{
    if l1 < l2 {
        lemma_prev_start_exists(r, l2);
        let p = choose|p: int| #[trigger] is_prev_start(r, p, l2);
        assert(is_cell_start(r, l1));
        assert(l1 <= p);
        assert(word_class(r[p]) == word_class(r[idx]));
    }
    if l2 < l1 {
        lemma_prev_start_exists(r, l1);
        let p = choose|p: int| #[trigger] is_prev_start(r, p, l1);
        assert(is_cell_start(r, l2));
        assert(l2 <= p);
        assert(word_class(r[p]) == word_class(r[idx]));
    }
    if e1 < e2 {
        assert(is_cell_start(r, e1 + 1));
    }
    if e2 < e1 {
        assert(is_cell_start(r, e2 + 1));
    }
}

/// Every column after the first has a character start before it.
pub proof fn lemma_prev_start_exists(r: Seq<PackedCell>, i: int)
    requires
        0 < i <= r.len(),
    ensures
        exists|p: int| #[trigger] is_prev_start(r, p, i),
    decreases i,
{
    if is_cell_start(r, i - 1) {
        assert(is_prev_start(r, i - 1, i));
    } else {
        lemma_prev_start_exists(r, i - 1);
        let p = choose|p: int| #[trigger] is_prev_start(r, p, i - 1);
        assert(is_prev_start(r, p, i));
    }
}

fn classify_word_cell(cell: &PackedCell) -> (r: WordClass)
    ensures
        r == word_class(*cell),
{
    let ch = cell.ch;
    if ch == '\0' || whitespace(ch) {
        WordClass::Whitespace
    } else if alphanumeric(ch) || ch == '_' {
        WordClass::Word
    } else {
        WordClass::Symbol
    }
}

fn spacer_at(row: &Vec<PackedCell>, i: usize) -> (r: bool)
    requires
        i < row@.len(),
    ensures
        r == is_spacer(row@[i as int]),
{
    row[i].flags & FLAG_WIDE_CHAR_SPACER != 0
}

/// The start of the character covering column `idx`.
fn normalize_cell_start(row: &Vec<PackedCell>, idx: usize) -> (r: usize)
    requires
        idx < row@.len(),
    ensures
        is_start_covering(row@, idx as int, r as int),
{
    let mut i = idx;
    while i > 0 && spacer_at(row, i)
        invariant
            i <= idx < row@.len(),
            forall|q: int| i < q <= idx ==> !#[trigger] is_cell_start(row@, q),
        decreases i,
    {
        i = i - 1;
    }
    i
}

/// The start of the character before the one starting at `idx`, if any.
fn prev_cell_start(row: &Vec<PackedCell>, idx: usize) -> (r: Option<usize>)
    requires
        idx < row@.len(),
    ensures
        r is None <==> idx == 0,
        r matches Some(p) ==> is_prev_start(row@, p as int, idx as int),
{
    if idx == 0 {
        return None;
    }
    Some(normalize_cell_start(row, idx - 1))
}

/// The last column of the character starting at `idx`.
fn cell_end(row: &Vec<PackedCell>, idx: usize) -> (r: usize)
    requires
        idx < row@.len(),
    ensures
        r == cell_end_of(row@, idx as int),
        idx <= r < row@.len(),
        forall|q: int| idx < q <= r ==> is_spacer(#[trigger] row@[q]),
        r + 1 < row@.len() ==> !is_spacer(row@[r + 1]),
{
    let n = row.len();
    let mut i = idx;
    while i + 1 < n && spacer_at(row, i + 1)
        invariant
            n == row@.len(),
            idx <= i < n,
            cell_end_of(row@, i as int) == cell_end_of(row@, idx as int),
            forall|q: int| idx < q <= i ==> is_spacer(#[trigger] row@[q]),
        decreases row@.len() - i,
    {
        i = i + 1;
    }
    i
}

/// The start of the character after the one starting at `idx`, if any.
fn next_cell_start(row: &Vec<PackedCell>, idx: usize) -> (r: Option<usize>)
    requires
        idx < row@.len(),
    ensures
        r matches Some(n) ==> n == cell_end_of(row@, idx as int) + 1 && idx < n < row@.len()
            && is_cell_start(row@, n as int) && forall|q: int|
            idx < q < n ==> !#[trigger] is_cell_start(row@, q),
        r is None ==> forall|q: int| idx < q < row@.len() ==> !#[trigger] is_cell_start(row@, q),
{
    let n = row.len();
    let end = cell_end(row, idx);
    if end + 1 < n {
        Some(end + 1)
    } else {
        None
    }
}

impl ClientPaneGrid {
    /// The columns `(first, last)` of the word under column `col` of buffer
    /// row `buffer_row`: the run of characters of the same class (white
    /// space, word characters, other symbols) around the character there.
    /// `None` past the end of the buffer or on an empty row.
    pub fn word_bounds_at(&self, col: u16, buffer_row: usize) -> (r: Option<(u16, u16)>)
        requires
            self.wf(),
        ensures
            r is None <==> buffer_row >= self.history().len() + self.rows || self.row_spec(
                buffer_row as int,
            ).len() == 0,
            r matches Some((a, b)) ==> exists|idx: int, l: int, e: int|
                is_start_covering(
                    self.row_spec(buffer_row as int),
                    clamp_col(self.row_spec(buffer_row as int), col),
                    idx,
                ) && is_word_span(self.row_spec(buffer_row as int), idx, l, e) && a == l as u16 && b
                    == e as u16,
    {
        if buffer_row >= self.buffer_len() {
            return None;
        }
        let row = self.row(buffer_row);
        if row.len() == 0 {
            return None;
        }
        let ghost rs = row@;
        let last = row.len() - 1;
        let c = if (col as usize) < last {
            col as usize
        } else {
            last
        };
        let idx = normalize_cell_start(&row, c);
        let class = classify_word_cell(&row[idx]);
        let mut left = idx;
        loop
            invariant
                rs == row@,
                idx < rs.len(),
                class == word_class(rs[idx as int]),
                is_cell_start(rs, left as int),
                left <= idx,
                forall|t: int|
                    left <= t <= idx && #[trigger] is_cell_start(rs, t) ==> word_class(rs[t])
                        == class,
            ensures
                is_cell_start(rs, left as int),
                left <= idx,
                forall|t: int|
                    left <= t <= idx && #[trigger] is_cell_start(rs, t) ==> word_class(rs[t])
                        == class,
                forall|p: int| #[trigger] is_prev_start(rs, p, left as int) ==> word_class(rs[p]) != class,
            decreases left,
        {
            match prev_cell_start(&row, left) {
                None => {
                    break ;
                },
                Some(prev) => {
                    if classify_word_cell(&row[prev]) != class {
                        proof {
                            assert forall|p: int| #[trigger] is_prev_start(rs, p, left as int) implies word_class(
                                rs[p],
                            ) != class by {
                                if p < prev {
                                    assert(!is_cell_start(rs, prev as int));
                                }
                                if p > prev {
                                    assert(!is_cell_start(rs, p));
                                }
                            }
                        }
                        break ;
                    }
                    left = prev;
                },
            }
        }
        let mut right = idx;
        loop
            invariant
                rs == row@,
                idx < rs.len(),
                class == word_class(rs[idx as int]),
                is_cell_start(rs, right as int),
                idx <= right,
                forall|t: int|
                    idx <= t <= right && #[trigger] is_cell_start(rs, t) ==> word_class(rs[t])
                        == class,
            ensures
                is_cell_start(rs, right as int),
                idx <= right,
                forall|t: int|
                    idx <= t <= right && #[trigger] is_cell_start(rs, t) ==> word_class(rs[t])
                        == class,
                forall|q: int|
                    right < q < rs.len() && #[trigger] is_cell_start(rs, q) ==> (forall|u: int|
                        right < u < q ==> !#[trigger] is_cell_start(rs, u)) ==> word_class(rs[q])
                        != class,
            decreases rs.len() - right,
        {
            match next_cell_start(&row, right) {
                None => {
                    break ;
                },
                Some(next) => {
                    if classify_word_cell(&row[next]) != class {
                        proof {
                            assert forall|q: int|
                                right < q < rs.len() && #[trigger] is_cell_start(rs, q) implies (forall|
                                u: int,
                            |
                                right < u < q ==> !#[trigger] is_cell_start(rs, u)) ==> word_class(
                                rs[q],
                            ) != class by {
                                if q > next {
                                    assert(is_cell_start(rs, next as int));
                                }
                            }
                        }
                        break ;
                    }
                    right = next;
                },
            }
        }
        let end = cell_end(&row, right);
        proof {
            if end + 1 < rs.len() {
                assert(is_cell_start(rs, end + 1));
                assert forall|u: int| right < u < end + 1 implies !#[trigger] is_cell_start(rs, u) by {
                    assert(is_spacer(rs[u]));
                }
            }
            assert forall|t: int| left <= t <= end && #[trigger] is_cell_start(rs, t) implies word_class(
                rs[t],
            ) == class by {
                if t > right {
                    assert(is_spacer(rs[t]));
                }
            }
            assert(is_word_span(rs, idx as int, left as int, end as int));
        }
        Some((left as u16, end as u16))
    }
}


/// One visible character of a row: the columns it covers and the character.
#[derive(Clone, Copy)]
pub struct RowChar {
    pub start_col: u16,
    pub end_col: u16,
    pub ch: char,
}

/// A web link found in the text of a row.
#[derive(Debug, Clone, PartialEq, Eq)]
pub struct LinkMatch {
    pub url: String,
    pub start_col: u16,
    pub end_col: u16,
}

/// The visible characters among the first `j` cells of `r`: every cell
/// that is not a wide-character spacer and holds a character, with the
/// columns its character covers.
pub open spec fn row_chars_upto(r: Seq<PackedCell>, j: int) -> Seq<RowChar>
    decreases j,
{
    if j <= 0 || j > r.len() {
        Seq::empty()
    } else {
        row_chars_upto(r, j - 1) + if is_spacer(r[j - 1]) || r[j - 1].ch == '\0' {
            Seq::empty()
        } else {
            seq![RowChar { start_col: (j - 1) as u16, end_col: cell_end_of(r, j - 1) as u16, ch: r[j - 1].ch }]
        }
    }
}

pub open spec fn row_chars_of(r: Seq<PackedCell>) -> Seq<RowChar> {
    row_chars_upto(r, r.len() as int)
}

pub open spec fn covers(c: RowChar, col: u16) -> bool {
    c.start_col <= col && col <= c.end_col
}

/// The first character at index `i` or later that covers `col`
/// (`chars.len()` if there is none).
pub open spec fn first_covering(chars: Seq<RowChar>, col: u16, i: int) -> int
    decreases chars.len() - i,
{
    if i < 0 || i >= chars.len() {
        chars.len() as int
    } else if covers(chars[i], col) {
        i
    } else {
        first_covering(chars, col, i + 1)
    }
}

/// The first index of the run of non-white-space characters that reaches
/// index `t` from the left.
pub open spec fn run_start(chars: Seq<RowChar>, t: int) -> int
    decreases t,
{
    if 0 < t <= chars.len() && !is_ws(chars[t - 1].ch) {
        run_start(chars, t - 1)
    } else {
        t
    }
}

/// The last index of the run of non-white-space characters that reaches
/// index `t` from the right.
pub open spec fn run_end(chars: Seq<RowChar>, t: int) -> int
    decreases chars.len() - t,
{
    if 0 <= t && t + 1 < chars.len() && !is_ws(chars[t + 1].ch) {
        run_end(chars, t + 1)
    } else {
        t
    }
}

pub open spec fn is_leading_punct(c: char) -> bool {
    c == '(' || c == '[' || c == '{' || c == '<' || c == '"' || c == '\''
}

pub open spec fn is_trailing_punct(c: char) -> bool {
    c == '.' || c == ',' || c == ';' || c == ':' || c == '!' || c == '?' || c == ')' || c == ']'
        || c == '}' || c == '>' || c == '"' || c == '\''
}

/// `s` moved right past opening punctuation, not beyond `e + 1`.
pub open spec fn skip_leading(chars: Seq<RowChar>, s: int, e: int) -> int
    decreases e + 1 - s,
{
    if 0 <= s && s <= e && e < chars.len() && is_leading_punct(chars[s].ch) {
        skip_leading(chars, s + 1, e)
    } else {
        s
    }
}

/// `e` moved left past closing punctuation, not below `s - 1`.
pub open spec fn skip_trailing(chars: Seq<RowChar>, s: int, e: int) -> int
    decreases e + 1 - s,
{
    if 0 <= s && s <= e && e < chars.len() && is_trailing_punct(chars[e].ch) {
        skip_trailing(chars, s, e - 1)
    } else {
        e
    }
}

pub open spec fn ascii_lower(c: char) -> char {
    if 'A' <= c && c <= 'Z' {
        ((c as u32) + 32) as char
    } else {
        c
    }
}

/// `t` begins with `p`, ASCII letters compared without case.
pub open spec fn has_prefix_ci(t: Seq<char>, p: Seq<char>) -> bool {
    p.len() <= t.len() && forall|k: int| 0 <= k < p.len() ==> ascii_lower(#[trigger] t[k]) == p[k]
}

pub open spec fn alnum_from(t: Seq<char>, k: int) -> bool {
    exists|j: int| k <= j < t.len() && unicode_alphanumeric(#[trigger] t[j])
}

pub open spec fn https_prefix() -> Seq<char> {
    seq!['h', 't', 't', 'p', 's', ':', '/', '/']
}

pub open spec fn http_prefix() -> Seq<char> {
    seq!['h', 't', 't', 'p', ':', '/', '/']
}

pub open spec fn www_prefix() -> Seq<char> {
    seq!['w', 'w', 'w', '.']
}

/// The link a token stands for: a `http://` or `https://` token as it is,
/// a `www.` token with `https://` put in front, provided something
/// alphanumeric follows the prefix.
pub open spec fn normalize_link(t: Seq<char>) -> Option<Seq<char>> {
    if has_prefix_ci(t, https_prefix()) {
        if alnum_from(t, 8) {
            Some(t)
        } else {
            None
        }
    } else if has_prefix_ci(t, http_prefix()) {
        if alnum_from(t, 7) {
            Some(t)
        } else {
            None
        }
    } else if has_prefix_ci(t, www_prefix()) {
        if alnum_from(t, 4) {
            Some(https_prefix() + t)
        } else {
            None
        }
    } else {
        None
    }
}

pub open spec fn token_text(chars: Seq<RowChar>, s: int, e: int) -> Seq<char> {
    chars.subrange(s, e + 1).map_values(|c: RowChar| c.ch)
}

/// The link under column `col` of row `r`: the run of non-white-space
/// characters around the character there, without opening and closing
/// punctuation, if the character is still inside it and the run is a web
/// link; its URL and first and last column.
pub open spec fn link_spec(r: Seq<PackedCell>, col: u16) -> Option<(Seq<char>, u16, u16)> {
    let chars = row_chars_of(r);
    let t = first_covering(chars, col, 0);
    if t >= chars.len() {
        None
    } else {
        let s = skip_leading(chars, run_start(chars, t), run_end(chars, t));
        let e = skip_trailing(chars, s, run_end(chars, t));
        if s > e || t < s || t > e {
            None
        } else {
            match normalize_link(token_text(chars, s, e)) {
                None => None,
                Some(url) => Some((url, chars[s].start_col, chars[e].end_col)),
            }
        }
    }
}

fn row_chars(row: &Vec<PackedCell>) -> (r: Vec<RowChar>)
    ensures
        r@ == row_chars_of(row@),
{
    let n = row.len();
    let mut out: Vec<RowChar> = Vec::new();
    let mut idx: usize = 0;
    while idx < n
        invariant
            n == row@.len(),
            idx <= n,
            out@ == row_chars_upto(row@, idx as int),
        decreases n - idx,
    {
        if !spacer_at(row, idx) && row[idx].ch != '\0' {
            let end = cell_end(row, idx);
            out.push(RowChar { start_col: idx as u16, end_col: end as u16, ch: row[idx].ch });
        }
        idx = idx + 1;
    }
    out
}

fn leading_punct(c: char) -> (r: bool)
    ensures
        r == is_leading_punct(c),
{
    c == '(' || c == '[' || c == '{' || c == '<' || c == '"' || c == '\''
}

fn trailing_punct(c: char) -> (r: bool)
    ensures
        r == is_trailing_punct(c),
{
    c == '.' || c == ',' || c == ';' || c == ':' || c == '!' || c == '?' || c == ')' || c == ']'
        || c == '}' || c == '>' || c == '"' || c == '\''
}

/// The token `[start, end]` without opening and closing punctuation, or
/// `None` when nothing is left.
fn trim_link_token(chars: &Vec<RowChar>, start: usize, end: usize) -> (r: Option<(usize, usize)>)
    requires
        start <= end < chars@.len(),
    ensures
        ({
            let s = skip_leading(chars@, start as int, end as int);
            let e = skip_trailing(chars@, s, end as int);
            match r {
                None => s > e,
                Some((a, b)) => s <= e && a == s && b == e,
            }
        }),
        r matches Some((a, b)) ==> start <= a <= b <= end,
{
    let n = chars.len();
    let mut s = start;
    while s <= end && leading_punct(chars[s].ch)
        invariant
            start <= s <= end + 1,
            end < n,
            n == chars@.len(),
            skip_leading(chars@, s as int, end as int) == skip_leading(chars@, start as int, end as int),
        decreases end + 1 - s,
    {
        s = s + 1;
    }
    let mut e = end;
    while s <= e && trailing_punct(chars[e].ch)
        invariant
            e <= end < chars@.len(),
            start <= s,
            s == skip_leading(chars@, start as int, end as int),
            skip_trailing(chars@, s as int, e as int) == skip_trailing(chars@, s as int, end as int),
        decreases e,
    {
        if e == 0 {
            proof {
                assert(skip_trailing(chars@, s as int, -1) == -1);
                assert(skip_trailing(chars@, s as int, 0) == -1);
            }
            return None;
        }
        e = e - 1;
    }
    if s > e {
        None
    } else {
        Some((s, e))
    }
}

fn lower_ascii(c: char) -> (r: char)
    ensures
        r == ascii_lower(c),
{
    if 'A' <= c && c <= 'Z' {
        ((c as u8) + 32) as char
    } else {
        c
    }
}

fn prefix_ci(t: &Vec<char>, p: &Vec<char>) -> (r: bool)
    ensures
        r == has_prefix_ci(t@, p@),
{
    if p.len() > t.len() {
        return false;
    }
    let mut k: usize = 0;
    while k < p.len()
        invariant
            p@.len() <= t@.len(),
            k <= p@.len(),
            forall|j: int| 0 <= j < k ==> ascii_lower(#[trigger] t@[j]) == p@[j],
        decreases p@.len() - k,
    {
        if lower_ascii(t[k]) != p[k] {
            return false;
        }
        k = k + 1;
    }
    true
}

fn any_alnum_from(t: &Vec<char>, start: usize) -> (r: bool)
    ensures
        r == alnum_from(t@, start as int),
{
    let mut k = start;
    while k < t.len()
        invariant
            start <= k,
            forall|j: int| start <= j < k && j < t@.len() ==> !unicode_alphanumeric(#[trigger] t@[j]),
        decreases t@.len() - k,
    {
        if alphanumeric(t[k]) {
            return true;
        }
        k = k + 1;
    }
    false
}

fn normalize_link_token(t: &Vec<char>) -> (r: Option<Vec<char>>)
    ensures
        match r {
            None => normalize_link(t@) is None,
            Some(u) => normalize_link(t@) == Some(u@),
        },
{
    let https = vec!['h', 't', 't', 'p', 's', ':', '/', '/'];
    let http = vec!['h', 't', 't', 'p', ':', '/', '/'];
    let www = vec!['w', 'w', 'w', '.'];
    proof {
        assert(https@ =~= https_prefix());
        assert(http@ =~= http_prefix());
        assert(www@ =~= www_prefix());
    }
    if prefix_ci(t, &https) {
        if any_alnum_from(t, 8) {
            Some(t.clone())
        } else {
            None
        }
    } else if prefix_ci(t, &http) {
        if any_alnum_from(t, 7) {
            Some(t.clone())
        } else {
            None
        }
    } else if prefix_ci(t, &www) {
        if any_alnum_from(t, 4) {
            let mut url = https;
            let mut k: usize = 0;
            while k < t.len()
                invariant
                    k <= t@.len(),
                    url@ == https_prefix() + t@.take(k as int),
                decreases t@.len() - k,
            {
                url.push(t[k]);
                proof {
                    assert(t@.take(k + 1) =~= t@.take(k as int).push(t@[k as int]));
                }
                k = k + 1;
            }
            proof {
                assert(t@.take(t@.len() as int) =~= t@);
            }
            Some(url)
        } else {
            None
        }
    } else {
        None
    }
}

impl ClientPaneGrid {
    /// The web link under column `col` of buffer row `buffer_row`, if the
    /// character there belongs to one (see `link_spec`).
    pub fn link_at(&self, col: u16, buffer_row: usize) -> (r: Option<LinkMatch>)
        requires
            self.wf(),
        ensures
            match r {
                None => link_spec(self.row_spec(buffer_row as int), col) is None,
                Some(m) => link_spec(self.row_spec(buffer_row as int), col) == Some(
                    (m.url@, m.start_col, m.end_col),
                ),
            },
    {
        let row = self.row(buffer_row);
        let chars = row_chars(&row);
        let n = chars.len();
        let ghost cs = chars@;
        let mut t: usize = 0;
        while t < n && !(chars[t].start_col <= col && col <= chars[t].end_col)
            invariant
                n == cs.len(),
                cs == chars@,
                t <= n,
                first_covering(cs, col, t as int) == first_covering(cs, col, 0),
            decreases n - t,
        {
            t = t + 1;
        }
        if t >= n {
            return None;
        }
        let mut s = t;
        while s > 0 && !whitespace(chars[s - 1].ch)
            invariant
                s <= t < n,
                cs == chars@,
                n == cs.len(),
                run_start(cs, s as int) == run_start(cs, t as int),
            decreases s,
        {
            s = s - 1;
        }
        let mut e = t;
        while e + 1 < n && !whitespace(chars[e + 1].ch)
            invariant
                t <= e < n,
                cs == chars@,
                n == cs.len(),
                run_end(cs, e as int) == run_end(cs, t as int),
            decreases n - e,
        {
            e = e + 1;
        }
        let (s2, e2) = match trim_link_token(&chars, s, e) {
            None => {
                return None;
            },
            Some(p) => p,
        };
        if t < s2 || t > e2 {
            return None;
        }
        let mut token: Vec<char> = Vec::new();
        let mut k = s2;
        while k <= e2
            invariant
                s2 <= k <= e2 + 1,
                e2 < n,
                cs == chars@,
                n == cs.len(),
                token@ == token_text(cs, s2 as int, k - 1),
            decreases e2 + 1 - k,
        {
            token.push(chars[k].ch);
            proof {
                assert(token_text(cs, s2 as int, k as int) =~= token_text(cs, s2 as int, k - 1).push(
                    cs[k as int].ch,
                ));
            }
            k = k + 1;
        }
        match normalize_link_token(&token) {
            None => None,
            Some(url) => Some(
                LinkMatch { url: string_of(&url), start_col: chars[s2].start_col, end_col: chars[e2].end_col },
            ),
        }
    }
}

} // verus!
