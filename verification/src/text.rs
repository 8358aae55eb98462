//! Character-level helpers shared by the validators and formatters.
//!
//! Strings are handled as sequences of `char`s (`Seq<char>` in specs,
//! `Vec<char>` in code); byte lengths are the UTF-8 encoded lengths.

use vstd::prelude::*;
use vstd::string::StrSliceExecFns;

verus! {

/// ASCII decimal digit (`char::is_ascii_digit`).
pub open spec fn is_digit(c: char) -> bool {
    '0' <= c && c <= '9'
}

/// ASCII letter (`char::is_ascii_alphabetic`).
pub open spec fn is_alpha(c: char) -> bool {
    ('a' <= c && c <= 'z') || ('A' <= c && c <= 'Z')
}

/// ASCII letter or digit (`char::is_ascii_alphanumeric`).
pub open spec fn is_alnum(c: char) -> bool {
    is_alpha(c) || is_digit(c)
}

/// Characters carrying the Unicode `White_Space` property
/// (what `char::is_whitespace` tests).
pub open spec fn is_ws(c: char) -> bool {
    ('\u{9}' <= c && c <= '\u{d}') || c == ' ' || c == '\u{85}' || c == '\u{a0}'
        || c == '\u{1680}' || ('\u{2000}' <= c && c <= '\u{200a}') || c == '\u{2028}'
        || c == '\u{2029}' || c == '\u{202f}' || c == '\u{205f}' || c == '\u{3000}'
}

pub fn digit(c: char) -> (r: bool)
    ensures
        r == is_digit(c),
{
    '0' <= c && c <= '9'
}

pub fn alnum(c: char) -> (r: bool)
    ensures
        r == is_alnum(c),
{
    ('a' <= c && c <= 'z') || ('A' <= c && c <= 'Z') || ('0' <= c && c <= '9')
}

pub fn whitespace(c: char) -> (r: bool)
    ensures
        r == is_ws(c),
{
    ('\u{9}' <= c && c <= '\u{d}') || c == ' ' || c == '\u{85}' || c == '\u{a0}'
        || c == '\u{1680}' || ('\u{2000}' <= c && c <= '\u{200a}') || c == '\u{2028}'
        || c == '\u{2029}' || c == '\u{202f}' || c == '\u{205f}' || c == '\u{3000}'
}

/// Number of bytes `c` takes in UTF-8 (`char::len_utf8`).
pub open spec fn char_utf8_len(c: char) -> nat {
    if (c as u32) < 0x80 {
        1
    } else if (c as u32) < 0x800 {
        2
    } else if (c as u32) < 0x10000 {
        3
    } else {
        4
    }
}

/// Number of bytes `s` takes in UTF-8 (what `str::len` returns).
pub open spec fn utf8_len(s: Seq<char>) -> nat
    decreases s.len(),
{
    if s.len() == 0 {
        0
    } else {
        utf8_len(s.drop_last()) + char_utf8_len(s.last())
    }
}

pub proof fn lemma_utf8_len_ge_len(s: Seq<char>)
    ensures
        utf8_len(s) >= s.len(),
        utf8_len(s) <= 4 * s.len(),
    decreases s.len(),
{
    if s.len() > 0 {
        lemma_utf8_len_ge_len(s.drop_last());
    }
}

pub fn utf8_len_of(s: &Vec<char>) -> (n: usize)
    requires
        s.len() <= usize::MAX / 4,
    ensures
        n == utf8_len(s@),
{
    let mut n: usize = 0;
    let mut i: usize = 0;
    while i < s.len()
        invariant
            i <= s.len(),
            s.len() <= usize::MAX / 4,
            n == utf8_len(s@.take(i as int)),
            n <= 4 * i,
        decreases s.len() - i,
    {
        let c = s[i];
        let w: usize = if (c as u32) < 0x80 {
            1
        } else if (c as u32) < 0x800 {
            2
        } else if (c as u32) < 0x10000 {
            3
        } else {
            4
        };
        proof {
            assert(s@.take(i + 1).drop_last() =~= s@.take(i as int));
        }
        n = n + w;
        i = i + 1;
    }
    proof {
        assert(s@.take(s.len() as int) =~= s@);
    }
    n
}

/// Number of leading white-space characters of `s`.
pub open spec fn lead_ws(s: Seq<char>) -> nat
    decreases s.len(),
{
    if s.len() == 0 || !is_ws(s[0]) {
        0
    } else {
        1 + lead_ws(s.drop_first())
    }
}

/// Number of trailing white-space characters of `s`.
pub open spec fn trail_ws(s: Seq<char>) -> nat
    decreases s.len(),
{
    if s.len() == 0 || !is_ws(s.last()) {
        0
    } else {
        1 + trail_ws(s.drop_last())
    }
}

/// `s` without its leading and trailing white space (`str::trim`).
pub open spec fn trim(s: Seq<char>) -> Seq<char> {
    let t = s.skip(lead_ws(s) as int);
    t.take(t.len() - trail_ws(t))
}

proof fn lemma_lead_ws_bound(s: Seq<char>)
    ensures
        lead_ws(s) <= s.len(),
    decreases s.len(),
{
    if s.len() > 0 && is_ws(s[0]) {
        lemma_lead_ws_bound(s.drop_first());
    }
}

proof fn lemma_trail_ws_bound(s: Seq<char>)
    ensures
        trail_ws(s) <= s.len(),
    decreases s.len(),
{
    if s.len() > 0 && is_ws(s.last()) {
        lemma_trail_ws_bound(s.drop_last());
    }
}

/// The whole of `s` is white space exactly when nothing survives trimming.
pub proof fn lemma_trim_props(s: Seq<char>)
    ensures
        trim(s).len() <= s.len(),
        trim(s).len() > 0 ==> !is_ws(trim(s)[0]) && !is_ws(trim(s).last()),
{
    lemma_lead_ws_bound(s);
    let t = s.skip(lead_ws(s) as int);
    lemma_trail_ws_bound(t);
    if trim(s).len() > 0 {
        lemma_lead_stop(s);
        lemma_trail_stop(t);
        assert(trim(s)[0] == s[lead_ws(s) as int]);
        assert(trim(s).last() == t[t.len() - trail_ws(t) - 1]);
    }
}

/// A string that does not trim to nothing begins with white space or with
/// the first character of its trimmed form.
pub proof fn lemma_trim_first(s: Seq<char>)
    ensures
        trim(s).len() > 0 ==> is_ws(s[0]) || s[0] == trim(s)[0],
{
    lemma_lead_ws_bound(s);
    lemma_lead_stop(s);
    if trim(s).len() > 0 && lead_ws(s) == 0 {
        let t = s.skip(0);
        assert(t =~= s);
        lemma_trail_ws_bound(t);
        assert(trim(s) == t.take(t.len() - trail_ws(t)));
        assert(trim(s)[0] == t[0]);
    }
}

proof fn lemma_lead_stop(s: Seq<char>)
    ensures
        lead_ws(s) < s.len() ==> !is_ws(s[lead_ws(s) as int]),
        forall|k: int| 0 <= k < lead_ws(s) ==> #[trigger] is_ws(s[k]),
    decreases s.len(),
{
    lemma_lead_ws_bound(s);
    if s.len() > 0 && is_ws(s[0]) {
        lemma_lead_stop(s.drop_first());
        lemma_lead_ws_bound(s.drop_first());
        assert forall|k: int| 0 <= k < lead_ws(s) implies #[trigger] is_ws(s[k]) by {
            if k > 0 {
                assert(s[k] == s.drop_first()[k - 1]);
            }
        }
    }
}

proof fn lemma_trail_stop(s: Seq<char>)
    ensures
        trail_ws(s) < s.len() ==> !is_ws(s[s.len() - trail_ws(s) - 1]),
        forall|k: int| s.len() - trail_ws(s) <= k < s.len() ==> #[trigger] is_ws(s[k]),
    decreases s.len(),
{
    lemma_trail_ws_bound(s);
    if s.len() > 0 && is_ws(s.last()) {
        lemma_trail_stop(s.drop_last());
        lemma_trail_ws_bound(s.drop_last());
        assert forall|k: int| s.len() - trail_ws(s) <= k < s.len() implies #[trigger] is_ws(s[k]) by {
            if k < s.len() - 1 {
                assert(s[k] == s.drop_last()[k]);
            }
        }
    }
}

proof fn lemma_lead_step(s: Seq<char>, i: int)
    requires
        0 <= i < s.len(),
        is_ws(s[i]),
    ensures
        lead_ws(s.skip(i)) == 1 + lead_ws(s.skip(i + 1)),
{
    assert(s.skip(i).drop_first() =~= s.skip(i + 1));
}

proof fn lemma_trail_step(s: Seq<char>, j: int)
    requires
        0 < j <= s.len(),
        is_ws(s[j - 1]),
    ensures
        trail_ws(s.take(j)) == 1 + trail_ws(s.take(j - 1)),
{
    assert(s.take(j).drop_last() =~= s.take(j - 1));
}

/// The characters of `s`.
pub fn chars_of(s: &str) -> (v: Vec<char>)
    ensures
        v@ == s@,
{
    let n = s.unicode_len();
    let mut v: Vec<char> = Vec::new();
    let mut i: usize = 0;
    while i < n
        invariant
            n == s@.len(),
            i <= n,
            v@ == s@.take(i as int),
        decreases n - i,
    {
        v.push(s.get_char(i));
        proof {
            assert(s@.take(i + 1) =~= s@.take(i as int).push(s@[i as int]));
        }
        i = i + 1;
    }
    proof {
        assert(s@.take(n as int) =~= s@);
    }
    v
}

/// A `String` holding the characters of `v` (`String::from_iter`).
#[verifier::external_body]
pub(crate) fn string_of(v: &Vec<char>) -> (s: String)
    ensures
        s@ == v@,
{
    String::from_iter(v.iter())
}

/// The characters `v[lo..hi]` as a new vector.
pub fn slice_chars(v: &Vec<char>, lo: usize, hi: usize) -> (r: Vec<char>)
    requires
        lo <= hi <= v.len(),
    ensures
        r@ == v@.subrange(lo as int, hi as int),
{
    let mut r: Vec<char> = Vec::new();
    let mut i = lo;
    while i < hi
        invariant
            lo <= i <= hi <= v.len(),
            r@ == v@.subrange(lo as int, i as int),
        decreases hi - i,
    {
        r.push(v[i]);
        i = i + 1;
    }
    r
}

/// `s` without leading and trailing white space.
pub fn trim_chars(s: &Vec<char>) -> (r: Vec<char>)
    ensures
        r@ == trim(s@),
{
    let n = s.len();
    let mut a: usize = 0;
    proof {
        assert(s@.skip(0) =~= s@);
    }
    while a < n && whitespace(s[a])
        invariant
            a <= n == s.len(),
            lead_ws(s@) == a + lead_ws(s@.skip(a as int)),
        decreases n - a,
    {
        proof {
            lemma_lead_step(s@, a as int);
        }
        a = a + 1;
    }
    proof {
        assert(lead_ws(s@.skip(a as int)) == 0);
    }
    let ghost t = s@.skip(a as int);
    let mut b: usize = n;
    proof {
        assert(t.take(n - a) =~= t);
    }
    while b > a && whitespace(s[b - 1])
        invariant
            a <= b <= n == s.len(),
            t == s@.skip(a as int),
            trail_ws(t) == (n - b) + trail_ws(t.take(b - a)),
        decreases b,
    {
        proof {
            assert(t[b - a - 1] == s@[b - 1]);
            lemma_trail_step(t, (b - a) as int);
        }
        b = b - 1;
    }
    proof {
        if b > a {
            assert(t.take(b - a).last() == s@[b - 1]);
        }
        assert(trail_ws(t.take(b - a)) == 0);
        assert(t.take(t.len() - trail_ws(t)) =~= s@.subrange(a as int, b as int));
    }
    slice_chars(s, a, b)
}

/// `s` without its trailing white space (`str::trim_end`).
pub open spec fn trim_end(s: Seq<char>) -> Seq<char> {
    s.take(s.len() - trail_ws(s))
}

/// `s` without trailing white space.
pub fn trim_end_chars(s: &Vec<char>) -> (r: Vec<char>)
    ensures
        r@ == trim_end(s@),
{
    let n = s.len();
    let mut b: usize = n;
    proof {
        assert(s@.take(n as int) =~= s@);
    }
    while b > 0 && whitespace(s[b - 1])
        invariant
            b <= n == s.len(),
            trail_ws(s@) == (n - b) + trail_ws(s@.take(b as int)),
        decreases b,
    {
        proof {
            lemma_trail_step(s@, b as int);
        }
        b = b - 1;
    }
    proof {
        if b > 0 {
            assert(s@.take(b as int).last() == s@[b - 1]);
        }
        assert(trail_ws(s@.take(b as int)) == 0);
        assert(s@.take(s@.len() - trail_ws(s@)) =~= s@.subrange(0, b as int));
    }
    slice_chars(s, 0, b)
}

/// Index of the first occurrence of `c` in `s`, if any.
pub open spec fn find_first(s: Seq<char>, c: char) -> Option<int> {
    if exists|i: int| 0 <= i < s.len() && s[i] == c {
        Some(choose|i: int| 0 <= i < s.len() && s[i] == c && forall|k: int| 0 <= k < i ==> s[k] != c)
    } else {
        None
    }
}

/// Index of the last occurrence of `c` in `s`, if any.
pub open spec fn find_last(s: Seq<char>, c: char) -> Option<int> {
    if exists|i: int| 0 <= i < s.len() && s[i] == c {
        Some(choose|i: int| 0 <= i < s.len() && s[i] == c && forall|k: int| i < k < s.len() ==> s[k] != c)
    } else {
        None
    }
}

pub proof fn lemma_find_first_is(s: Seq<char>, c: char, i: int)
    requires
        0 <= i < s.len(),
        s[i] == c,
        forall|k: int| 0 <= k < i ==> s[k] != c,
    ensures
        find_first(s, c) == Some(i),
{
    let j = choose|j: int| 0 <= j < s.len() && s[j] == c && forall|k: int| 0 <= k < j ==> s[k] != c;
    assert(j == i) by {
        if j < i {
        } else if j > i {
            assert(s[i] == c);
        }
    }
}

pub proof fn lemma_find_first_none(s: Seq<char>, c: char)
    requires
        forall|k: int| 0 <= k < s.len() ==> s[k] != c,
    ensures
        find_first(s, c) is None,
{
}

pub proof fn lemma_find_first_bounds(s: Seq<char>, c: char)
    ensures
        find_first(s, c) matches Some(i) ==> 0 <= i < s.len() && s[i] == c && forall|k: int|
            0 <= k < i ==> s[k] != c,
        find_first(s, c) is None ==> forall|k: int| 0 <= k < s.len() ==> s[k] != c,
{
    if exists|i: int| 0 <= i < s.len() && s[i] == c {
        let i = choose|i: int| 0 <= i < s.len() && s[i] == c;
        lemma_min_index(s, c, i);
    }
}

pub proof fn lemma_min_index(s: Seq<char>, c: char, i: int)
    requires
        0 <= i < s.len(),
        s[i] == c,
    ensures
        exists|j: int| 0 <= j < s.len() && s[j] == c && forall|k: int| 0 <= k < j ==> s[k] != c,
    decreases i,
{
    if exists|k: int| 0 <= k < i && s[k] == c {
        let k = choose|k: int| 0 <= k < i && s[k] == c;
        lemma_min_index(s, c, k);
    } else {
        assert(forall|k: int| 0 <= k < i ==> s[k] != c);
    }
}

/// The pieces of `s` between occurrences of `sep` (`str::split`): always at
/// least one piece, empty pieces included.
#[verifier::opaque]
pub open spec fn split_items(s: Seq<char>, sep: char) -> Seq<Seq<char>>
    decreases s.len(),
{
    if exists|i: int| 0 <= i < s.len() && s[i] == sep {
        let i = choose|i: int|
            0 <= i < s.len() && s[i] == sep && forall|k: int| 0 <= k < i ==> s[k] != sep;
        proof {
            let w = choose|w: int| 0 <= w < s.len() && s[w] == sep;
            lemma_min_index(s, sep, w);
        }
        seq![s.take(i)] + split_items(s.skip(i + 1), sep)
    } else {
        seq![s]
    }
}

/// A property that holds of every character of every piece holds of every
/// character of `s` that is not the separator.
pub proof fn lemma_split_chars(s: Seq<char>, sep: char, p: spec_fn(char) -> bool)
    requires
        forall|k: int, j: int|
            0 <= k < split_items(s, sep).len() && 0 <= j < split_items(s, sep)[k].len() ==> p(
                #[trigger] split_items(s, sep)[k][j],
            ),
    ensures
        forall|i: int| 0 <= i < s.len() ==> s[i] == sep || p(#[trigger] s[i]),
    decreases s.len(),
{
    reveal(split_items);
    if exists|i: int| 0 <= i < s.len() && s[i] == sep {
        let w = choose|w: int| 0 <= w < s.len() && s[w] == sep;
        lemma_min_index(s, sep, w);
        let i = choose|i: int|
            0 <= i < s.len() && s[i] == sep && forall|k: int| 0 <= k < i ==> s[k] != sep;
        let rest = s.skip(i + 1);
        let items = split_items(s, sep);
        assert(items == seq![s.take(i)] + split_items(rest, sep));
        assert forall|k: int, j: int|
            0 <= k < split_items(rest, sep).len() && 0 <= j < split_items(rest, sep)[k].len() implies p(
            #[trigger] split_items(rest, sep)[k][j],
        ) by {
            assert(split_items(rest, sep)[k] == items[k + 1]);
            assert(p(items[k + 1][j]));
        }
        lemma_split_chars(rest, sep, p);
        assert forall|m: int| 0 <= m < s.len() implies s[m] == sep || p(#[trigger] s[m]) by {
            if m < i {
                assert(items[0] == s.take(i));
                assert(items[0][m] == s[m]);
                assert(p(items[0][m]));
            } else if m > i {
                assert(rest[m - i - 1] == s[m]);
            }
        }
    } else {
        let items = split_items(s, sep);
        assert(items == seq![s]);
        assert forall|m: int| 0 <= m < s.len() implies s[m] == sep || p(#[trigger] s[m]) by {
            assert(items[0][m] == s[m]);
            assert(p(items[0][m]));
        }
    }
}

/// The first piece of `s` begins where `s` begins.
pub proof fn lemma_split_first(s: Seq<char>, sep: char)
    ensures
        split_items(s, sep).len() >= 1,
        split_items(s, sep)[0].len() <= s.len(),
        forall|j: int| 0 <= j < split_items(s, sep)[0].len() ==> #[trigger] split_items(s, sep)[0][j] == s[j],
{
    reveal(split_items);
    lemma_split_items_len(s, sep);
    if exists|i: int| 0 <= i < s.len() && s[i] == sep {
        let w = choose|w: int| 0 <= w < s.len() && s[w] == sep;
        lemma_min_index(s, sep, w);
        let i = choose|i: int|
            0 <= i < s.len() && s[i] == sep && forall|k: int| 0 <= k < i ==> s[k] != sep;
        assert(split_items(s, sep)[0] == s.take(i));
    } else {
        assert(split_items(s, sep)[0] == s);
    }
}

pub proof fn lemma_split_items_len(s: Seq<char>, sep: char)
    ensures
        split_items(s, sep).len() >= 1,
    decreases s.len(),
{
    reveal(split_items);
    if exists|i: int| 0 <= i < s.len() && s[i] == sep {
        let w = choose|w: int| 0 <= w < s.len() && s[w] == sep;
        lemma_min_index(s, sep, w);
        let i = choose|i: int|
            0 <= i < s.len() && s[i] == sep && forall|k: int| 0 <= k < i ==> s[k] != sep;
        lemma_split_items_len(s.skip(i + 1), sep);
    }
}

/// Split `s[start..]` at every `sep`.
pub fn split_from(s: &Vec<char>, start: usize, sep: char) -> (r: Vec<Vec<char>>)
    requires
        start <= s.len(),
    ensures
        r.len() == split_items(s@.skip(start as int), sep).len(),
        forall|k: int| 0 <= k < r.len() ==> #[trigger] r[k]@ == split_items(s@.skip(start as int), sep)[k],
    decreases s.len() - start,
{
    reveal(split_items);
    let ghost t = s@.skip(start as int);
    let mut j = start;
    while j < s.len() && s[j] != sep
        invariant
            start <= j <= s.len(),
            t == s@.skip(start as int),
            forall|k: int| 0 <= k < j - start ==> t[k] != sep,
        decreases s.len() - j,
    {
        j = j + 1;
    }
    let first = slice_chars(s, start, j);
    let mut r: Vec<Vec<char>> = Vec::new();
    r.push(first);
    if j == s.len() {
        proof {
            lemma_find_first_none(t, sep);
            assert(!(exists|i: int| 0 <= i < t.len() && t[i] == sep));
            assert(t =~= s@.subrange(start as int, j as int));
        }
        r
    } else {
        proof {
            lemma_find_first_is(t, sep, j - start);
            lemma_find_first_bounds(t, sep);
            assert(t.take(j - start) =~= s@.subrange(start as int, j as int));
            assert(t.skip(j - start + 1) =~= s@.skip(j + 1));
        }
        let mut rest = split_from(s, j + 1, sep);
        let ghost rest_v = rest@;
        r.append(&mut rest);
        proof {
            let items = split_items(t, sep);
            assert(items == seq![t.take(j - start)] + split_items(t.skip(j - start + 1), sep));
            assert forall|k: int| 0 <= k < r.len() implies #[trigger] r[k]@ == items[k] by {
                if k > 0 {
                    assert(r[k] == rest_v[k - 1]);
                }
            }
        }
        r
    }
}

pub fn position_first(s: &Vec<char>, c: char) -> (r: Option<usize>)
    ensures
        match r {
            Some(i) => i < s.len() && s@[i as int] == c && forall|k: int| 0 <= k < i ==> s@[k] != c,
            None => forall|k: int| 0 <= k < s.len() ==> s@[k] != c,
        },
        r matches Some(i) ==> find_first(s@, c) == Some(i as int),
        r is None ==> find_first(s@, c) is None,
{
    let mut i: usize = 0;
    while i < s.len()
        invariant
            i <= s.len(),
            forall|k: int| 0 <= k < i ==> s@[k] != c,
        decreases s.len() - i,
    {
        if s[i] == c {
            proof {
                let j = choose|j: int|
                    0 <= j < s@.len() && s@[j] == c && forall|k: int| 0 <= k < j ==> s@[k] != c;
                assert(j == i as int) by {
                    if j < i {
                    } else if j > i {
                        assert(s@[i as int] == c);
                    }
                }
            }
            return Some(i);
        }
        i = i + 1;
    }
    None
}

pub fn position_last(s: &Vec<char>, c: char) -> (r: Option<usize>)
    ensures
        match r {
            Some(i) => i < s.len() && s@[i as int] == c && forall|k: int| i < k < s.len() ==> s@[k] != c,
            None => forall|k: int| 0 <= k < s.len() ==> s@[k] != c,
        },
        r matches Some(i) ==> find_last(s@, c) == Some(i as int),
        r is None ==> find_last(s@, c) is None,
{
    let mut i: usize = s.len();
    while i > 0
        invariant
            i <= s.len(),
            forall|k: int| i <= k < s.len() ==> s@[k] != c,
        decreases i,
    {
        if s[i - 1] == c {
            proof {
                let j = choose|j: int|
                    0 <= j < s@.len() && s@[j] == c && forall|k: int| j < k < s@.len() ==> s@[k] != c;
                assert(j == i - 1) by {
                    if j < i - 1 {
                        assert(s@[i - 1] == c);
                    }
                }
            }
            return Some(i - 1);
        }
        i = i - 1;
    }
    None
}

pub fn contains_char(s: &Vec<char>, c: char) -> (r: bool)
    ensures
        r == s@.contains(c),
{
    match position_first(s, c) {
        Some(i) => {
            proof {
                assert(s@[i as int] == c);
            }
            true
        },
        None => false,
    }
}

} // verus!
