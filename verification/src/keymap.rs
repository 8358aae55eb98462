//! Summaries of key bindings for the hint bar and the key-binding info
//! box. A binding table is given as the `(key, action)` pairs in the order
//! a walk over it yields them.

use vstd::prelude::*;
use crate::labels::{action_label, action_label_chars};
use crate::text::{char_utf8_len, chars_of, string_of, utf8_len};

verus! {

/// The `(key, action)` pairs of a binding table, as character sequences.
pub open spec fn pairs_view(b: Seq<(String, String)>) -> Seq<(Seq<char>, Seq<char>)> {
    b.map_values(|p: (String, String)| (p.0@, p.1@))
}

/// The first index `i >= from` at which `x` goes before `s[i]`
/// (`s.len()` if there is none).
pub open spec fn insert_pos<T>(s: Seq<T>, x: T, before: spec_fn(T, T) -> bool, from: int) -> int
    decreases s.len() - from,
{
    if from < 0 || from >= s.len() {
        s.len() as int
    } else if before(x, s[from]) {
        from
    } else {
        insert_pos(s, x, before, from + 1)
    }
}

/// Insertion sort: each element, in order, put just before the first
/// element it goes before. Elements that go before one another in neither
/// direction keep their order.
pub open spec fn insertion_sorted<T>(s: Seq<T>, before: spec_fn(T, T) -> bool) -> Seq<T>
    decreases s.len(),
{
    if s.len() == 0 {
        Seq::empty()
    } else {
        let sorted = insertion_sorted(s.drop_last(), before);
        sorted.insert(insert_pos(sorted, s.last(), before, 0), s.last())
    }
}

/// `a` takes fewer bytes in UTF-8 than `b` (`str::len` compares so).
pub open spec fn shorter(a: Seq<char>, b: Seq<char>) -> bool {
    utf8_len(a) < utf8_len(b)
}

/// `s` in order of UTF-8 length, strings of one length in their given order.
pub open spec fn by_length(s: Seq<Seq<char>>) -> Seq<Seq<char>> {
    insertion_sorted(s, len_before())
}

proof fn lemma_insert_pos_bounds<T>(s: Seq<T>, x: T, before: spec_fn(T, T) -> bool, from: int)
    requires
        0 <= from <= s.len(),
    ensures
        from <= insert_pos(s, x, before, from) <= s.len(),
    decreases s.len() - from,
{
    if from < s.len() && !before(x, s[from]) {
        lemma_insert_pos_bounds(s, x, before, from + 1);
    }
}

/// The char sequences of `v`.
pub open spec fn strs_view(v: Seq<Vec<char>>) -> Seq<Seq<char>> {
    v.map_values(|c: Vec<char>| c@)
}

pub open spec fn len_before() -> spec_fn(Seq<char>, Seq<char>) -> bool {
    |a: Seq<char>, b: Seq<char>| shorter(a, b)
}

proof fn lemma_insertion_sorted_len<T>(s: Seq<T>, before: spec_fn(T, T) -> bool)
    ensures
        insertion_sorted(s, before).len() == s.len(),
    decreases s.len(),
{
    if s.len() > 0 {
        lemma_insertion_sorted_len(s.drop_last(), before);
        lemma_insert_pos_bounds(insertion_sorted(s.drop_last(), before), s.last(), before, 0);
    }
}

/// `before` is a strict order: nothing goes before itself, and it chains.
pub open spec fn is_strict_order<T>(before: spec_fn(T, T) -> bool) -> bool {
    &&& forall|a: T| !#[trigger] before(a, a)
    &&& forall|a: T, b: T, c: T| #[trigger] before(a, b) && #[trigger] before(b, c) ==> before(a, c)
}

/// No element of `s` goes before an element ahead of it.
pub open spec fn in_order<T>(s: Seq<T>, before: spec_fn(T, T) -> bool) -> bool {
    forall|i: int, j: int| 0 <= i < j < s.len() ==> !before(#[trigger] s[j], #[trigger] s[i])
}

proof fn lemma_insert_pos_props<T>(s: Seq<T>, x: T, before: spec_fn(T, T) -> bool, from: int)
    requires
        0 <= from <= s.len(),
    ensures
        from <= insert_pos(s, x, before, from) <= s.len(),
        forall|k: int| from <= k < insert_pos(s, x, before, from) ==> !before(x, #[trigger] s[k]),
        insert_pos(s, x, before, from) < s.len() ==> before(x, s[insert_pos(s, x, before, from)]),
    decreases s.len() - from,
{
    if from < s.len() && !before(x, s[from]) {
        lemma_insert_pos_props(s, x, before, from + 1);
    }
}

/// Insertion sort under a strict order leaves its result in order.
pub proof fn lemma_insertion_sorted_in_order<T>(s: Seq<T>, before: spec_fn(T, T) -> bool)
    requires
        is_strict_order(before),
    ensures
        in_order(insertion_sorted(s, before), before),
        insertion_sorted(s, before).len() == s.len(),
    decreases s.len(),
{
    lemma_insertion_sorted_len(s, before);
    if s.len() > 0 {
        let sorted = insertion_sorted(s.drop_last(), before);
        let x = s.last();
        lemma_insertion_sorted_in_order(s.drop_last(), before);
        lemma_insert_pos_props(sorted, x, before, 0);
        let p = insert_pos(sorted, x, before, 0);
        let t = sorted.insert(p, x);
        assert(t == insertion_sorted(s, before));
        assert forall|i: int, j: int| 0 <= i < j < t.len() implies !before(#[trigger] t[j], #[trigger] t[i]) by {
            if i == p {
                assert(t[i] == x);
                assert(t[j] == sorted[j - 1]);
                if before(sorted[j - 1], x) {
                    assert(before(x, sorted[p]));
                    assert(before(sorted[j - 1], sorted[p]));
                    if j - 1 > p {
                        assert(!before(sorted[j - 1], sorted[p]));
                    }
                }
            } else if j == p {
                assert(t[j] == x);
                assert(t[i] == sorted[i]);
            } else {
                let si = if i < p {
                    i
                } else {
                    i - 1
                };
                let sj = if j < p {
                    j
                } else {
                    j - 1
                };
                assert(t[i] == sorted[si]);
                assert(t[j] == sorted[sj]);
                assert(si < sj);
            }
        }
    }
}

proof fn lemma_lex_irreflexive(a: Seq<char>)
    ensures
        !lex_lt(a, a),
    decreases a.len(),
{
    if a.len() > 0 {
        lemma_lex_irreflexive(a.skip(1));
    }
}

proof fn lemma_lex_transitive(a: Seq<char>, b: Seq<char>, c: Seq<char>)
    requires
        lex_lt(a, b),
        lex_lt(b, c),
    ensures
        lex_lt(a, c),
    decreases a.len(),
{
    if a.len() > 0 && b.len() > 0 && c.len() > 0 && a[0] == b[0] && b[0] == c[0] {
        lemma_lex_transitive(a.skip(1), b.skip(1), c.skip(1));
    }
}

proof fn lemma_entry_before_strict()
    ensures
        is_strict_order(entry_before()),
{
    assert forall|a: (Seq<char>, Seq<Seq<char>>)| !#[trigger] entry_before()(a, a) by {
        lemma_lex_irreflexive(a.1[0]);
    }
    assert forall|a: (Seq<char>, Seq<Seq<char>>), b: (Seq<char>, Seq<Seq<char>>), c: (Seq<char>, Seq<Seq<char>>)|
        #[trigger] entry_before()(a, b) && #[trigger] entry_before()(b, c) implies entry_before()(a, c) by {
        if lex_lt(a.1[0], b.1[0]) && lex_lt(b.1[0], c.1[0]) {
            lemma_lex_transitive(a.1[0], b.1[0], c.1[0]);
        }
    }
}

/// The info box lists its actions ordered by their shortest key: no entry
/// has a first key that sorts before the first key of an entry above it
/// (shorter in UTF-8 bytes first, then string order); and each entry's keys
/// are ordered by length.
pub proof fn lemma_infobox_ordered(b: Seq<(Seq<char>, Seq<char>)>)
    ensures
        in_order(insertion_sorted(entries_of(b), entry_before()), entry_before()),
        forall|a: Seq<char>| in_order(#[trigger] by_length(keys_upto(b, a, b.len() as int)), len_before()),
{
    lemma_entry_before_strict();
    lemma_insertion_sorted_in_order(entries_of(b), entry_before());
    assert forall|a: Seq<char>| in_order(#[trigger] by_length(keys_upto(b, a, b.len() as int)), len_before()) by {
        lemma_insertion_sorted_in_order(keys_upto(b, a, b.len() as int), len_before());
    }
}

/// The hints of an active mode are ordered by key length.
pub proof fn lemma_mode_hints_ordered(mb: Seq<(Seq<char>, Seq<char>)>)
    ensures
        in_order(insertion_sorted(mb, key_before()), key_before()),
        mode_hints(mb).len() == if mb.len() <= 3 {
            mb.len()
        } else {
            3
        },
{
    lemma_insertion_sorted_in_order(mb, key_before());
}

pub fn chars_eq(a: &Vec<char>, b: &Vec<char>) -> (r: bool)
    ensures
        r == (a@ == b@),
{
    if a.len() != b.len() {
        return false;
    }
    let mut i: usize = 0;
    while i < a.len()
        invariant
            a@.len() == b@.len(),
            i <= a@.len(),
            forall|k: int| 0 <= k < i ==> a@[k] == b@[k],
        decreases a@.len() - i,
    {
        if a[i] != b[i] {
            return false;
        }
        i = i + 1;
    }
    proof {
        assert(a@ =~= b@);
    }
    true
}

/// `v` sorted by length, strings of one length in their given order.
fn sort_by_length(v: &Vec<Vec<char>>) -> (r: Vec<Vec<char>>)
    ensures
        strs_view(r@) == by_length(strs_view(v@)),
{
    let mut sorted: Vec<Vec<char>> = Vec::new();
    let mut i: usize = 0;
    while i < v.len()
        invariant
            i <= v@.len(),
            strs_view(sorted@) == by_length(strs_view(v@).take(i as int)),
        decreases v@.len() - i,
    {
        let x = v[i].clone();
        let ghost sv = strs_view(sorted@);
        let mut p: usize = 0;
        while p < sorted.len() && !(byte_len(&x) < byte_len(&sorted[p]))
            invariant
                p <= sorted@.len(),
                sv == strs_view(sorted@),
                insert_pos(sv, x@, len_before(), p as int) == insert_pos(sv, x@, len_before(), 0),
            decreases sorted@.len() - p,
        {
            p = p + 1;
        }
        sorted.insert(p, x);
        proof {
            let t = strs_view(v@).take(i + 1);
            assert(t.drop_last() =~= strs_view(v@).take(i as int));
            assert(t.last() == x@);
            assert(strs_view(sorted@) =~= sv.insert(p as int, x@));
        }
        i = i + 1;
    }
    proof {
        assert(strs_view(v@).take(v@.len() as int) =~= strs_view(v@));
    }
    sorted
}

/// The actions of the first `n` bindings, each once, in order of first
/// appearance.
pub open spec fn actions_upto(b: Seq<(Seq<char>, Seq<char>)>, n: int) -> Seq<Seq<char>>
    decreases n,
{
    if n <= 0 || n > b.len() {
        Seq::empty()
    } else {
        let acts = actions_upto(b, n - 1);
        if acts.contains(b[n - 1].1) {
            acts
        } else {
            acts.push(b[n - 1].1)
        }
    }
}

/// The keys bound to `action` among the first `n` bindings, in order.
pub open spec fn keys_upto(b: Seq<(Seq<char>, Seq<char>)>, action: Seq<char>, n: int) -> Seq<Seq<char>>
    decreases n,
{
    if n <= 0 || n > b.len() {
        Seq::empty()
    } else {
        keys_upto(b, action, n - 1) + if b[n - 1].1 == action {
            seq![b[n - 1].0]
        } else {
            Seq::empty()
        }
    }
}

/// Strict order of strings by code points, a proper prefix first.
pub open spec fn lex_lt(a: Seq<char>, b: Seq<char>) -> bool
    decreases a.len(),
{
    if a.len() == 0 {
        b.len() > 0
    } else if b.len() == 0 {
        false
    } else if a[0] == b[0] {
        lex_lt(a.skip(1), b.skip(1))
    } else {
        (a[0] as u32) < (b[0] as u32)
    }
}

/// Shorter keys (in UTF-8 bytes) first, keys of one length in string order.
pub open spec fn key_lt(a: Seq<char>, b: Seq<char>) -> bool {
    utf8_len(a) < utf8_len(b) || (utf8_len(a) == utf8_len(b) && lex_lt(a, b))
}

/// The UTF-8 length of `s`.
fn byte_len(s: &Vec<char>) -> (n: u128)
    ensures
        n == utf8_len(s@),
{
    let mut n: u128 = 0;
    let mut i: usize = 0;
    while i < s.len()
        invariant
            i <= s@.len(),
            n == utf8_len(s@.take(i as int)),
            n <= 4 * i,
        decreases s@.len() - i,
    {
        let c = s[i];
        let w: u128 = if (c as u32) < 0x80 {
            1
        } else if (c as u32) < 0x800 {
            2
        } else if (c as u32) < 0x10000 {
            3
        } else {
            4
        };
        proof {
            assert(s@.take(i + 1).drop_last() =~= s@.take(i as int));
            assert(w == char_utf8_len(c));
        }
        n = n + w;
        i = i + 1;
    }
    proof {
        assert(s@.take(s@.len() as int) =~= s@);
    }
    n
}

/// Info-box entries (action, its keys) ordered by their first key.
pub open spec fn entry_before() -> spec_fn((Seq<char>, Seq<Seq<char>>), (Seq<char>, Seq<Seq<char>>)) -> bool {
    |x: (Seq<char>, Seq<Seq<char>>), y: (Seq<char>, Seq<Seq<char>>)| key_lt(x.1[0], y.1[0])
}

/// The strings of `s` joined with `/`.
pub open spec fn join_slash(s: Seq<Seq<char>>) -> Seq<char>
    decreases s.len(),
{
    if s.len() == 0 {
        Seq::empty()
    } else if s.len() == 1 {
        s[0]
    } else {
        join_slash(s.drop_last()) + seq!['/'] + s.last()
    }
}

/// How an entry's keys are shown: the first two, joined with `/`.
pub open spec fn key_display(keys: Seq<Seq<char>>) -> Seq<char> {
    join_slash(
        if keys.len() <= 2 {
            keys
        } else {
            keys.take(2)
        },
    )
}

/// The (action, keys by length) entries of a binding table, actions in
/// order of first appearance.
pub open spec fn entries_of(b: Seq<(Seq<char>, Seq<char>)>) -> Seq<(Seq<char>, Seq<Seq<char>>)> {
    actions_upto(b, b.len() as int).map_values(
        |a: Seq<char>| (a, by_length(keys_upto(b, a, b.len() as int))),
    )
}

/// The rows of the key-binding info box: one per action, its first two
/// keys (shortest first) joined with `/` beside its short label, rows
/// ordered by their shortest key (shorter first, then in string order).
pub open spec fn infobox_rows(b: Seq<(Seq<char>, Seq<char>)>) -> Seq<(Seq<char>, Seq<char>)> {
    insertion_sorted(entries_of(b), entry_before()).map_values(
        |e: (Seq<char>, Seq<Seq<char>>)| (key_display(e.1), action_label(e.0)),
    )
}

pub open spec fn cpairs_view(v: Seq<(Vec<char>, Vec<char>)>) -> Seq<(Seq<char>, Seq<char>)> {
    v.map_values(|p: (Vec<char>, Vec<char>)| (p.0@, p.1@))
}

pub open spec fn entries_view(v: Seq<(Vec<char>, Vec<Vec<char>>)>) -> Seq<(Seq<char>, Seq<Seq<char>>)> {
    v.map_values(|e: (Vec<char>, Vec<Vec<char>>)| (e.0@, strs_view(e.1@)))
}

pub open spec fn rows_view(v: Seq<(String, String)>) -> Seq<(Seq<char>, Seq<char>)> {
    v.map_values(|p: (String, String)| (p.0@, p.1@))
}

proof fn lemma_keys_nonempty(b: Seq<(Seq<char>, Seq<char>)>, a: Seq<char>, n: int)
    requires
        0 <= n <= b.len(),
        actions_upto(b, n).contains(a),
    ensures
        keys_upto(b, a, n).len() > 0,
    decreases n,
{
    if n > 0 {
        if actions_upto(b, n - 1).contains(a) {
            lemma_keys_nonempty(b, a, n - 1);
        } else {
            assert(b[n - 1].1 == a);
        }
    }
}

fn binding_chars(b: &Vec<(String, String)>) -> (r: Vec<(Vec<char>, Vec<char>)>)
    ensures
        cpairs_view(r@) == pairs_view(b@),
{
    let mut out: Vec<(Vec<char>, Vec<char>)> = Vec::new();
    let mut i: usize = 0;
    while i < b.len()
        invariant
            i <= b@.len(),
            cpairs_view(out@) == pairs_view(b@).take(i as int),
            out@.len() == i,
        decreases b@.len() - i,
    {
        let k = chars_of(b[i].0.as_str());
        let a = chars_of(b[i].1.as_str());
        let ghost prev = out@;
        out.push((k, a));
        proof {
            assert(out@ == prev.push((k, a)));
            assert(cpairs_view(out@)[i as int] == pairs_view(b@)[i as int]);
            assert(cpairs_view(out@) =~= pairs_view(b@).take(i + 1));
        }
        i = i + 1;
    }
    proof {
        assert(pairs_view(b@).take(b@.len() as int) =~= pairs_view(b@));
    }
    out
}

fn contains_chars(v: &Vec<Vec<char>>, x: &Vec<char>) -> (r: bool)
    ensures
        r == strs_view(v@).contains(x@),
{
    let mut i: usize = 0;
    while i < v.len()
        invariant
            i <= v@.len(),
            forall|k: int| 0 <= k < i ==> strs_view(v@)[k] != x@,
        decreases v@.len() - i,
    {
        if chars_eq(&v[i], x) {
            proof {
                assert(strs_view(v@)[i as int] == x@);
            }
            return true;
        }
        i = i + 1;
    }
    false
}

fn distinct_actions(b: &Vec<(Vec<char>, Vec<char>)>) -> (r: Vec<Vec<char>>)
    ensures
        strs_view(r@) == actions_upto(cpairs_view(b@), b@.len() as int),
{
    let ghost bv = cpairs_view(b@);
    let mut acts: Vec<Vec<char>> = Vec::new();
    let mut i: usize = 0;
    while i < b.len()
        invariant
            i <= b@.len(),
            bv == cpairs_view(b@),
            strs_view(acts@) == actions_upto(bv, i as int),
        decreases b@.len() - i,
    {
        if !contains_chars(&acts, &b[i].1) {
            acts.push(b[i].1.clone());
            proof {
                assert(strs_view(acts@) =~= actions_upto(bv, i as int).push(bv[i as int].1));
            }
        }
        i = i + 1;
    }
    acts
}

fn keys_for(b: &Vec<(Vec<char>, Vec<char>)>, action: &Vec<char>) -> (r: Vec<Vec<char>>)
    ensures
        strs_view(r@) == keys_upto(cpairs_view(b@), action@, b@.len() as int),
{
    let ghost bv = cpairs_view(b@);
    let mut keys: Vec<Vec<char>> = Vec::new();
    let mut i: usize = 0;
    while i < b.len()
        invariant
            i <= b@.len(),
            bv == cpairs_view(b@),
            strs_view(keys@) == keys_upto(bv, action@, i as int),
        decreases b@.len() - i,
    {
        let ghost before = strs_view(keys@);
        if chars_eq(&b[i].1, action) {
            keys.push(b[i].0.clone());
        }
        proof {
            assert(strs_view(keys@) =~= keys_upto(bv, action@, i + 1));
        }
        i = i + 1;
    }
    keys
}

fn copy_strs(v: &Vec<Vec<char>>) -> (r: Vec<Vec<char>>)
    ensures
        strs_view(r@) == strs_view(v@),
{
    let mut out: Vec<Vec<char>> = Vec::new();
    let mut i: usize = 0;
    while i < v.len()
        invariant
            i <= v@.len(),
            strs_view(out@) == strs_view(v@).take(i as int),
            out@.len() == i,
        decreases v@.len() - i,
    {
        let c = v[i].clone();
        let ghost prev = out@;
        out.push(c);
        proof {
            assert(out@ == prev.push(c));
            assert(strs_view(out@) =~= strs_view(v@).take(i + 1));
        }
        i = i + 1;
    }
    proof {
        assert(strs_view(v@).take(v@.len() as int) =~= strs_view(v@));
    }
    out
}

fn lex_less(a: &Vec<char>, b: &Vec<char>) -> (r: bool)
    ensures
        r == lex_lt(a@, b@),
{
    let mut i: usize = 0;
    proof {
        assert(a@.skip(0) =~= a@);
        assert(b@.skip(0) =~= b@);
    }
    while i < a.len() && i < b.len() && a[i] == b[i]
        invariant
            i <= a@.len(),
            i <= b@.len(),
            lex_lt(a@.skip(i as int), b@.skip(i as int)) == lex_lt(a@, b@),
        decreases a@.len() - i,
    {
        proof {
            assert(a@.skip(i as int).skip(1) =~= a@.skip(i + 1));
            assert(b@.skip(i as int).skip(1) =~= b@.skip(i + 1));
        }
        i = i + 1;
    }
    if i == a.len() {
        i < b.len()
    } else if i == b.len() {
        false
    } else {
        (a[i] as u32) < (b[i] as u32)
    }
}

fn key_less(a: &Vec<char>, b: &Vec<char>) -> (r: bool)
    ensures
        r == key_lt(a@, b@),
{
    let la = byte_len(a);
    let lb = byte_len(b);
    la < lb || (la == lb && lex_less(a, b))
}

fn join_first_two(keys: &Vec<Vec<char>>) -> (r: Vec<char>)
    ensures
        r@ == key_display(strs_view(keys@)),
{
    let ghost kv = strs_view(keys@);
    let mut out: Vec<char> = Vec::new();
    let n = if keys.len() <= 2 {
        keys.len()
    } else {
        2
    };
    let ghost shown = if kv.len() <= 2 {
        kv
    } else {
        kv.take(2)
    };
    let mut i: usize = 0;
    while i < n
        invariant
            kv == strs_view(keys@),
            n <= keys@.len(),
            n == shown.len(),
            shown == kv.take(n as int),
            i <= n,
            out@ == join_slash(shown.take(i as int)),
        decreases n - i,
    {
        if i > 0 {
            out.push('/');
        }
        let k = &keys[i];
        let mut j: usize = 0;
        let ghost base = out@;
        while j < k.len()
            invariant
                j <= k@.len(),
                out@ == base + k@.take(j as int),
            decreases k@.len() - j,
        {
            out.push(k[j]);
            proof {
                assert(k@.take(j + 1) =~= k@.take(j as int).push(k@[j as int]));
            }
            j = j + 1;
        }
        proof {
            assert(k@.take(k@.len() as int) =~= k@);
            let t = shown.take(i + 1);
            assert(t.drop_last() =~= shown.take(i as int));
            assert(t.last() == k@);
            if i == 0 {
                assert(out@ =~= join_slash(t));
            } else {
                assert(out@ =~= join_slash(t));
            }
        }
        i = i + 1;
    }
    proof {
        assert(shown.take(n as int) =~= shown);
    }
    out
}

/// The rows of the key-binding info box for a binding table given as its
/// `(key, action)` pairs (see [`infobox_rows`]).
pub fn build_infobox_rows(bindings: &Vec<(String, String)>) -> (r: Vec<(String, String)>)
    ensures
        rows_view(r@) == infobox_rows(pairs_view(bindings@)),
{
    let b = binding_chars(bindings);
    let ghost bv = cpairs_view(b@);
    let acts = distinct_actions(&b);
    // The entries, in order of first appearance.
    let mut entries: Vec<(Vec<char>, Vec<Vec<char>>)> = Vec::new();
    let mut i: usize = 0;
    while i < acts.len()
        invariant
            bv == cpairs_view(b@),
            bv == pairs_view(bindings@),
            strs_view(acts@) == actions_upto(bv, bv.len() as int),
            i <= acts@.len(),
            entries_view(entries@) == entries_of(bv).take(i as int),
            entries@.len() == i,
        decreases acts@.len() - i,
    {
        let keys = keys_for(&b, &acts[i]);
        let sorted = sort_by_length(&keys);
        let a = acts[i].clone();
        let ghost prev = entries@;
        proof {
            assert(a@ == strs_view(acts@)[i as int]);
        }
        entries.push((a, sorted));
        proof {
            assert(entries@ == prev.push((a, sorted)));
            assert(entries_view(entries@)[i as int] == entries_of(bv)[i as int]);
            assert(entries_view(entries@) =~= entries_of(bv).take(i + 1));
        }
        i = i + 1;
    }
    proof {
        assert(entries_of(bv).take(acts@.len() as int) =~= entries_of(bv));
    }
    // Every entry has at least one key.
    proof {
        assert forall|k: int| 0 <= k < entries_of(bv).len() implies #[trigger] entries_of(bv)[k].1.len() > 0 by {
            let a = actions_upto(bv, bv.len() as int)[k];
            lemma_keys_nonempty(bv, a, bv.len() as int);
            lemma_insertion_sorted_len(keys_upto(bv, a, bv.len() as int), len_before());
        }
    }
    let ghost ev = entries_view(entries@);
    let mut sorted: Vec<(Vec<char>, Vec<Vec<char>>)> = Vec::new();
    let mut j: usize = 0;
    while j < entries.len()
        invariant
            ev == entries_view(entries@),
            ev == entries_of(bv),
            forall|k: int| 0 <= k < ev.len() ==> #[trigger] ev[k].1.len() > 0,
            j <= ev.len(),
            entries_view(sorted@) == insertion_sorted(ev.take(j as int), entry_before()),
            forall|k: int| 0 <= k < sorted@.len() ==> (#[trigger] sorted@[k]).1@.len() > 0,
        decreases ev.len() - j,
    {
        let x = (entries[j].0.clone(), copy_strs(&entries[j].1));
        let ghost sv = entries_view(sorted@);
        let ghost xv = (x.0@, strs_view(x.1@));
        assert(xv == ev[j as int]);
        assert(x.1@.len() > 0) by {
            assert(ev[j as int].1.len() > 0);
        }
        let mut p: usize = 0;
        while p < sorted.len() && !key_less(&x.1[0], &sorted[p].1[0])
            invariant
                p <= sorted@.len(),
                sv == entries_view(sorted@),
                x.1@.len() > 0,
                xv == (x.0@, strs_view(x.1@)),
                forall|k: int| 0 <= k < sorted@.len() ==> (#[trigger] sorted@[k]).1@.len() > 0,
                insert_pos(sv, xv, entry_before(), p as int) == insert_pos(sv, xv, entry_before(), 0),
            decreases sorted@.len() - p,
        {
            proof {
                assert(sorted@[p as int].1@.len() > 0);
                assert(sv[p as int] == (sorted@[p as int].0@, strs_view(sorted@[p as int].1@)));
            }
            p = p + 1;
        }
        let ghost old_sorted = sorted@;
        sorted.insert(p, x);
        proof {
            let t = ev.take(j + 1);
            assert(t.drop_last() =~= ev.take(j as int));
            assert(t.last() == xv);
            assert(sorted@ == old_sorted.insert(p as int, x));
            assert(entries_view(sorted@) =~= sv.insert(p as int, xv));
            assert forall|k: int| 0 <= k < sorted@.len() implies (#[trigger] sorted@[k]).1@.len() > 0 by {
                if k < p {
                    assert(sorted@[k] == old_sorted[k]);
                } else if k > p {
                    assert(sorted@[k] == old_sorted[k - 1]);
                }
            }
        }
        j = j + 1;
    }
    proof {
        assert(ev.take(ev.len() as int) =~= ev);
    }
    let ghost so = entries_view(sorted@);
    let mut rows: Vec<(String, String)> = Vec::new();
    let mut k: usize = 0;
    while k < sorted.len()
        invariant
            so == entries_view(sorted@),
            so == insertion_sorted(entries_of(bv), entry_before()),
            k <= sorted@.len(),
            rows_view(rows@) == infobox_rows(bv).take(k as int),
            rows@.len() == k,
        decreases sorted@.len() - k,
    {
        let shown = join_first_two(&sorted[k].1);
        let label = action_label_chars(&sorted[k].0);
        let row = (string_of(&shown), string_of(&label));
        let ghost prev = rows@;
        rows.push(row);
        proof {
            assert(so[k as int] == (sorted@[k as int].0@, strs_view(sorted@[k as int].1@)));
            assert(rows@ == prev.push(row));
            assert(rows_view(rows@)[k as int] == infobox_rows(bv)[k as int]);
            assert(rows_view(rows@) =~= infobox_rows(bv).take(k + 1));
        }
        k = k + 1;
    }
    proof {
        assert(infobox_rows(bv).take(sorted@.len() as int) =~= infobox_rows(bv));
    }
    rows
}

/// The key of the first binding of `action` at index `i` or later.
pub open spec fn find_key(b: Seq<(Seq<char>, Seq<char>)>, action: Seq<char>, i: int) -> Option<Seq<char>>
    decreases b.len() - i,
{
    if i < 0 || i >= b.len() {
        None
    } else if b[i].1 == action {
        Some(b[i].0)
    } else {
        find_key(b, action, i + 1)
    }
}

/// What the hint bar's leader segment depends on.
pub struct LeaderHintState {
    /// Input is locked (keys go to the terminal).
    pub locked: bool,
    /// Bindings that act without the leader key.
    pub direct_bindings: Vec<(String, String)>,
    /// Bindings that follow the leader key.
    pub bindings: Vec<(String, String)>,
    pub overview_active: bool,
    /// A key mode (resize, move, ...) is active.
    pub mode_active: bool,
    /// The bindings of the active mode, where the configuration has any.
    pub mode_bindings: Option<Vec<(String, String)>>,
    /// The leader key was pressed and an action key is awaited.
    pub awaiting_action: bool,
    /// A bare modifier press acts as the leader.
    pub bare_modifier_promotion: bool,
    pub leader: String,
    /// The direct key bound to `toggle_help`, if any.
    pub direct_help_key: Option<String>,
    /// The direct key bound to `toggle_lock`, if any.
    pub direct_lock_key: Option<String>,
}

pub open spec fn key_before() -> spec_fn((Seq<char>, Seq<char>), (Seq<char>, Seq<char>)) -> bool {
    |x: (Seq<char>, Seq<char>), y: (Seq<char>, Seq<char>)| shorter(x.0, y.0)
}

/// The hints of an active mode: its three bindings with the shortest keys
/// (in table order among keys of one length) with their short labels.
pub open spec fn mode_hints(mb: Seq<(Seq<char>, Seq<char>)>) -> Seq<(Seq<char>, Seq<char>)> {
    let sorted = insertion_sorted(mb, key_before());
    let shown = if sorted.len() <= 3 {
        sorted
    } else {
        sorted.take(3)
    };
    shown.map_values(|p: (Seq<char>, Seq<char>)| (p.0, action_label(p.1)))
}

/// `(key, label)` for each `(action, label)` whose action has a binding.
pub open spec fn bound_hints(b: Seq<(Seq<char>, Seq<char>)>, wanted: Seq<(Seq<char>, Seq<char>)>) -> Seq<(Seq<char>, Seq<char>)>
    decreases wanted.len(),
{
    if wanted.len() == 0 {
        Seq::empty()
    } else {
        bound_hints(b, wanted.drop_last()) + match find_key(b, wanted.last().0, 0) {
            Some(k) => seq![(k, wanted.last().1)],
            None => Seq::empty(),
        }
    }
}

pub open spec fn leader_actions() -> Seq<(Seq<char>, Seq<char>)> {
    seq![
        ("new_column_right"@, "new"@),
        ("close_pane"@, "close"@),
        ("toggle_overview"@, "overview"@),
        ("toggle_command_palette"@, "palette"@),
    ]
}

pub open spec fn opt_hint(k: Option<String>, label: Seq<char>) -> Seq<(Seq<char>, Seq<char>)> {
    match k {
        Some(k) => seq![(k@, label)],
        None => Seq::empty(),
    }
}

/// The `(key, label)` hints of the leader segment of the hint bar: the
/// unlock key while locked; the overview keys in the overview; the first
/// bindings of an active mode and `esc`; the bound leader actions while an
/// action key is awaited; otherwise the leader key (unless a bare modifier
/// acts as leader) and the direct help and lock keys.
pub open spec fn leader_hints_spec(st: LeaderHintState) -> Seq<(Seq<char>, Seq<char>)> {
    if st.locked {
        let key = match find_key(pairs_view(st.direct_bindings@), "toggle_lock"@, 0) {
            Some(k) => k,
            None => match find_key(pairs_view(st.bindings@), "toggle_lock"@, 0) {
                Some(k) => k,
                None => "g"@,
            },
        };
        seq![(key, "unlock"@)]
    } else if st.overview_active {
        seq![("hjkl"@, "move"@), ("enter"@, "select"@), ("esc"@, "exit"@)]
    } else if st.mode_active {
        (match st.mode_bindings {
            Some(mb) => mode_hints(pairs_view(mb@)),
            None => Seq::empty(),
        }) + seq![("esc"@, "exit"@)]
    } else if st.awaiting_action {
        bound_hints(pairs_view(st.bindings@), leader_actions())
    } else {
        (if st.bare_modifier_promotion {
            Seq::empty()
        } else {
            seq![(st.leader@, "leader"@)]
        }) + opt_hint(st.direct_help_key, "help"@) + opt_hint(st.direct_lock_key, "lock"@)
    }
}

fn find_key_in(b: &Vec<(String, String)>, action: &str) -> (r: Option<String>)
    ensures
        match r {
            None => find_key(pairs_view(b@), action@, 0) is None,
            Some(k) => find_key(pairs_view(b@), action@, 0) == Some(k@),
        },
{
    let ghost bv = pairs_view(b@);
    let wanted = chars_of(action);
    let mut i: usize = 0;
    while i < b.len()
        invariant
            i <= b@.len(),
            bv == pairs_view(b@),
            wanted@ == action@,
            find_key(bv, action@, i as int) == find_key(bv, action@, 0),
        decreases b@.len() - i,
    {
        let bound = chars_of(b[i].1.as_str());
        if chars_eq(&bound, &wanted) {
            return Some(b[i].0.clone());
        }
        i = i + 1;
    }
    None
}

fn hint(key: &str, label: &str) -> (r: (String, String))
    ensures
        r.0@ == key@,
        r.1@ == label@,
{
    (key.to_owned(), label.to_owned())
}

fn sort_pairs_by_key_length(v: &Vec<(Vec<char>, Vec<char>)>) -> (r: Vec<(Vec<char>, Vec<char>)>)
    ensures
        cpairs_view(r@) == insertion_sorted(cpairs_view(v@), key_before()),
{
    let mut sorted: Vec<(Vec<char>, Vec<char>)> = Vec::new();
    let mut i: usize = 0;
    while i < v.len()
        invariant
            i <= v@.len(),
            cpairs_view(sorted@) == insertion_sorted(cpairs_view(v@).take(i as int), key_before()),
        decreases v@.len() - i,
    {
        let x = (v[i].0.clone(), v[i].1.clone());
        let ghost sv = cpairs_view(sorted@);
        let ghost xv = (x.0@, x.1@);
        assert(xv == cpairs_view(v@)[i as int]);
        let lx = byte_len(&x.0);
        let mut p: usize = 0;
        while p < sorted.len() && !(lx < byte_len(&sorted[p].0))
            invariant
                p <= sorted@.len(),
                sv == cpairs_view(sorted@),
                lx == utf8_len(xv.0),
                insert_pos(sv, xv, key_before(), p as int) == insert_pos(sv, xv, key_before(), 0),
            decreases sorted@.len() - p,
        {
            proof {
                assert(sv[p as int] == (sorted@[p as int].0@, sorted@[p as int].1@));
            }
            p = p + 1;
        }
        let ghost old_sorted = sorted@;
        sorted.insert(p, x);
        proof {
            let t = cpairs_view(v@).take(i + 1);
            assert(t.drop_last() =~= cpairs_view(v@).take(i as int));
            assert(t.last() == xv);
            assert(sorted@ == old_sorted.insert(p as int, x));
            assert(cpairs_view(sorted@) =~= sv.insert(p as int, xv));
        }
        i = i + 1;
    }
    proof {
        assert(cpairs_view(v@).take(v@.len() as int) =~= cpairs_view(v@));
    }
    sorted
}

/// The `(key, label)` hints of the hint bar's leader segment (see
/// [`leader_hints_spec`]).
pub fn pick_leader_hints(st: &LeaderHintState) -> (r: Vec<(String, String)>)
    ensures
        rows_view(r@) == leader_hints_spec(*st),
{
    if st.locked {
        let key = match find_key_in(&st.direct_bindings, "toggle_lock") {
            Some(k) => k,
            None => match find_key_in(&st.bindings, "toggle_lock") {
                Some(k) => k,
                None => "g".to_owned(),
            },
        };
        let out = vec![(key, "unlock".to_owned())];
        proof {
            assert(rows_view(out@) =~= leader_hints_spec(*st));
        }
        return out;
    }
    if st.overview_active {
        let out = vec![hint("hjkl", "move"), hint("enter", "select"), hint("esc", "exit")];
        proof {
            assert(rows_view(out@) =~= leader_hints_spec(*st));
        }
        return out;
    }
    if st.mode_active {
        let mut hints: Vec<(String, String)> = Vec::new();
        match &st.mode_bindings {
            Some(mb) => {
                let pairs = binding_chars(mb);
                let sorted = sort_pairs_by_key_length(&pairs);
                let ghost so = cpairs_view(sorted@);
                let n = if sorted.len() <= 3 {
                    sorted.len()
                } else {
                    3
                };
                let mut k: usize = 0;
                while k < n
                    invariant
                        so == cpairs_view(sorted@),
                        so == insertion_sorted(pairs_view(mb@), key_before()),
                        n <= sorted@.len(),
                        n == mode_hints(pairs_view(mb@)).len(),
                        k <= n,
                        hints@.len() == k,
                        rows_view(hints@) == mode_hints(pairs_view(mb@)).take(k as int),
                    decreases n - k,
                {
                    let label = action_label_chars(&sorted[k].1);
                    let h = (string_of(&sorted[k].0), string_of(&label));
                    let ghost prev = hints@;
                    hints.push(h);
                    proof {
                        assert(so[k as int] == (sorted@[k as int].0@, sorted@[k as int].1@));
                        assert(hints@ == prev.push(h));
                        assert(rows_view(hints@) =~= mode_hints(pairs_view(mb@)).take(k + 1));
                    }
                    k = k + 1;
                }
                proof {
                    assert(mode_hints(pairs_view(mb@)).take(n as int) =~= mode_hints(pairs_view(mb@)));
                }
            },
            None => {
                proof {
                    assert(rows_view(hints@) =~= Seq::<(Seq<char>, Seq<char>)>::empty());
                }
            },
        }
        let ghost before = hints@;
        let esc = hint("esc", "exit");
        hints.push(esc);
        proof {
            assert(hints@ == before.push(esc));
            assert(rows_view(hints@) =~= leader_hints_spec(*st));
        }
        return hints;
    }
    if st.awaiting_action {
        let actions = [
            ("new_column_right", "new"),
            ("close_pane", "close"),
            ("toggle_overview", "overview"),
            ("toggle_command_palette", "palette"),
        ];
        let mut hints: Vec<(String, String)> = Vec::new();
        let mut j: usize = 0;
        while j < 4
            invariant
                j <= 4,
                actions@.len() == 4,
                forall|t: int| 0 <= t < 4 ==> (#[trigger] actions@[t]).0@ == leader_actions()[t].0 && actions@[t].1@ == leader_actions()[t].1,
                rows_view(hints@) == bound_hints(pairs_view(st.bindings@), leader_actions().take(j as int)),
            decreases 4 - j,
        {
            let (action, label) = actions[j];
            proof {
                let w = leader_actions().take(j + 1);
                assert(w.drop_last() =~= leader_actions().take(j as int));
                assert(w.last() == leader_actions()[j as int]);
            }
            match find_key_in(&st.bindings, action) {
                Some(k) => {
                    let ghost prev = hints@;
                    let h = (k, label.to_owned());
                    hints.push(h);
                    proof {
                        assert(hints@ == prev.push(h));
                        assert(rows_view(hints@) =~= bound_hints(pairs_view(st.bindings@), leader_actions().take(j + 1)));
                    }
                },
                None => {},
            }
            j = j + 1;
        }
        proof {
            assert(leader_actions().take(4) =~= leader_actions());
        }
        return hints;
    }
    let mut hints: Vec<(String, String)> = Vec::new();
    if !st.bare_modifier_promotion {
        hints.push((st.leader.clone(), "leader".to_owned()));
    }
    let ghost mid = hints@;
    match &st.direct_help_key {
        Some(k) => {
            hints.push((k.clone(), "help".to_owned()));
        },
        None => {},
    }
    let ghost mid2 = hints@;
    match &st.direct_lock_key {
        Some(k) => {
            hints.push((k.clone(), "lock".to_owned()));
        },
        None => {},
    }
    proof {
        assert(rows_view(hints@) =~= leader_hints_spec(*st));
    }
    hints
}

} // verus!
