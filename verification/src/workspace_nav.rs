//! Moving the focus between workspaces and to a pane named by its id.

use vstd::prelude::*;

verus! {

/// The workspace after `active` when cycling through `count` workspaces
/// (back to the first after the last); `None` when there are none.
pub fn cycle_workspace(active: usize, count: usize) -> (r: Option<usize>)
    ensures
        (r is None) == (count == 0),
        count > 0 ==> r == Some(((active + 1) % (count as int)) as usize),
{
    if count == 0 {
        return None;
    }
    let next = if active % count == count - 1 {
        0
    } else {
        active % count + 1
    };
    proof {
        let a = active as int;
        let n = count as int;
        assert(a == n * (a / n) + a % n) by (nonlinear_arith)
            requires
                n > 0,
        ;
        assert(0 <= a % n < n) by (nonlinear_arith)
            requires
                n > 0,
        ;
        if a % n == n - 1 {
            assert((a + 1) % n == 0) by (nonlinear_arith)
                requires
                    n > 0,
                    a == n * (a / n) + a % n,
                    a % n == n - 1,
            ;
        } else {
            assert((a + 1) % n == a % n + 1) by (nonlinear_arith)
                requires
                    n > 0,
                    a == n * (a / n) + a % n,
                    0 <= a % n < n - 1,
            ;
        }
    }
    Some(next)
}

/// The column at (`w`, `c`) of the layout holds pane `p`.
pub open spec fn holds(layout: Seq<Seq<Seq<u64>>>, w: int, c: int, p: u64) -> bool {
    0 <= w < layout.len() && 0 <= c < layout[w].len() && layout[w][c].contains(p)
}

/// (`w1`, `c1`) comes before (`w2`, `c2`): an earlier workspace, or an
/// earlier column of the same one.
pub open spec fn column_before(w1: int, c1: int, w2: int, c2: int) -> bool {
    w1 < w2 || (w1 == w2 && c1 < c2)
}

/// `t` is the first place of pane `p` in the column `col`.
pub open spec fn first_tile(col: Seq<u64>, t: int, p: u64) -> bool {
    0 <= t < col.len() && col[t] == p && forall|j: int| 0 <= j < t ==> col[j] != p
}

/// Where pane `pane_id` sits in a layout of workspaces, each a list of
/// columns, each a list of the pane ids of its tiles: the first workspace
/// and column (in that order) that holds it, and its tile there; `None`
/// when no column holds it.
pub fn locate_pane(layout: &Vec<Vec<Vec<u64>>>, pane_id: u64) -> (r: Option<(usize, usize, usize)>)
    ensures
        match r {
            None => forall|w: int, c: int| !holds(layout.deep_view(), w, c, pane_id),
            Some((w, c, t)) => {
                &&& holds(layout.deep_view(), w as int, c as int, pane_id)
                &&& first_tile(layout.deep_view()[w as int][c as int], t as int, pane_id)
                &&& forall|w2: int, c2: int|
                    column_before(w2, c2, w as int, c as int) ==> !holds(layout.deep_view(), w2, c2, pane_id)
            },
        },
{
    let ghost l = layout.deep_view();
    let mut w: usize = 0;
    while w < layout.len()
        invariant
            l == layout.deep_view(),
            w <= layout.len(),
            forall|w2: int, c2: int| 0 <= w2 < w ==> !holds(l, w2, c2, pane_id),
        decreases layout.len() - w,
    {
        let ws = &layout[w];
        assert(ws.deep_view() == l[w as int]);
        let mut c: usize = 0;
        while c < ws.len()
            invariant
                l == layout.deep_view(),
                w < layout.len(),
                ws.deep_view() == l[w as int],
                c <= ws.len(),
                forall|w2: int, c2: int| 0 <= w2 < w ==> !holds(l, w2, c2, pane_id),
                forall|c2: int| 0 <= c2 < c ==> !holds(l, w as int, c2, pane_id),
            decreases ws.len() - c,
        {
            let col = &ws[c];
            assert(col.deep_view() == l[w as int][c as int]);
            let mut t: usize = 0;
            while t < col.len()
                invariant
                    l == layout.deep_view(),
                    col.deep_view() == l[w as int][c as int],
                    w < l.len(),
                    c < l[w as int].len(),
                    t <= col.len(),
                    forall|w2: int, c2: int| 0 <= w2 < w ==> !holds(l, w2, c2, pane_id),
                    forall|c2: int| 0 <= c2 < c ==> !holds(l, w as int, c2, pane_id),
                    forall|j: int| 0 <= j < t ==> col@[j] != pane_id,
                decreases col.len() - t,
            {
                if col[t] == pane_id {
                    proof {
                        assert(l[w as int][c as int][t as int] == pane_id);
                        assert(l[w as int][c as int].contains(pane_id));
                        assert forall|w2: int, c2: int|
                            column_before(w2, c2, w as int, c as int) implies !holds(l, w2, c2, pane_id) by {
                            if w2 == w {
                                assert(0 <= c2 < c ==> !holds(l, w as int, c2, pane_id));
                            }
                        }
                    }
                    return Some((w, c, t));
                }
                t = t + 1;
            }
            proof {
                assert forall|x: u64| l[w as int][c as int].contains(x) implies x != pane_id by {
                    let j = choose|j: int| 0 <= j < l[w as int][c as int].len() && l[w as int][c as int][j] == x;
                    assert(col@[j] != pane_id);
                }
            }
            c = c + 1;
        }
        proof {
            assert forall|w2: int, c2: int| 0 <= w2 < w + 1 implies !holds(l, w2, c2, pane_id) by {
                if w2 == w && 0 <= c2 < ws.len() {
                    assert(!holds(l, w as int, c2, pane_id));
                }
            }
        }
        w = w + 1;
    }
    None
}

} // verus!
