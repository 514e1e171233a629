use vstd::prelude::*;
use crate::puyo::Puyo;
use crate::types::{COLS, ROWS, VISIBLE_CELLS};
use crate::board::Cells;
use crate::chain::{
    vis, vidx, count_false, flood, FillState, Group, groups_scan, chain_groups, group_total,
    lemma_count_false_update, lemma_count_false_pos, lemma_count_false_le,
};

verus! {

/// A visible cell (column, row) lies on the field.
pub open spec fn on_field(a: (usize, usize)) -> bool {
    a.0 < COLS && a.1 < ROWS
}

/// Two visible cells share a side.
pub open spec fn adjacent(a: (usize, usize), b: (usize, usize)) -> bool {
    ||| a.0 == b.0 && (a.1 + 1 == b.1 || b.1 + 1 == a.1)
    ||| a.1 == b.1 && (a.0 + 1 == b.0 || b.0 + 1 == a.0)
}

/// The content of a visible cell.
pub open spec fn colour_at(cells: Cells, a: (usize, usize)) -> Option<Puyo> {
    vis(cells, a.0 as int, a.1 as int)
}

/// The row-major index of a visible cell.
pub open spec fn index_of(a: (usize, usize)) -> int {
    vidx(a.0 as int, a.1 as int)
}

/// Every cell of `s` after position `lo` shares a side with an earlier one
/// at or after `lo`: the cells from `lo` on are connected.
pub open spec fn linked_from(s: Seq<(usize, usize)>, lo: int) -> bool {
    forall|k: int| lo < k < s.len() ==> #[trigger] linked_at(s, lo, k)
}

/// The cell at position `k` of `s` shares a side with one at a position
/// from `lo` up to `k`.
pub open spec fn linked_at(s: Seq<(usize, usize)>, lo: int, k: int) -> bool {
    exists|j: int| lo <= j < k && #[trigger] adjacent(s[j], s[k])
}

/// No cell of colour `c` next to a cell of `s` is missing from `s`.
pub open spec fn region_closed(cells: Cells, c: Option<Puyo>, s: Seq<(usize, usize)>) -> bool {
    forall|a: (usize, usize), b: (usize, usize)|
        #![trigger s.contains(a), adjacent(a, b)]
        s.contains(a) && on_field(b) && adjacent(a, b) && colour_at(cells, b) == c ==> s.contains(b)
}

/// A group that pops: four or more distinct cells of its colour, connected,
/// and with no cell of that colour next to it left out.
pub open spec fn group_sound(cells: Cells, g: Group) -> bool {
    &&& g.1.len() >= 4
    &&& forall|k: int|
        0 <= k < g.1.len() ==> on_field(#[trigger] g.1[k]) && colour_at(cells, g.1[k]) == Some(g.0)
    &&& g.1.no_duplicates()
    &&& linked_from(g.1, 0)
    &&& region_closed(cells, Some(g.0), g.1)
}

/// `s` is a set of fewer than four cells of the colour of `a`, containing
/// `a`, with no cell of that colour next to it left out: the region of `a`
/// is too small to pop.
pub open spec fn small_region(cells: Cells, s: Seq<(usize, usize)>, a: (usize, usize)) -> bool {
    &&& s.len() < 4
    &&& s.contains(a)
    &&& forall|x: (usize, usize)|
        #[trigger] s.contains(x) ==> on_field(x) && colour_at(cells, x) == colour_at(cells, a)
    &&& region_closed(cells, colour_at(cells, a), s)
}

/// The cell belongs to one of the groups.
pub open spec fn in_some_group(groups: Seq<Group>, a: (usize, usize)) -> bool {
    exists|g: int| 0 <= g < groups.len() && #[trigger] groups[g].1.contains(a)
}

/// The fill `r` continues the fill `st`: it keeps what `st` had, and what it
/// adds are distinct, newly marked cells of colour `p`.
spec fn extends(cells: Cells, p: Puyo, st: FillState, r: FillState) -> bool {
    &&& r.0.len() == VISIBLE_CELLS
    &&& st.1.len() <= r.1.len()
    &&& forall|k: int| 0 <= k < st.1.len() ==> #[trigger] r.1[k] == st.1[k]
    &&& forall|i: int| 0 <= i < VISIBLE_CELLS && #[trigger] st.0[i] ==> r.0[i]
    &&& forall|k: int|
        st.1.len() <= k < r.1.len() ==> {
            &&& on_field(#[trigger] r.1[k])
            &&& colour_at(cells, r.1[k]) == Some(p)
            &&& !st.0[index_of(r.1[k])]
            &&& r.0[index_of(r.1[k])]
        }
    &&& forall|i: int|
        0 <= i < VISIBLE_CELLS && #[trigger] r.0[i] && !st.0[i] ==> exists|k: int|
            st.1.len() <= k < r.1.len() && #[trigger] index_of(r.1[k]) == i
    &&& forall|k1: int, k2: int|
        st.1.len() <= k1 < k2 < r.1.len() ==> #[trigger] r.1[k1] != #[trigger] r.1[k2]
    &&& count_false(r.0) + r.1.len() == count_false(st.0) + st.1.len()
}

/// Every same-coloured neighbour of a cell that `r` added from position `lo`
/// on is marked.
spec fn closed_from(cells: Cells, p: Puyo, r: FillState, lo: int) -> bool {
    forall|k: int, b: (usize, usize)|
        #![trigger adjacent(r.1[k], b)]
        lo <= k < r.1.len() && on_field(b) && adjacent(r.1[k], b) && colour_at(cells, b) == Some(p)
            ==> r.0[index_of(b)]
}

/// A fill from `parent`, begun in `st`, whose neighbours are being visited.
spec fn in_progress(cells: Cells, p: Puyo, st: FillState, s: FillState, parent: (usize, usize), fuel: nat) -> bool {
    &&& extends(cells, p, st, s)
    &&& s.1.len() > st.1.len()
    &&& s.1[st.1.len() as int] == parent
    &&& linked_from(s.1, st.1.len() as int)
    &&& closed_from(cells, p, s, st.1.len() as int + 1)
    &&& count_false(s.0) <= fuel
}

/// Distinct cells of the field have distinct indices below the cell count.
proof fn lemma_index(a: (usize, usize), b: (usize, usize))
    requires
        on_field(a),
        on_field(b),
    ensures
        0 <= index_of(a) < VISIBLE_CELLS,
        index_of(a) == index_of(b) ==> a == b,
{
}

proof fn lemma_extends_refl(cells: Cells, p: Puyo, st: FillState)
    requires
        st.0.len() == VISIBLE_CELLS,
    ensures
        extends(cells, p, st, st),
{
}

proof fn lemma_extends_trans(cells: Cells, p: Puyo, a: FillState, b: FillState, c: FillState)
    requires
        a.0.len() == VISIBLE_CELLS,
        extends(cells, p, a, b),
        extends(cells, p, b, c),
    ensures
        extends(cells, p, a, c),
{
    assert forall|i: int|
        0 <= i < VISIBLE_CELLS && #[trigger] c.0[i] && !a.0[i] implies exists|k: int|
            a.1.len() <= k < c.1.len() && #[trigger] index_of(c.1[k]) == i by {
        if b.0[i] {
            let k = choose|k: int| a.1.len() <= k < b.1.len() && #[trigger] index_of(b.1[k]) == i;
            assert(c.1[k] == b.1[k]);
        } else {
            let k = choose|k: int| b.1.len() <= k < c.1.len() && #[trigger] index_of(c.1[k]) == i;
            assert(a.1.len() <= k);
        }
    }
    assert forall|k1: int, k2: int| a.1.len() <= k1 < k2 < c.1.len() implies #[trigger] c.1[k1]
        != #[trigger] c.1[k2] by {
        if k2 < b.1.len() {
            assert(c.1[k1] == b.1[k1]);
            assert(c.1[k2] == b.1[k2]);
        } else if k1 < b.1.len() {
            assert(c.1[k1] == b.1[k1]);
            assert(b.0[index_of(b.1[k1])]);
            lemma_index(b.1[k1], b.1[k1]);
            assert(c.1[k2] != c.1[k1]);
        }
    }
    assert forall|k: int| a.1.len() <= k < c.1.len() implies {
        &&& on_field(#[trigger] c.1[k])
        &&& colour_at(cells, c.1[k]) == Some(p)
        &&& !a.0[index_of(c.1[k])]
        &&& c.0[index_of(c.1[k])]
    } by {
        if k < b.1.len() {
            assert(c.1[k] == b.1[k]);
            lemma_index(b.1[k], b.1[k]);
        } else {
            lemma_index(c.1[k], c.1[k]);
        }
    }
}

/// Marking an unvisited cell of colour `p` and appending it continues the
/// fill.
proof fn lemma_mark(cells: Cells, p: Puyo, st: FillState, col: int, row: int)
    requires
        st.0.len() == VISIBLE_CELLS,
        0 <= col < COLS,
        0 <= row < ROWS,
        !st.0[vidx(col, row)],
        vis(cells, col, row) == Some(p),
    ensures
        extends(
            cells,
            p,
            st,
            (st.0.update(vidx(col, row), true), st.1.push((col as usize, row as usize))),
        ),
        count_false(st.0.update(vidx(col, row), true)) + 1 == count_false(st.0),
{
    let s1 = (st.0.update(vidx(col, row), true), st.1.push((col as usize, row as usize)));
    let parent = (col as usize, row as usize);
    lemma_count_false_update(st.0, vidx(col, row));
    assert(index_of(parent) == vidx(col, row));
    assert forall|i: int|
        0 <= i < VISIBLE_CELLS && #[trigger] s1.0[i] && !st.0[i] implies exists|k: int|
            st.1.len() <= k < s1.1.len() && #[trigger] index_of(s1.1[k]) == i by {
        assert(i == vidx(col, row));
        assert(index_of(s1.1[st.1.len() as int]) == i);
    }
}

/// What a fill from (`col`, `row`) does, given enough fuel.
proof fn lemma_flood(cells: Cells, p: Puyo, col: int, row: int, st: FillState, fuel: nat)
    requires
        st.0.len() == VISIBLE_CELLS,
        0 <= col < COLS,
        0 <= row < ROWS,
        fuel >= count_false(st.0),
    ensures
        extends(cells, p, st, flood(cells, p, col, row, st, fuel)),
        vis(cells, col, row) == Some(p) ==> flood(cells, p, col, row, st, fuel).0[vidx(col, row)],
        flood(cells, p, col, row, st, fuel).1.len() > st.1.len() ==> flood(
            cells,
            p,
            col,
            row,
            st,
            fuel,
        ).1[st.1.len() as int] == (col as usize, row as usize),
        linked_from(flood(cells, p, col, row, st, fuel).1, st.1.len() as int),
        closed_from(cells, p, flood(cells, p, col, row, st, fuel), st.1.len() as int),
    decreases fuel, 1int,
{
    if fuel == 0 || st.0[vidx(col, row)] || vis(cells, col, row) != Some(p) {
        lemma_extends_refl(cells, p, st);
        if vis(cells, col, row) == Some(p) && !st.0[vidx(col, row)] {
            lemma_count_false_pos(st.0, vidx(col, row));
        }
    } else {
        let parent = (col as usize, row as usize);
        let s1 = (st.0.update(vidx(col, row), true), st.1.push(parent));
        let f1 = (fuel - 1) as nat;
        lemma_mark(cells, p, st, col, row);
        assert(s1.1[st.1.len() as int] == parent);
        assert(in_progress(cells, p, st, s1, parent, f1));
        let s2 = lemma_visit(cells, p, st, s1, col, row, row > 0, col, row - 1, f1);
        let s3 = lemma_visit(cells, p, st, s2, col, row, row + 1 < ROWS, col, row + 1, f1);
        let s4 = lemma_visit(cells, p, st, s3, col, row, col > 0, col - 1, row, f1);
        let s5 = lemma_visit(cells, p, st, s4, col, row, col + 1 < COLS, col + 1, row, f1);
        assert(s5 == flood(cells, p, col, row, st, fuel));
        assert(index_of(parent) == vidx(col, row));
        assert(s5.0[vidx(col, row)]) by {
            assert(s5.1[st.1.len() as int] == parent);
        }
        assert forall|k: int, b: (usize, usize)|
            st.1.len() <= k < s5.1.len() && on_field(b) && #[trigger] adjacent(s5.1[k], b)
                && colour_at(cells, b) == Some(p) implies s5.0[index_of(b)] by {
            if k > st.1.len() {
            } else {
                assert(s5.1[k] == parent);
                lemma_index(b, b);
                let i = index_of(b);
                if b.0 == parent.0 && b.1 + 1 == parent.1 {
                    assert(i == vidx(col, row - 1));
                    assert(s2.0[i]);
                } else if b.0 == parent.0 && parent.1 + 1 == b.1 {
                    assert(i == vidx(col, row + 1));
                    assert(s3.0[i]);
                } else if b.1 == parent.1 && b.0 + 1 == parent.0 {
                    assert(i == vidx(col - 1, row));
                    assert(s4.0[i]);
                } else {
                    assert(i == vidx(col + 1, row));
                    assert(s5.0[i]);
                }
            }
        }
    }
}

/// Visits one neighbour of `parent` during a fill: a fill from the
/// neighbour when `go` holds, nothing otherwise.
proof fn lemma_visit(
    cells: Cells,
    p: Puyo,
    st: FillState,
    s: FillState,
    col: int,
    row: int,
    go: bool,
    nc: int,
    nr: int,
    f1: nat,
) -> (t: FillState)
    requires
        st.0.len() == VISIBLE_CELLS,
        0 <= col < COLS,
        0 <= row < ROWS,
        go ==> 0 <= nc < COLS && 0 <= nr < ROWS && adjacent(
            (col as usize, row as usize),
            (nc as usize, nr as usize),
        ),
        in_progress(cells, p, st, s, (col as usize, row as usize), f1),
    ensures
        t == (if go {
            flood(cells, p, nc, nr, s, f1)
        } else {
            s
        }),
        in_progress(cells, p, st, t, (col as usize, row as usize), f1),
        extends(cells, p, s, t),
        go && vis(cells, nc, nr) == Some(p) ==> t.0[vidx(nc, nr)],
    decreases f1 + 1, 0int,
{
    let parent = (col as usize, row as usize);
    let k0 = st.1.len() as int;
    if !go {
        lemma_extends_refl(cells, p, s);
        s
    } else {
        let t = flood(cells, p, nc, nr, s, f1);
        lemma_flood(cells, p, nc, nr, s, f1);
        lemma_extends_trans(cells, p, st, s, t);
        assert(t.1[k0] == parent);
        assert forall|k: int| k0 < k < t.1.len() implies #[trigger] linked_at(t.1, k0, k) by {
            if k < s.1.len() {
                assert(t.1[k] == s.1[k]);
                assert(linked_at(s.1, k0, k));
                let j = choose|j: int| k0 <= j < k && #[trigger] adjacent(s.1[j], s.1[k]);
                assert(t.1[j] == s.1[j]);
                assert(adjacent(t.1[j], t.1[k]));
            } else if k == s.1.len() {
                assert(t.1[k] == (nc as usize, nr as usize));
                assert(adjacent(t.1[k0], t.1[k]));
            } else {
                assert(linked_at(t.1, s.1.len() as int, k));
                let j = choose|j: int| s.1.len() <= j < k && #[trigger] adjacent(t.1[j], t.1[k]);
                assert(adjacent(t.1[j], t.1[k]));
            }
        }
        assert(linked_from(t.1, k0));
        assert(count_false(t.0) <= f1);
        assert forall|k: int, b: (usize, usize)|
            k0 + 1 <= k < t.1.len() && on_field(b) && #[trigger] adjacent(t.1[k], b) && colour_at(
                cells,
                b,
            ) == Some(p) implies t.0[index_of(b)] by {
            if k < s.1.len() {
                assert(t.1[k] == s.1[k]);
                assert(adjacent(s.1[k], b));
                lemma_index(b, b);
                assert(s.0[index_of(b)]);
            }
        }
        assert(closed_from(cells, p, t, k0 + 1));
        t
    }
}

/// The cells of colour `c` next to a marked cell of colour `c` are marked.
spec fn marks_closed(cells: Cells, visited: Seq<bool>) -> bool {
    forall|a: (usize, usize), b: (usize, usize)|
        #![trigger visited[index_of(a)], adjacent(a, b)]
        on_field(a) && visited[index_of(a)] && on_field(b) && adjacent(a, b) && colour_at(cells, b)
            == colour_at(cells, a) ==> visited[index_of(b)]
}

/// The cell is in one of the groups or in a region too small to pop.
spec fn accounted(cells: Cells, groups: Seq<Group>, a: (usize, usize)) -> bool {
    in_some_group(groups, a) || exists|s: Seq<(usize, usize)>| #[trigger] small_region(cells, s, a)
}

/// What holds after the scan has looked at the first `k` visible cells.
spec fn scan_ok(cells: Cells, k: int, visited: Seq<bool>, groups: Seq<Group>) -> bool {
    &&& visited.len() == VISIBLE_CELLS
    &&& forall|a: (usize, usize)|
        on_field(a) && #[trigger] visited[index_of(a)] ==> colour_at(cells, a) is Some
    &&& marks_closed(cells, visited)
    &&& forall|a: (usize, usize)|
        on_field(a) && index_of(a) < k && colour_at(cells, a) is Some ==> #[trigger] visited[index_of(a)]
    &&& forall|g: int| 0 <= g < groups.len() ==> group_sound(cells, #[trigger] groups[g])
    &&& forall|g: int, x: (usize, usize)|
        0 <= g < groups.len() && #[trigger] groups[g].1.contains(x) ==> visited[index_of(x)]
    &&& forall|g1: int, g2: int, x: (usize, usize)|
        0 <= g1 < g2 < groups.len() && #[trigger] groups[g1].1.contains(x) ==> !(
        #[trigger] groups[g2].1.contains(x))
    &&& forall|a: (usize, usize)|
        on_field(a) && #[trigger] visited[index_of(a)] ==> accounted(cells, groups, a)
    &&& group_total(groups) + count_false(visited) <= VISIBLE_CELLS
    &&& groups.len() * 4 <= group_total(groups)
}

/// A sequence of `n` unmarked cells counts `n` unmarked.
proof fn lemma_count_false_all(n: nat)
    ensures
        count_false(Seq::new(n, |i: int| false)) == n,
    decreases n,
{
    if n > 0 {
        lemma_count_false_all((n - 1) as nat);
        assert(Seq::new(n, |i: int| false).drop_last() =~= Seq::new((n - 1) as nat, |i: int| false));
    }
}

/// A fill started from an unmarked cell of colour `p` during the scan keeps
/// the scan invariant, whether or not its cells form a group.
proof fn lemma_scan_fill(
    cells: Cells,
    p: Puyo,
    c: (usize, usize),
    k: int,
    visited: Seq<bool>,
    groups: Seq<Group>,
    r: FillState,
)
    requires
        scan_ok(cells, k - 1, visited, groups),
        on_field(c),
        index_of(c) == k - 1,
        colour_at(cells, c) == Some(p),
        extends(cells, p, (visited, seq![]), r),
        r.0[index_of(c)],
        linked_from(r.1, 0),
        closed_from(cells, p, r, 0),
    ensures
        scan_ok(
            cells,
            k,
            r.0,
            if r.1.len() >= 4 {
                groups.push((p, r.1))
            } else {
                groups
            },
        ),
{
    let st: FillState = (visited, seq![]);
    let g = r.1;
    let ng = if g.len() >= 4 {
        groups.push((p, g))
    } else {
        groups
    };
    // a cell marked by the fill is one of its cells
    assert forall|a: (usize, usize)| on_field(a) && r.0[index_of(a)] && !visited[index_of(a)] implies
        g.contains(a) by {
        lemma_index(a, a);
        let i = index_of(a);
        assert(r.0[i] && !st.0[i]);
        let j = choose|j: int| 0 <= j < g.len() && #[trigger] index_of(r.1[j]) == i;
        lemma_index(g[j], a);
    }
    // the cells of the fill are those of colour p next to it
    assert forall|x: (usize, usize)| #[trigger] g.contains(x) implies on_field(x) && colour_at(cells, x)
        == Some(p) && !visited[index_of(x)] && r.0[index_of(x)] by {
        let j = choose|j: int| 0 <= j < g.len() && g[j] == x;
        assert(r.1[j] == x);
    }
    assert(region_closed(cells, Some(p), g)) by {
        assert forall|a: (usize, usize), b: (usize, usize)|
            g.contains(a) && on_field(b) && adjacent(a, b) && colour_at(cells, b) == Some(p) implies
            g.contains(b) by {
            let j = choose|j: int| 0 <= j < g.len() && g[j] == a;
            assert(adjacent(r.1[j], b));
            lemma_index(b, b);
            assert(r.0[index_of(b)]);
            if visited[index_of(b)] {
                assert(adjacent(b, a));
                assert(visited[index_of(a)]);
            }
        }
    }
    assert(g.no_duplicates()) by {
        assert forall|i: int, j: int| 0 <= i < g.len() && 0 <= j < g.len() && i != j implies g[i]
            != g[j] by {
            if i < j {
                assert(r.1[i] != r.1[j]);
            } else {
                assert(r.1[j] != r.1[i]);
            }
        }
    }
    // the marks stay closed
    assert forall|a: (usize, usize), b: (usize, usize)|
        #![trigger r.0[index_of(a)], adjacent(a, b)]
        on_field(a) && r.0[index_of(a)] && on_field(b) && adjacent(a, b) && colour_at(cells, b)
            == colour_at(cells, a) implies r.0[index_of(b)] by {
        lemma_index(b, b);
        if visited[index_of(a)] {
            assert(visited[index_of(b)]);
        } else {
            assert(g.contains(a));
            let j = choose|j: int| 0 <= j < g.len() && g[j] == a;
            assert(adjacent(r.1[j], b));
        }
    }
    assert forall|a: (usize, usize)| on_field(a) && #[trigger] r.0[index_of(a)] implies colour_at(cells, a) is Some by {
        if !visited[index_of(a)] {
            assert(g.contains(a));
        }
    }
    assert forall|a: (usize, usize)|
        on_field(a) && index_of(a) < k && colour_at(cells, a) is Some implies #[trigger] r.0[index_of(a)] by {
        lemma_index(a, c);
        if index_of(a) < k - 1 {
            assert(visited[index_of(a)]);
        }
    }
    assert forall|gi: int| 0 <= gi < ng.len() implies group_sound(cells, #[trigger] ng[gi]) by {
        if gi < groups.len() {
            assert(ng[gi] == groups[gi]);
        } else {
            assert(ng[gi] == (p, g));
            assert forall|j: int| 0 <= j < g.len() implies on_field(#[trigger] g[j]) && colour_at(cells, g[j]) == Some(p) by {
                assert(g.contains(g[j]));
            }
        }
    }
    assert forall|gi: int, x: (usize, usize)| 0 <= gi < ng.len() && #[trigger] ng[gi].1.contains(x) implies r.0[index_of(x)] by {
        if gi < groups.len() {
            assert(ng[gi] == groups[gi]);
            assert(visited[index_of(x)]);
            assert(on_field(x)) by {
                let j = choose|j: int| 0 <= j < groups[gi].1.len() && groups[gi].1[j] == x;
                assert(group_sound(cells, groups[gi]));
            }
            lemma_index(x, x);
        } else {
            assert(ng[gi] == (p, g));
        }
    }
    assert forall|g1: int, g2: int, x: (usize, usize)|
        0 <= g1 < g2 < ng.len() && #[trigger] ng[g1].1.contains(x) implies !(#[trigger] ng[g2].1.contains(x)) by {
        assert(ng[g1] == groups[g1]);
        if g2 < groups.len() {
            assert(ng[g2] == groups[g2]);
        } else {
            assert(visited[index_of(x)]);
            assert(ng[g2] == (p, g));
        }
    }
    if g.len() >= 4 {
        assert(ng.drop_last() =~= groups);
        assert(group_total(ng) == group_total(groups) + g.len());
    }
    assert forall|a: (usize, usize)| on_field(a) && #[trigger] r.0[index_of(a)] implies accounted(cells, ng, a) by {
        if visited[index_of(a)] {
            assert(accounted(cells, groups, a));
            if in_some_group(groups, a) {
                let gi = choose|gi: int| 0 <= gi < groups.len() && #[trigger] groups[gi].1.contains(a);
                assert(ng[gi] == groups[gi]);
                assert(in_some_group(ng, a));
            }
        } else {
            assert(g.contains(a));
            if g.len() >= 4 {
                assert(ng[groups.len() as int] == (p, g));
                assert(in_some_group(ng, a));
            } else {
                assert(colour_at(cells, a) == Some(p));
                assert(small_region(cells, g, a));
            }
        }
    }
}

/// The scan invariant holds after every prefix of the scan.
proof fn lemma_scan(cells: Cells, k: int)
    requires
        0 <= k <= VISIBLE_CELLS,
    ensures
        scan_ok(cells, k, groups_scan(cells, k).0, groups_scan(cells, k).1),
    decreases k,
{
    if k == 0 {
        let visited = groups_scan(cells, k).0;
        lemma_count_false_all(VISIBLE_CELLS as nat);
        assert forall|a: (usize, usize)| on_field(a) implies !(#[trigger] visited[index_of(a)]) by {
            lemma_index(a, a);
        }
    } else {
        lemma_scan(cells, k - 1);
        let (visited, groups) = groups_scan(cells, k - 1);
        let col = (k - 1) % (COLS as int);
        let row = (k - 1) / (COLS as int);
        let c = (col as usize, row as usize);
        assert(index_of(c) == k - 1);
        if visited[k - 1] {
            assert forall|a: (usize, usize)|
                on_field(a) && index_of(a) < k && colour_at(cells, a) is Some implies #[trigger] visited[index_of(a)] by {
                lemma_index(a, c);
            }
        } else {
            match vis(cells, col, row) {
                None => {
                    assert forall|a: (usize, usize)|
                        on_field(a) && index_of(a) < k && colour_at(cells, a) is Some implies #[trigger] visited[index_of(a)] by {
                        lemma_index(a, c);
                    }
                },
                Some(p) => {
                    let st: FillState = (visited, seq![]);
                    lemma_count_false_le(visited);
                    lemma_flood(cells, p, col, row, st, VISIBLE_CELLS as nat);
                    let r = flood(cells, p, col, row, st, VISIBLE_CELLS as nat);
                    lemma_scan_fill(cells, p, c, k, visited, groups, r);
                },
            }
        }
    }
}

/// The groups that pop are exactly the regions of four or more connected
/// puyos of one colour. Each group holds four or more distinct cells of its
/// colour, connected side to side, with no cell of that colour next to it
/// left out; no cell is in two groups; and every puyo of the visible field
/// that is in no group lies in a region of fewer than four cells of its
/// colour with no cell of that colour next to it left out.
pub proof fn lemma_groups_are_regions(cells: Cells)
    ensures
        forall|g: int|
            0 <= g < chain_groups(cells).len() ==> group_sound(cells, #[trigger] chain_groups(cells)[g]),
        forall|g1: int, g2: int, x: (usize, usize)|
            0 <= g1 < g2 < chain_groups(cells).len() && #[trigger] chain_groups(cells)[g1].1.contains(x)
                ==> !(#[trigger] chain_groups(cells)[g2].1.contains(x)),
        forall|a: (usize, usize)|
            on_field(a) && #[trigger] colour_at(cells, a) is Some ==> in_some_group(chain_groups(cells), a)
                || exists|s: Seq<(usize, usize)>| #[trigger] small_region(cells, s, a),
        group_total(chain_groups(cells)) <= VISIBLE_CELLS,
        chain_groups(cells).len() * 4 <= group_total(chain_groups(cells)),
{
    lemma_scan(cells, VISIBLE_CELLS as int);
    let visited = groups_scan(cells, VISIBLE_CELLS as int).0;
    let groups = chain_groups(cells);
    assert forall|a: (usize, usize)| on_field(a) && #[trigger] colour_at(cells, a) is Some implies
        in_some_group(groups, a) || exists|s: Seq<(usize, usize)>| #[trigger] small_region(cells, s, a) by {
        lemma_index(a, a);
        assert(visited[index_of(a)]);
        assert(accounted(cells, groups, a));
    }
}

} // verus!
