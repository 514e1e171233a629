use vstd::prelude::*;
use crate::puyo::Puyo;
use crate::types::{COLS, ROWS, GHOST_ROWS, VISIBLE_CELLS};
use crate::board::{Cells, cell, cells_ok};
use crate::regions::{group_sound, on_field, colour_at, in_some_group, small_region, lemma_groups_are_regions};

verus! {

/// The content of a cell of the visible field.
pub open spec fn vis(cells: Cells, col: int, row: int) -> Option<Puyo> {
    cell(cells, col, row + GHOST_ROWS)
}

/// Index of a visible cell in row-major order.
pub open spec fn vidx(col: int, row: int) -> int {
    row * COLS + col
}

/// Number of cells not yet visited.
pub open spec fn count_false(s: Seq<bool>) -> nat
    decreases s.len(),
{
    if s.len() == 0 {
        0
    } else {
        count_false(s.drop_last()) + if s.last() { 0nat } else { 1nat }
    }
}

/// Visited marks and the cells of the group found so far.
pub type FillState = (Seq<bool>, Seq<(usize, usize)>);

/// The depth-first flood fill from a visible cell: a cell that is not yet
/// visited and holds the target colour is marked, appended to the group,
/// and its neighbours above, below, left and right are filled in that
/// order. `fuel` bounds the depth; it is never exhausted when it is at
/// least the number of unvisited cells.
pub open spec fn flood(cells: Cells, target: Puyo, col: int, row: int, st: FillState, fuel: nat) -> FillState
    decreases fuel,
{
    if fuel == 0 {
        st
    } else if st.0[vidx(col, row)] || vis(cells, col, row) != Some(target) {
        st
    } else {
        let s1 = (st.0.update(vidx(col, row), true), st.1.push((col as usize, row as usize)));
        let s2 = if row > 0 {
            flood(cells, target, col, row - 1, s1, (fuel - 1) as nat)
        } else {
            s1
        };
        let s3 = if row + 1 < ROWS {
            flood(cells, target, col, row + 1, s2, (fuel - 1) as nat)
        } else {
            s2
        };
        let s4 = if col > 0 {
            flood(cells, target, col - 1, row, s3, (fuel - 1) as nat)
        } else {
            s3
        };
        if col + 1 < COLS {
            flood(cells, target, col + 1, row, s4, (fuel - 1) as nat)
        } else {
            s4
        }
    }
}

/// A group of same-coloured puyos: its colour and its visible cells
/// (column, row).
pub type Group = (Puyo, Seq<(usize, usize)>);

/// The visited marks and the groups of four or more found after scanning
/// the first `k` visible cells in row-major order.
pub open spec fn groups_scan(cells: Cells, k: int) -> (Seq<bool>, Seq<Group>)
    decreases k,
{
    if k <= 0 {
        (Seq::new(VISIBLE_CELLS as nat, |i: int| false), seq![])
    } else {
        let (visited, groups) = groups_scan(cells, k - 1);
        let col = (k - 1) % (COLS as int);
        let row = (k - 1) / (COLS as int);
        if visited[k - 1] {
            (visited, groups)
        } else {
            match vis(cells, col, row) {
                None => (visited, groups),
                Some(p) => {
                    let (v2, g) = flood(cells, p, col, row, (visited, seq![]), VISIBLE_CELLS as nat);
                    if g.len() >= 4 {
                        (v2, groups.push((p, g)))
                    } else {
                        (v2, groups)
                    }
                },
            }
        }
    }
}

/// The groups of four or more connected same-coloured puyos of the visible
/// field, in the order the scan finds them.
pub open spec fn chain_groups(cells: Cells) -> Seq<Group> {
    groups_scan(cells, VISIBLE_CELLS as int).1
}

/// A group of same-coloured puyos.
pub struct ChainGroup {
    pub puyo: Puyo,
    pub cells: Vec<(usize, usize)>,
}

impl View for ChainGroup {
    type V = Group;

    open spec fn view(&self) -> Group {
        (self.puyo, self.cells@)
    }
}

/// The groups as plain values.
pub open spec fn groups_view(groups: Seq<ChainGroup>) -> Seq<Group> {
    groups.map_values(|g: ChainGroup| g@)
}

/// Marking one unvisited cell takes one from the unvisited count.
pub(crate) proof fn lemma_count_false_update(s: Seq<bool>, i: int)
    requires
        0 <= i < s.len(),
        !s[i],
    ensures
        count_false(s.update(i, true)) + 1 == count_false(s),
    decreases s.len(),
{
    let t = s.update(i, true);
    if i == s.len() - 1 {
        assert(t.drop_last() =~= s.drop_last());
    } else {
        assert(t.drop_last() =~= s.drop_last().update(i, true));
        lemma_count_false_update(s.drop_last(), i);
    }
}

/// An unvisited cell means the unvisited count is positive.
pub(crate) proof fn lemma_count_false_pos(s: Seq<bool>, i: int)
    requires
        0 <= i < s.len(),
        !s[i],
    ensures
        count_false(s) >= 1,
{
    lemma_count_false_update(s, i);
}

/// The unvisited count is at most the number of cells.
pub(crate) proof fn lemma_count_false_le(s: Seq<bool>)
    ensures
        count_false(s) <= s.len(),
    decreases s.len(),
{
    if s.len() > 0 {
        lemma_count_false_le(s.drop_last());
    }
}

/// Fills the group of `target`-coloured puyos connected to a visible cell,
/// marking each cell it takes.
fn flood_fill(
    col: usize,
    row: usize,
    target: Puyo,
    cells: &Vec<Option<Puyo>>,
    visited: &mut Vec<bool>,
    group: &mut Vec<(usize, usize)>,
    Ghost(fuel): Ghost<nat>,
)
    requires
        cells_ok(cells@),
        old(visited)@.len() == VISIBLE_CELLS,
        col < COLS,
        row < ROWS,
        fuel >= count_false(old(visited)@),
    ensures
        (final(visited)@, final(group)@) == flood(
            cells@,
            target,
            col as int,
            row as int,
            (old(visited)@, old(group)@),
            fuel,
        ),
        final(visited)@.len() == VISIBLE_CELLS,
        forall|i: int| 0 <= i < VISIBLE_CELLS && old(visited)@[i] ==> final(visited)@[i],
        count_false(final(visited)@) + final(group)@.len() == count_false(old(visited)@) + old(
            group,
        )@.len(),
        final(group)@.len() >= old(group)@.len(),
        forall|k: int| 0 <= k < old(group)@.len() ==> final(group)@[k] == old(group)@[k],
        forall|k: int|
            old(group)@.len() <= k < final(group)@.len() ==> (#[trigger] final(group)@[k]).0 < COLS
                && final(group)@[k].1 < ROWS,
    decreases fuel,
{
    let idx = row * COLS + col;
    if visited[idx] || !matches!(cells[(row + GHOST_ROWS) * COLS + col], Some(p) if p == target) {
        proof {
            if fuel > 0 {
                assert(vis(cells@, col as int, row as int) == cells@[(row + GHOST_ROWS) * COLS + col]);
            }
        }
        return;
    }
    proof {
        lemma_count_false_pos(visited@, idx as int);
        assert(vis(cells@, col as int, row as int) == Some(target));
        lemma_count_false_update(visited@, idx as int);
    }
    visited.set(idx, true);
    group.push((col, row));
    let ghost f1 = (fuel - 1) as nat;
    if row > 0 {
        flood_fill(col, row - 1, target, cells, visited, group, Ghost(f1));
    }
    if row + 1 < ROWS {
        flood_fill(col, row + 1, target, cells, visited, group, Ghost(f1));
    }
    if col > 0 {
        flood_fill(col - 1, row, target, cells, visited, group, Ghost(f1));
    }
    if col + 1 < COLS {
        flood_fill(col + 1, row, target, cells, visited, group, Ghost(f1));
    }
}


/// Number of cells over all groups.
pub open spec fn group_total(groups: Seq<Group>) -> nat
    decreases groups.len(),
{
    if groups.len() == 0 {
        0
    } else {
        group_total(groups.drop_last()) + groups.last().1.len()
    }
}

/// Every cell of every group lies on the visible field.
pub open spec fn groups_on_field(groups: Seq<Group>) -> bool {
    forall|g: int, k: int|
        0 <= g < groups.len() && 0 <= k < groups[g].1.len() ==> (#[trigger] groups[g].1[k]).0 < COLS
            && groups[g].1[k].1 < ROWS
}

/// Finds the groups of four or more connected same-coloured puyos of the
/// visible field, scanning it row by row from the top left.
pub fn find_chain_groups(cells: &Vec<Option<Puyo>>) -> (groups: Vec<ChainGroup>)
    requires
        cells_ok(cells@),
    ensures
        groups_view(groups@) == chain_groups(cells@),
        group_total(groups_view(groups@)) <= VISIBLE_CELLS,
        groups@.len() * 4 <= group_total(groups_view(groups@)),
        groups_on_field(groups_view(groups@)),
        forall|g: int|
            0 <= g < groups@.len() ==> group_sound(cells@, #[trigger] groups_view(groups@)[g]),
        forall|a: (usize, usize)|
            on_field(a) && #[trigger] colour_at(cells@, a) is Some ==> in_some_group(
                groups_view(groups@),
                a,
            ) || exists|s: Seq<(usize, usize)>| #[trigger] small_region(cells@, s, a),
{
    proof {
        lemma_groups_are_regions(cells@);
    }
    let mut visited: Vec<bool> = Vec::new();
    let mut n: usize = 0;
    while n < VISIBLE_CELLS
        invariant
            n <= VISIBLE_CELLS,
            visited@ == Seq::new(n as nat, |i: int| false),
        decreases VISIBLE_CELLS - n,
    {
        visited.push(false);
        n = n + 1;
        assert(visited@ =~= Seq::new(n as nat, |i: int| false));
    }
    proof {
        lemma_count_false_le(visited@);
    }
    let mut groups: Vec<ChainGroup> = Vec::new();
    let mut k: usize = 0;
    while k < VISIBLE_CELLS
        invariant
            cells_ok(cells@),
            k <= VISIBLE_CELLS,
            (visited@, groups_view(groups@)) == groups_scan(cells@, k as int),
            visited@.len() == VISIBLE_CELLS,
            group_total(groups_view(groups@)) + count_false(visited@) <= VISIBLE_CELLS,
            groups@.len() * 4 <= group_total(groups_view(groups@)),
            groups_on_field(groups_view(groups@)),
        decreases VISIBLE_CELLS - k,
    {
        let col = k % COLS;
        let row = k / COLS;
        assert(row < ROWS);
        let ghost prev_groups = groups_view(groups@);
        if !visited[k] {
            assert(vidx(col as int, row as int) == k);
            let content = cells[(row + GHOST_ROWS) * COLS + col];
            assert(content == vis(cells@, col as int, row as int));
            match content {
                None => {},
                Some(puyo) => {
                    let mut group: Vec<(usize, usize)> = Vec::new();
                    proof {
                        lemma_count_false_le(visited@);
                    }
                    flood_fill(col, row, puyo, cells, &mut visited, &mut group, Ghost(VISIBLE_CELLS as nat));
                    if group.len() >= 4 {
                        let ghost gv = group@;
                        groups.push(ChainGroup { puyo, cells: group });
                        proof {
                            assert(groups_view(groups@) =~= prev_groups.push((puyo, gv)));
                            assert(groups_view(groups@).drop_last() =~= prev_groups);
                        }
                    }
                },
            }
        }
        k = k + 1;
    }
    proof {
        lemma_count_false_le(visited@);
    }
    groups
}

} // verus!
