use vstd::prelude::*;
use crate::puyo::Puyo;
use crate::types::{COLS, TOTAL_ROWS, CELLS, Col, FieldRow, GameEvent, DroppingPuyo, DROP_VELOCITY_INITIAL};
use crate::board::{Cells, Falling, cell, cell_index, cells_ok, landing, landing_row, settled, lemma_landing_of_prefix, lemma_settled_column, floating_in_column, floating_upto, without_floating, is_floating, lemma_landing_is_lowest};

verus! {

/// The order in which falling puyos are handled: by column from the left,
/// and within a column from the bottom up.
pub open spec fn drop_key(f: Falling) -> int {
    f.1.0 * TOTAL_ROWS + (TOTAL_ROWS - 1 - f.2.0)
}

/// The puyos among the first `n` of `s` whose order key is `k`, in their
/// order in `s`.
pub open spec fn with_key(s: Seq<Falling>, k: int, n: int) -> Seq<Falling>
    decreases n,
{
    if n <= 0 {
        seq![]
    } else if drop_key(s[n - 1]) == k {
        with_key(s, k, n - 1).push(s[n - 1])
    } else {
        with_key(s, k, n - 1)
    }
}

/// The puyos of `s` with an order key below `k`, sorted by key; puyos with
/// equal keys keep their order.
pub open spec fn sorted_upto(s: Seq<Falling>, k: int) -> Seq<Falling>
    decreases k,
{
    if k <= 0 {
        seq![]
    } else {
        sorted_upto(s, k - 1) + with_key(s, k - 1, s.len() as int)
    }
}

/// The falling puyos in the order they are handled.
pub open spec fn drop_order(s: Seq<Falling>) -> Seq<Falling> {
    sorted_upto(s, CELLS as int)
}

/// Cells, events, dropping puyos and, per column, the rows promised to
/// puyos still in the air.
pub type DropState = (Cells, Seq<GameEvent>, Seq<DroppingPuyo>, Seq<int>);

/// Handles one falling puyo: its target is the landing row of its column
/// minus the rows promised to puyos still in the air. A puyo already at its
/// target is put on the field at once (and reported as landed); any other
/// starts to drop and promises its row.
pub open spec fn drop_one(st: DropState, f: Falling) -> DropState {
    let (cells, events, dropping, offsets) = st;
    let ci = f.1.0 as int;
    match landing(cells, ci) {
        None => st,
        Some(l) => {
            let target = l - offsets[ci];
            if target <= f.2.0 {
                (
                    cells.update(cell_index(ci, target), Some(f.0)),
                    events.push(GameEvent::PuyoLanded),
                    dropping,
                    offsets,
                )
            } else {
                (
                    cells,
                    events,
                    dropping.push(
                        DroppingPuyo {
                            puyo: f.0,
                            col: f.1,
                            row: (f.2.0 * 1_000_000) as u64,
                            target_row: target as usize,
                            velocity: DROP_VELOCITY_INITIAL,
                        },
                    ),
                    offsets.update(ci, offsets[ci] + 1),
                )
            }
        },
    }
}

/// Handles a sequence of falling puyos one after the other.
pub open spec fn drop_all(st: DropState, s: Seq<Falling>) -> DropState
    decreases s.len(),
{
    if s.len() == 0 {
        st
    } else {
        drop_one(drop_all(st, s.drop_last()), s.last())
    }
}

/// The state the drop starts from: no row promised yet.
pub open spec fn drop_start(cells: Cells, events: Seq<GameEvent>, dropping: Seq<DroppingPuyo>) -> DropState {
    (cells, events, dropping, seq![0int, 0, 0, 0, 0, 0])
}

/// A cell that is free and that no dropping puyo will land on.
pub open spec fn stays_free(cells: Cells, dropping: Seq<DroppingPuyo>, c: int, r: int) -> bool {
    &&& cell(cells, c, r) is None
    &&& !exists|j: int|
        0 <= j < dropping.len() && (#[trigger] dropping[j]).col.0 == c && dropping[j].target_row
            == r
}

/// The dropping puyos land on distinct free cells of the field, and once
/// they have all landed nothing floats.
pub open spec fn drop_consistent(cells: Cells, dropping: Seq<DroppingPuyo>) -> bool {
    &&& cells_ok(cells)
    &&& forall|j: int|
        0 <= j < dropping.len() ==> (#[trigger] dropping[j]).col.0 < COLS
            && dropping[j].target_row < TOTAL_ROWS && cell(
            cells,
            dropping[j].col.0 as int,
            dropping[j].target_row as int,
        ) is None
    &&& forall|j: int, k: int|
        0 <= j < dropping.len() && 0 <= k < dropping.len() && j != k && (#[trigger] dropping[j]).col
            == (#[trigger] dropping[k]).col ==> dropping[j].target_row != dropping[k].target_row
    &&& forall|c: int, r1: int, r2: int|
        0 <= c < COLS && 0 <= r1 < r2 < TOTAL_ROWS && #[trigger] stays_free(cells, dropping, c, r2)
            ==> #[trigger] stays_free(cells, dropping, c, r1)
}

/// What a drop can start from: a settled field, falling puyos on distinct
/// cells of the field, each at or above its column's landing row.
pub open spec fn drop_ready(cells: Cells, falling: Seq<Falling>) -> bool {
    &&& cells_ok(cells)
    &&& settled(cells)
    &&& forall|i: int|
        0 <= i < falling.len() ==> (#[trigger] falling[i]).1.0 < COLS && falling[i].2.0
            < TOTAL_ROWS && match landing(cells, falling[i].1.0 as int) {
            Some(l) => falling[i].2.0 <= l,
            None => false,
        }
    &&& forall|i: int, j: int|
        0 <= i < j < falling.len() ==> drop_key(#[trigger] falling[i]) != drop_key(
            #[trigger] falling[j],
        )
}

/// Every puyo in `with_key(s, k, n)` is one of the first `n` of `s` and has
/// key `k`.
proof fn lemma_with_key_members(s: Seq<Falling>, k: int, n: int)
    requires
        0 <= n <= s.len(),
    ensures
        forall|x: int|
            #![trigger with_key(s, k, n)[x]]
            0 <= x < with_key(s, k, n).len() ==> exists|m: int|
                0 <= m < n && with_key(s, k, n)[x] == #[trigger] s[m] && drop_key(s[m]) == k,
        with_key(s, k, n).len() <= n,
    decreases n,
{
    if n > 0 {
        lemma_with_key_members(s, k, n - 1);
        assert forall|x: int| #![trigger with_key(s, k, n)[x]] 0 <= x < with_key(s, k, n).len() implies exists|m: int|
            0 <= m < n && with_key(s, k, n)[x] == #[trigger] s[m] && drop_key(s[m]) == k by {
            if x < with_key(s, k, n - 1).len() {
                assert(with_key(s, k, n)[x] == with_key(s, k, n - 1)[x]);
                let m = choose|m: int| 0 <= m < n - 1 && with_key(s, k, n - 1)[x] == #[trigger] s[m] && drop_key(s[m]) == k;
                assert(with_key(s, k, n)[x] == s[m]);
            } else {
                assert(with_key(s, k, n)[x] == s[n - 1]);
            }
        }
    }
}

/// With distinct keys, at most one puyo has a given key.
proof fn lemma_with_key_single(s: Seq<Falling>, k: int, n: int)
    requires
        0 <= n <= s.len(),
        forall|i: int, j: int| 0 <= i < j < s.len() ==> drop_key(#[trigger] s[i]) != drop_key(#[trigger] s[j]),
    ensures
        with_key(s, k, n).len() <= 1,
    decreases n,
{
    if n > 0 {
        lemma_with_key_single(s, k, n - 1);
        lemma_with_key_members(s, k, n - 1);
        if drop_key(s[n - 1]) == k && with_key(s, k, n - 1).len() == 1 {
            let m = choose|m: int| 0 <= m < n - 1 && with_key(s, k, n - 1)[0] == #[trigger] s[m] && drop_key(s[m]) == k;
            assert(drop_key(s[m]) != drop_key(s[n - 1]));
        }
    }
}

/// The sorted puyos are puyos of `s`, with keys below `k`, strictly
/// increasing when keys are distinct.
proof fn lemma_sorted_facts(s: Seq<Falling>, k: int)
    requires
        0 <= k,
        forall|i: int, j: int| 0 <= i < j < s.len() ==> drop_key(#[trigger] s[i]) != drop_key(#[trigger] s[j]),
    ensures
        forall|x: int|
            #![trigger sorted_upto(s, k)[x]]
            0 <= x < sorted_upto(s, k).len() ==> exists|m: int|
                0 <= m < s.len() && sorted_upto(s, k)[x] == #[trigger] s[m],
        forall|x: int| 0 <= x < sorted_upto(s, k).len() ==> drop_key(#[trigger] sorted_upto(s, k)[x]) < k,
        forall|x: int, y: int|
            0 <= x < y < sorted_upto(s, k).len() ==> drop_key(#[trigger] sorted_upto(s, k)[x])
                < drop_key(#[trigger] sorted_upto(s, k)[y]),
    decreases k,
{
    if k > 0 {
        lemma_sorted_facts(s, k - 1);
        lemma_with_key_members(s, k - 1, s.len() as int);
        lemma_with_key_single(s, k - 1, s.len() as int);
        let prev = sorted_upto(s, k - 1);
        let w = with_key(s, k - 1, s.len() as int);
        let cur = sorted_upto(s, k);
        assert(cur == prev + w);
        assert forall|x: int| #![trigger cur[x]] 0 <= x < cur.len() implies exists|m: int|
            0 <= m < s.len() && cur[x] == #[trigger] s[m] by {
            if x < prev.len() {
                assert(cur[x] == prev[x]);
            } else {
                assert(cur[x] == w[x - prev.len()]);
            }
        }
        assert forall|x: int| 0 <= x < cur.len() implies drop_key(#[trigger] cur[x]) < k by {
            if x < prev.len() {
                assert(cur[x] == prev[x]);
            } else {
                assert(cur[x] == w[x - prev.len()]);
                let m = choose|m: int| 0 <= m < s.len() && w[x - prev.len()] == #[trigger] s[m] && drop_key(s[m]) == k - 1;
            }
        }
        assert forall|x: int, y: int| 0 <= x < y < cur.len() implies drop_key(#[trigger] cur[x])
            < drop_key(#[trigger] cur[y]) by {
            if y < prev.len() {
                assert(cur[x] == prev[x] && cur[y] == prev[y]);
            } else if x < prev.len() {
                assert(cur[x] == prev[x]);
                assert(cur[y] == w[y - prev.len()]);
                let m = choose|m: int| 0 <= m < s.len() && w[y - prev.len()] == #[trigger] s[m] && drop_key(s[m]) == k - 1;
            } else {
                assert(w.len() <= 1);
            }
        }
    }
}

/// Puts the falling puyos in the order they are handled.
fn drop_order_of(falling: &Vec<Falling>) -> (r: Vec<Falling>)
    requires
        forall|i: int| 0 <= i < falling@.len() ==> (#[trigger] falling@[i]).1.0 < COLS && falling@[i].2.0 < TOTAL_ROWS,
    ensures
        r@ == drop_order(falling@),
{
    let n = falling.len();
    let mut out: Vec<Falling> = Vec::new();
    let mut k: usize = 0;
    while k < CELLS
        invariant
            n == falling@.len(),
            k <= CELLS,
            forall|i: int| 0 <= i < falling@.len() ==> (#[trigger] falling@[i]).1.0 < COLS && falling@[i].2.0 < TOTAL_ROWS,
            out@ == sorted_upto(falling@, k as int),
        decreases CELLS - k,
    {
        let mut i: usize = 0;
        while i < n
            invariant
                n == falling@.len(),
                k < CELLS,
                i <= n,
                forall|i: int| 0 <= i < falling@.len() ==> (#[trigger] falling@[i]).1.0 < COLS && falling@[i].2.0 < TOTAL_ROWS,
                out@ == sorted_upto(falling@, k as int) + with_key(falling@, k as int, i as int),
            decreases n - i,
        {
            let f = falling[i];
            let key = f.1.0 * TOTAL_ROWS + (TOTAL_ROWS - 1 - f.2.0);
            if key == k {
                out.push(f);
            }
            proof {
                assert(with_key(falling@, k as int, i + 1) == if drop_key(falling@[i as int]) == k {
                    with_key(falling@, k as int, i as int).push(falling@[i as int])
                } else {
                    with_key(falling@, k as int, i as int)
                });
            }
            assert(out@ =~= sorted_upto(falling@, k as int) + with_key(falling@, k as int, i + 1));
            i = i + 1;
        }
        assert(sorted_upto(falling@, k + 1) == sorted_upto(falling@, k as int) + with_key(falling@, k as int, n as int));
        k = k + 1;
    }
    out
}


/// The facts about the handling order that a drop relies on: every puyo is
/// in a column of the field, at or above its landing row, and the keys
/// increase strictly.
pub open spec fn order_ok(cells0: Cells, order: Seq<Falling>) -> bool {
    &&& forall|j: int|
        0 <= j < order.len() ==> (#[trigger] order[j]).1.0 < COLS && order[j].2.0 < TOTAL_ROWS
            && match landing(cells0, order[j].1.0 as int) {
            Some(l) => order[j].2.0 <= l,
            None => false,
        }
    &&& forall|x: int, y: int|
        0 <= x < y < order.len() ==> drop_key(#[trigger] order[x]) < drop_key(#[trigger] order[y])
}

/// The state of one column while the drop is handled: `tgt` is the next
/// target row, `last` bounds the rows still to come, the free cells are the
/// rows up to `tgt + offsets`, and the promised rows are exactly those just
/// above `tgt`.
pub open spec fn column_inv(
    cells0: Cells,
    order: Seq<Falling>,
    i: int,
    st: DropState,
    tgt: Seq<int>,
    last: Seq<int>,
    c: int,
) -> bool {
    let (cells, events, dropping, offsets) = st;
    match landing(cells0, c) {
        Some(l0) => {
            &&& -1 <= tgt[c]
            &&& 0 <= offsets[c]
            &&& tgt[c] + offsets[c] <= l0
            &&& forall|r: int|
                0 <= r < TOTAL_ROWS ==> (#[trigger] cell(cells, c, r) is None <==> r <= tgt[c]
                    + offsets[c])
            &&& last[c] <= tgt[c] + 1
            &&& offsets[c] > 0 ==> last[c] <= tgt[c]
            &&& forall|j: int| i <= j < order.len() && (#[trigger] order[j]).1.0 == c ==> order[j].2.0 < last[c]
            &&& forall|k: int|
                0 <= k < dropping.len() && (#[trigger] dropping[k]).col.0 == c ==> tgt[c]
                    < dropping[k].target_row <= tgt[c] + offsets[c]
            &&& forall|r: int| tgt[c] < r <= tgt[c] + offsets[c] ==> #[trigger] promised(dropping, c, r)
        },
        None => {
            &&& offsets[c] == 0
            &&& forall|r: int| 0 <= r < TOTAL_ROWS ==> #[trigger] cell(cells, c, r) == cell(cells0, c, r)
            &&& forall|k: int| 0 <= k < dropping.len() ==> (#[trigger] dropping[k]).col.0 != c
        },
    }
}

/// Some dropping puyo will land on the cell.
pub open spec fn promised(dropping: Seq<DroppingPuyo>, c: int, r: int) -> bool {
    exists|k: int|
        0 <= k < dropping.len() && (#[trigger] dropping[k]).col.0 == c && dropping[k].target_row
            == r
}

/// The invariant of the drop after `i` puyos of `order` were handled.
pub open spec fn drop_inv(
    cells0: Cells,
    order: Seq<Falling>,
    i: int,
    st: DropState,
    tgt: Seq<int>,
    last: Seq<int>,
) -> bool {
    &&& cells_ok(st.0)
    &&& st.3.len() == COLS
    &&& tgt.len() == COLS
    &&& last.len() == COLS
    &&& forall|c: int| 0 <= c < COLS ==> #[trigger] column_inv(cells0, order, i, st, tgt, last, c)
    &&& forall|k: int|
        0 <= k < st.2.len() ==> (#[trigger] st.2[k]).col.0 < COLS && st.2[k].target_row < TOTAL_ROWS
    &&& forall|j: int, k: int|
        0 <= j < st.2.len() && 0 <= k < st.2.len() && j != k && (#[trigger] st.2[j]).col == (
        #[trigger] st.2[k]).col ==> st.2[j].target_row != st.2[k].target_row
}

/// The starting values of the per-column bookkeeping.
pub open spec fn first_targets(cells0: Cells) -> Seq<int> {
    Seq::new(
        COLS as nat,
        |c: int|
            match landing(cells0, c) {
                Some(l) => l,
                None => 0,
            },
    )
}

/// The starting bounds of the rows still to come.
pub open spec fn first_bounds(cells0: Cells) -> Seq<int> {
    Seq::new(
        COLS as nat,
        |c: int|
            match landing(cells0, c) {
                Some(l) => l + 1,
                None => 0,
            },
    )
}

proof fn lemma_drop_inv_start(
    cells0: Cells,
    order: Seq<Falling>,
    events: Seq<GameEvent>,
    dropping: Seq<DroppingPuyo>,
)
    requires
        cells_ok(cells0),
        settled(cells0),
        order_ok(cells0, order),
        dropping.len() == 0,
    ensures
        drop_inv(
            cells0,
            order,
            0,
            drop_start(cells0, events, dropping),
            first_targets(cells0),
            first_bounds(cells0),
        ),
{
    let st = drop_start(cells0, events, dropping);
    assert forall|c: int| 0 <= c < COLS implies #[trigger] column_inv(
        cells0,
        order,
        0,
        st,
        first_targets(cells0),
        first_bounds(cells0),
        c,
    ) by {
        lemma_settled_column(cells0, c);
        match landing(cells0, c) {
            Some(l0) => {
                lemma_landing_bounds(cells0, c);
                assert forall|j: int| 0 <= j < order.len() && (#[trigger] order[j]).1.0 == c implies order[j].2.0
                    < first_bounds(cells0)[c] by {}
            },
            None => {},
        }
    }
}

/// A landing row is a row of the field.
pub(crate) proof fn lemma_landing_bounds(cells: Cells, c: int)
    requires
        cells_ok(cells),
        0 <= c < COLS,
    ensures
        match landing(cells, c) {
            Some(l) => 0 <= l < TOTAL_ROWS,
            None => true,
        },
{
    lemma_landing_from_bounds(cells, c, TOTAL_ROWS - 1);
}

proof fn lemma_landing_from_bounds(cells: Cells, c: int, r: int)
    requires
        -1 <= r < TOTAL_ROWS,
    ensures
        match crate::board::landing_from(cells, c, r) {
            Some(l) => 0 <= l <= r,
            None => true,
        },
    decreases r + 1,
{
    if r >= 0 {
        lemma_landing_from_bounds(cells, c, r - 1);
    }
}

/// One handled puyo keeps the invariant; its target is the column's next
/// target row, at or below the puyo.
pub(crate) proof fn lemma_drop_step(
    cells0: Cells,
    order: Seq<Falling>,
    i: int,
    st: DropState,
    tgt: Seq<int>,
    last: Seq<int>,
)
    requires
        0 <= i < order.len(),
        order_ok(cells0, order),
        cells_ok(cells0),
        drop_inv(cells0, order, i, st, tgt, last),
    ensures
        ({
            let f = order[i];
            let c = f.1.0 as int;
            &&& 0 <= f.2.0 <= tgt[c]
            &&& landing(st.0, c) == Some(tgt[c] + st.3[c])
            &&& drop_inv(
                cells0,
                order,
                i + 1,
                drop_one(st, f),
                tgt.update(c, tgt[c] - 1),
                last.update(c, f.2.0 as int),
            )
        }),
{
    let f = order[i];
    let c = f.1.0 as int;
    let r = f.2.0 as int;
    let (cells, events, dropping, offsets) = st;
    assert(column_inv(cells0, order, i, st, tgt, last, c));
    let l0 = landing(cells0, c)->Some_0;
    assert(r < last[c]);
    lemma_landing_bounds(cells0, c);
    lemma_landing_of_prefix(cells, c, tgt[c] + offsets[c]);
    let st2 = drop_one(st, f);
    let tgt2 = tgt.update(c, tgt[c] - 1);
    let last2 = last.update(c, r);
    let target = tgt[c];
    assert(landing(cells, c) == Some(tgt[c] + offsets[c]));
    assert(target == (tgt[c] + offsets[c]) - offsets[c]);
    if target <= r {
        assert(offsets[c] == 0);
        assert(st2 == (
            cells.update(cell_index(c, target), Some(f.0)),
            events.push(GameEvent::PuyoLanded),
            dropping,
            offsets,
        ));
    } else {
        assert(st2.2 == dropping.push(
            DroppingPuyo {
                puyo: f.0,
                col: f.1,
                row: (f.2.0 * 1_000_000) as u64,
                target_row: target as usize,
                velocity: DROP_VELOCITY_INITIAL,
            },
        ));
        assert(st2.3 == offsets.update(c, offsets[c] + 1));
        assert(st2.0 == cells);
    }
    assert forall|d: int| 0 <= d < COLS implies #[trigger] column_inv(
        cells0,
        order,
        i + 1,
        st2,
        tgt2,
        last2,
        d,
    ) by {
        assert(column_inv(cells0, order, i, st, tgt, last, d));
        if d == c {
            assert forall|j: int| i + 1 <= j < order.len() && (#[trigger] order[j]).1.0 == d implies order[j].2.0
                < last2[d] by {
                assert(drop_key(order[i]) < drop_key(order[j]));
            }
            if target <= r {
                assert forall|q: int| 0 <= q < TOTAL_ROWS implies (#[trigger] cell(st2.0, d, q) is None
                    <==> q <= tgt2[d] + st2.3[d]) by {
                    assert(cell_index(d, q) == cell_index(c, target) <==> q == target);
                    assert(st2.3[d] == 0);
                    assert(tgt2[d] == tgt[c] - 1);
                    if q == target {
                        assert(cell(st2.0, d, q) == Some(f.0));
                    } else {
                        assert(cell(st2.0, d, q) == cell(cells, d, q));
                    }
                }
            } else {
                let n = dropping.len() as int;
                assert forall|q: int| tgt2[d] < q <= tgt2[d] + st2.3[d] implies #[trigger] promised(st2.2, d, q) by {
                    if q == target {
                        assert(st2.2[n].col.0 == d && st2.2[n].target_row == q);
                    } else {
                        assert(promised(dropping, c, q));
                        let k = choose|k: int|
                            0 <= k < dropping.len() && (#[trigger] dropping[k]).col.0 == c
                                && dropping[k].target_row == q;
                        assert(st2.2[k] == dropping[k]);
                    }
                }
                assert forall|k: int| 0 <= k < st2.2.len() && (#[trigger] st2.2[k]).col.0 == d implies tgt2[d]
                    < st2.2[k].target_row <= tgt2[d] + st2.3[d] by {
                    if k < n {
                        assert(st2.2[k] == dropping[k]);
                    }
                }
            }
        } else {
            match landing(cells0, d) {
                Some(l) => {
                    if target <= r {
                        assert forall|q: int| 0 <= q < TOTAL_ROWS implies (#[trigger] cell(
                            st2.0,
                            d,
                            q,
                        ) is None <==> q <= tgt2[d] + st2.3[d]) by {
                            assert(cell_index(d, q) != cell_index(c, target));
                            assert(cell(st2.0, d, q) == cell(cells, d, q));
                            assert(tgt2[d] == tgt[d]);
                        }
                    } else {
                        let n = dropping.len() as int;
                        assert forall|q: int| tgt2[d] < q <= tgt2[d] + st2.3[d] implies #[trigger] promised(st2.2, d, q) by {
                            assert(promised(dropping, d, q));
                            let k = choose|k: int|
                                0 <= k < dropping.len() && (#[trigger] dropping[k]).col.0 == d
                                    && dropping[k].target_row == q;
                            assert(st2.2[k] == dropping[k]);
                        }
                        assert forall|k: int| 0 <= k < st2.2.len() && (#[trigger] st2.2[k]).col.0 == d implies tgt2[d]
                            < st2.2[k].target_row <= tgt2[d] + st2.3[d] by {
                            if k < n {
                                assert(st2.2[k] == dropping[k]);
                            }
                        }
                    }
                },
                None => {
                    if target <= r {
                        assert forall|q: int| 0 <= q < TOTAL_ROWS implies #[trigger] cell(st2.0, d, q)
                            == cell(cells0, d, q) by {
                            assert(cell_index(d, q) != cell_index(c, target));
                            assert(cell(st2.0, d, q) == cell(cells, d, q));
                        }
                    } else {
                        let n = dropping.len() as int;
                        assert forall|k: int| 0 <= k < st2.2.len() implies (#[trigger] st2.2[k]).col.0 != d by {
                            if k < n {
                                assert(st2.2[k] == dropping[k]);
                            }
                        }
                    }
                },
            }
        }
    }
    if !(target <= r) {
        let n = dropping.len() as int;
        assert forall|j: int, k: int|
            0 <= j < st2.2.len() && 0 <= k < st2.2.len() && j != k && (#[trigger] st2.2[j]).col == (
            #[trigger] st2.2[k]).col implies st2.2[j].target_row != st2.2[k].target_row by {
            if j < n && k < n {
                assert(st2.2[j] == dropping[j] && st2.2[k] == dropping[k]);
            } else if j < n {
                assert(st2.2[j] == dropping[j]);
                assert(column_inv(cells0, order, i, st, tgt, last, c));
            } else {
                assert(st2.2[k] == dropping[k]);
                assert(column_inv(cells0, order, i, st, tgt, last, c));
            }
        }
        assert forall|k: int| 0 <= k < st2.2.len() implies (#[trigger] st2.2[k]).col.0 < COLS
            && st2.2[k].target_row < TOTAL_ROWS by {
            if k < n {
                assert(st2.2[k] == dropping[k]);
            } else {
                lemma_landing_bounds(cells0, c);
            }
        }
    }
}


/// The handling order of puyos ready to drop meets what the drop relies on.
pub(crate) proof fn lemma_order_ok(cells0: Cells, falling: Seq<Falling>)
    requires
        drop_ready(cells0, falling),
    ensures
        order_ok(cells0, drop_order(falling)),
{
    let order = drop_order(falling);
    lemma_sorted_facts(falling, CELLS as int);
    assert forall|j: int| 0 <= j < order.len() implies (#[trigger] order[j]).1.0 < COLS
        && order[j].2.0 < TOTAL_ROWS && match landing(cells0, order[j].1.0 as int) {
        Some(l) => order[j].2.0 <= l,
        None => false,
    } by {
        let m = choose|m: int| 0 <= m < falling.len() && order[j] == #[trigger] falling[m];
    }
}

/// The drop invariant after the first `k` puyos of the order are handled,
/// with the per-column bookkeeping it holds with.
pub(crate) proof fn lemma_drop_prefix(cells0: Cells, order: Seq<Falling>, events: Seq<GameEvent>, k: int) -> (r: (
    Seq<int>,
    Seq<int>,
))
    requires
        cells_ok(cells0),
        settled(cells0),
        order_ok(cells0, order),
        0 <= k <= order.len(),
    ensures
        drop_inv(
            cells0,
            order,
            k,
            drop_all(drop_start(cells0, events, seq![]), order.take(k)),
            r.0,
            r.1,
        ),
    decreases k,
{
    let st0 = drop_start(cells0, events, seq![]);
    if k == 0 {
        assert(order.take(0).len() == 0);
        lemma_drop_inv_start(cells0, order, events, seq![]);
        (first_targets(cells0), first_bounds(cells0))
    } else {
        let (tgt, last) = lemma_drop_prefix(cells0, order, events, k - 1);
        let st = drop_all(st0, order.take(k - 1));
        lemma_drop_step(cells0, order, k - 1, st, tgt, last);
        assert(order.take(k).drop_last() =~= order.take(k - 1));
        assert(order.take(k).last() == order[k - 1]);
        let c = order[k - 1].1.0 as int;
        (tgt.update(c, tgt[c] - 1), last.update(c, order[k - 1].2.0 as int))
    }
}

/// No puyo falls upward: in a drop from a settled field, each falling puyo,
/// when its turn comes, finds its target row (its column's landing row less
/// the rows promised to the puyos of that column still in the air) at or
/// below the row it is on. A puyo put on the field at once therefore stays on
/// its own cell, and every other one starts above its target.
pub proof fn lemma_drop_never_rises(cells: Cells, falling: Seq<Falling>, events: Seq<GameEvent>, k: int)
    requires
        drop_ready(cells, falling),
        0 <= k < drop_order(falling).len(),
    ensures
        ({
            let f = drop_order(falling)[k];
            let c = f.1.0 as int;
            let st = drop_all(drop_start(cells, events, seq![]), drop_order(falling).take(k));
            match landing(st.0, c) {
                Some(l) => f.2.0 <= l - st.3[c],
                None => false,
            }
        }),
{
    let order = drop_order(falling);
    lemma_order_ok(cells, falling);
    let (tgt, last) = lemma_drop_prefix(cells, order, events, k);
    let st = drop_all(drop_start(cells, events, seq![]), order.take(k));
    lemma_drop_step(cells, order, k, st, tgt, last);
}

/// Once every puyo is handled, the dropping puyos are consistent with the
/// field.
proof fn lemma_drop_inv_end(
    cells0: Cells,
    order: Seq<Falling>,
    st: DropState,
    tgt: Seq<int>,
    last: Seq<int>,
)
    requires
        cells_ok(cells0),
        settled(cells0),
        drop_inv(cells0, order, order.len() as int, st, tgt, last),
    ensures
        drop_consistent(st.0, st.2),
{
    let (cells, events, dropping, offsets) = st;
    assert forall|j: int| 0 <= j < dropping.len() implies (#[trigger] dropping[j]).col.0 < COLS
        && dropping[j].target_row < TOTAL_ROWS && cell(
        cells,
        dropping[j].col.0 as int,
        dropping[j].target_row as int,
    ) is None by {
        let c = dropping[j].col.0 as int;
        assert(column_inv(cells0, order, order.len() as int, st, tgt, last, c));
    }
    assert forall|c: int, r1: int, r2: int|
        0 <= c < COLS && 0 <= r1 < r2 < TOTAL_ROWS && #[trigger] stays_free(cells, dropping, c, r2)
            implies #[trigger] stays_free(cells, dropping, c, r1) by {
        assert(column_inv(cells0, order, order.len() as int, st, tgt, last, c));
        lemma_settled_column(cells0, c);
        match landing(cells0, c) {
            Some(l0) => {
                assert(r2 <= tgt[c]) by {
                    if r2 > tgt[c] {
                        assert(cell(cells, c, r2) is None);
                        assert(promised(dropping, c, r2));
                    }
                }
                assert(!promised(dropping, c, r1)) by {
                    if promised(dropping, c, r1) {
                        let k = choose|k: int|
                            0 <= k < dropping.len() && (#[trigger] dropping[k]).col.0 == c
                                && dropping[k].target_row == r1;
                    }
                }
                assert(cell(cells, c, r1) is None);
            },
            None => {
                assert(cell(cells, c, r2) == cell(cells0, c, r2));
            },
        }
    }
}

/// Starts the fall of the given puyos: each column's puyos are handled from
/// the bottom up; a puyo whose landing cell is its own cell is put on the
/// field at once (and reported as landed), the others start to drop towards
/// the cells above the column's stack.
pub fn start_dropping(
    cells: &mut Vec<Option<Puyo>>,
    events: &mut Vec<GameEvent>,
    dropping: &mut Vec<DroppingPuyo>,
    falling: Vec<Falling>,
)
    requires
        drop_ready(old(cells)@, falling@),
        old(dropping)@.len() == 0,
    ensures
        ({
            let st = drop_all(
                drop_start(old(cells)@, old(events)@, old(dropping)@),
                drop_order(falling@),
            );
            &&& final(cells)@ == st.0
            &&& final(events)@ == st.1
            &&& final(dropping)@ == st.2
        }),
        drop_consistent(final(cells)@, final(dropping)@),
{
    let order = drop_order_of(&falling);
    let ghost cells0 = cells@;
    let ghost st0 = drop_start(cells@, events@, dropping@);
    proof {
        lemma_order_ok(cells0, falling@);
        lemma_drop_inv_start(cells0, order@, events@, dropping@);
    }
    let mut offsets: Vec<usize> = Vec::new();
    offsets.push(0);
    offsets.push(0);
    offsets.push(0);
    offsets.push(0);
    offsets.push(0);
    offsets.push(0);
    let ghost mut tgt = first_targets(cells0);
    let ghost mut last = first_bounds(cells0);
    assert(drop_all(st0, order@.take(0)) == st0);
    let mut i: usize = 0;
    while i < order.len()
        invariant
            cells_ok(cells0),
            settled(cells0),
            order_ok(cells0, order@),
            i <= order@.len(),
            offsets@.len() == COLS,
            ({
                let st = drop_all(st0, order@.take(i as int));
                &&& cells@ == st.0
                &&& events@ == st.1
                &&& dropping@ == st.2
                &&& forall|c: int| 0 <= c < COLS ==> offsets@[c] as int == #[trigger] st.3[c]
                &&& drop_inv(cells0, order@, i as int, st, tgt, last)
            }),
        decreases order@.len() - i,
    {
        let ghost st = drop_all(st0, order@.take(i as int));
        let f = order[i];
        proof {
            lemma_drop_step(cells0, order@, i as int, st, tgt, last);
            assert(order@.take(i + 1).drop_last() =~= order@.take(i as int));
            assert(order@.take(i + 1).last() == f);
        }
        let ci = f.1.index();
        let ghost c = ci as int;
        match landing_row(cells, f.1) {
            None => {
                assert(false);
            },
            Some(landing) => {
                let target = landing.index() - offsets[ci];
                if target <= f.2.index() {
                    cells.set(target * COLS + ci, Some(f.0));
                    events.push(GameEvent::PuyoLanded);
                } else {
                    let o = offsets[ci];
                    offsets.set(ci, o + 1);
                    dropping.push(DroppingPuyo::new(f.0, f.1, f.2.index(), target));
                }
            },
        }
        proof {
            let st2 = drop_one(st, f);
            assert(st2 == drop_all(st0, order@.take(i + 1)));
            assert(cells@ =~= st2.0);
            assert(events@ =~= st2.1);
            assert(dropping@ =~= st2.2);
            tgt = tgt.update(c, tgt[c] - 1);
            last = last.update(c, f.2.0 as int);
        }
        i = i + 1;
    }
    proof {
        assert(order@.take(order@.len() as int) =~= order@);
        lemma_drop_inv_end(cells0, order@, drop_all(st0, order@), tgt, last);
    }
}


/// The puyos collected from a column lie in that column above row `r`,
/// hold puyos there, and come from the bottom up.
proof fn lemma_floating_column_facts(cells: Cells, c: int, r: int)
    requires
        0 <= c < COLS,
        r <= TOTAL_ROWS,
    ensures
        forall|x: int|
            0 <= x < floating_in_column(cells, c, r).len() ==> (#[trigger] floating_in_column(cells, c, r)[x]).1.0
                == c && floating_in_column(cells, c, r)[x].2.0 < r && 0 <= floating_in_column(
                cells,
                c,
                r,
            )[x].2.0,
        forall|x: int, y: int|
            0 <= x < y < floating_in_column(cells, c, r).len() ==> (#[trigger] floating_in_column(
                cells,
                c,
                r,
            )[x]).2.0 > (#[trigger] floating_in_column(cells, c, r)[y]).2.0,
    decreases r,
{
    if r > 0 {
        lemma_floating_column_facts(cells, c, r - 1);
        let rest = floating_in_column(cells, c, r - 1);
        let cur = floating_in_column(cells, c, r);
        match cell(cells, c, r - 1) {
            Some(p) => {
                let head = (p, Col(c as usize), FieldRow((r - 1) as usize));
                assert(cur == seq![head] + rest);
                assert forall|x: int| 0 <= x < cur.len() implies (#[trigger] cur[x]).1.0 == c
                    && cur[x].2.0 < r && 0 <= cur[x].2.0 by {
                    if x > 0 {
                        assert(cur[x] == rest[x - 1]);
                    }
                }
                assert forall|x: int, y: int| 0 <= x < y < cur.len() implies (#[trigger] cur[x]).2.0
                    > (#[trigger] cur[y]).2.0 by {
                    assert(cur[y] == rest[y - 1]);
                    if x > 0 {
                        assert(cur[x] == rest[x - 1]);
                    }
                }
            },
            None => {},
        }
    }
}

/// The puyos collected from columns `0..k` lie in those columns and come in
/// strictly increasing handling order.
proof fn lemma_floating_upto_facts(cells: Cells, k: int)
    requires
        cells_ok(cells),
        0 <= k <= COLS,
    ensures
        forall|x: int|
            0 <= x < floating_upto(cells, k).len() ==> (#[trigger] floating_upto(cells, k)[x]).1.0 < k
                && match landing(cells, floating_upto(cells, k)[x].1.0 as int) {
                Some(b) => floating_upto(cells, k)[x].2.0 < b,
                None => false,
            },
        forall|x: int, y: int|
            0 <= x < y < floating_upto(cells, k).len() ==> drop_key(#[trigger] floating_upto(cells, k)[x])
                < drop_key(#[trigger] floating_upto(cells, k)[y]),
    decreases k,
{
    if k > 0 {
        lemma_floating_upto_facts(cells, k - 1);
        let prev = floating_upto(cells, k - 1);
        let col_part = match landing(cells, k - 1) {
            Some(b) => floating_in_column(cells, k - 1, b),
            None => seq![],
        };
        let cur = floating_upto(cells, k);
        assert(cur == prev + col_part);
        match landing(cells, k - 1) {
            Some(b) => {
                lemma_landing_bounds(cells, k - 1);
                lemma_floating_column_facts(cells, k - 1, b);
            },
            None => {},
        }
        assert forall|x: int| 0 <= x < cur.len() implies (#[trigger] cur[x]).1.0 < k && match landing(
            cells,
            cur[x].1.0 as int,
        ) {
            Some(b) => cur[x].2.0 < b,
            None => false,
        } by {
            if x < prev.len() {
                assert(cur[x] == prev[x]);
            } else {
                assert(cur[x] == col_part[x - prev.len()]);
            }
        }
        assert forall|x: int, y: int| 0 <= x < y < cur.len() implies drop_key(#[trigger] cur[x])
            < drop_key(#[trigger] cur[y]) by {
            if y < prev.len() {
                assert(cur[x] == prev[x] && cur[y] == prev[y]);
            } else if x < prev.len() {
                assert(cur[x] == prev[x]);
                assert(cur[y] == col_part[y - prev.len()]);
            } else {
                assert(cur[x] == col_part[x - prev.len()]);
                assert(cur[y] == col_part[y - prev.len()]);
            }
        }
    }
}

/// Taking the floating puyos off leaves a settled field on which they can
/// start to fall.
pub proof fn lemma_collect_ready(cells: Cells)
    requires
        cells_ok(cells),
    ensures
        settled(without_floating(cells)),
        drop_ready(without_floating(cells), floating_upto(cells, COLS as int)),
        cells_ok(without_floating(cells)),
{
    let w = without_floating(cells);
    assert forall|c: int, r: int| 0 <= c < COLS && 0 <= r < TOTAL_ROWS implies #[trigger] cell(w, c, r)
        == (if is_floating(cells, c, r) { None } else { cell(cells, c, r) }) by {
        let i = cell_index(c, r);
        assert(i % (COLS as int) == c && i / (COLS as int) == r);
    }
    assert forall|c: int| 0 <= c < COLS implies #[trigger] landing(w, c) == landing(cells, c) && forall|r: int|
        0 <= r < TOTAL_ROWS ==> (#[trigger] cell(w, c, r) is None <==> match landing(cells, c) {
            Some(b) => r <= b,
            None => false,
        }) by {
        lemma_landing_is_lowest(cells, c, TOTAL_ROWS - 1);
        lemma_landing_bounds(cells, c);
        match landing(cells, c) {
            Some(b) => {
                assert forall|r: int| 0 <= r < TOTAL_ROWS implies (#[trigger] cell(w, c, r) is None
                    <==> r <= b) by {
                    assert(cell(w, c, r) == (if is_floating(cells, c, r) { None } else { cell(cells, c, r) }));
                }
                lemma_landing_of_prefix(w, c, b);
            },
            None => {
                assert forall|r: int| 0 <= r < TOTAL_ROWS implies (#[trigger] cell(w, c, r) is None
                    <==> r <= -1) by {
                    assert(cell(w, c, r) == (if is_floating(cells, c, r) { None } else { cell(cells, c, r) }));
                }
                lemma_landing_of_prefix(w, c, -1);
            },
        }
    }
    assert forall|c: int, r1: int, r2: int|
        0 <= c < COLS && 0 <= r1 < r2 < TOTAL_ROWS && #[trigger] cell(w, c, r2) is None
            implies #[trigger] cell(w, c, r1) is None by {
        assert(landing(w, c) == landing(cells, c));
    }
    lemma_floating_upto_facts(cells, COLS as int);
    let f = floating_upto(cells, COLS as int);
    assert forall|i: int| 0 <= i < f.len() implies (#[trigger] f[i]).1.0 < COLS && f[i].2.0
        < TOTAL_ROWS && match landing(w, f[i].1.0 as int) {
        Some(l) => f[i].2.0 <= l,
        None => false,
    } by {
        assert(landing(w, f[i].1.0 as int) == landing(cells, f[i].1.0 as int));
        lemma_landing_bounds(cells, f[i].1.0 as int);
    }
}

} // verus!
