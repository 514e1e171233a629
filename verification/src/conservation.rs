use vstd::prelude::*;
use crate::puyo::Puyo;
use crate::types::{COLS, TOTAL_ROWS, CELLS, Col, FieldRow, DroppingPuyo, GameEvent, SquashingPuyo};
use crate::board::{
    Cells, Falling, cell, cell_index, cells_ok, settled, landing, floating_in_column, floating_upto,
    without_floating, is_floating,
};
use crate::game::{FieldModel, PlayContext, land_one, land_all, lands, dropping_spec};
use crate::gravity::{
    drop_key, with_key, sorted_upto, drop_order, drop_all, drop_start, drop_one, drop_ready,
    drop_consistent, column_inv, order_ok, lemma_drop_step, lemma_order_ok, lemma_drop_prefix,
    lemma_landing_bounds,
};

verus! {

/// Puyos of colour `p` in the first `r` rows of column `c`.
pub open spec fn column_count(cells: Cells, c: int, p: Puyo, r: int) -> nat
    decreases r,
{
    if r <= 0 {
        0
    } else {
        column_count(cells, c, p, r - 1) + if cell(cells, c, r - 1) == Some(p) {
            1nat
        } else {
            0nat
        }
    }
}

/// Puyos of colour `p` in column `c` of the field, hidden rows included.
pub open spec fn in_column(cells: Cells, c: int, p: Puyo) -> nat {
    column_count(cells, c, p, TOTAL_ROWS as int)
}

/// Falling puyos of colour `p` from column `c`.
pub open spec fn falling_count(fs: Seq<Falling>, c: int, p: Puyo) -> nat
    decreases fs.len(),
{
    if fs.len() == 0 {
        0
    } else {
        falling_count(fs.drop_last(), c, p) + if fs.last().0 == p && fs.last().1.0 == c {
            1nat
        } else {
            0nat
        }
    }
}

/// Dropping puyos of colour `p` in column `c`.
pub open spec fn dropping_count(ds: Seq<DroppingPuyo>, c: int, p: Puyo) -> nat
    decreases ds.len(),
{
    if ds.len() == 0 {
        0
    } else {
        dropping_count(ds.drop_last(), c, p) + if ds.last().puyo == p && ds.last().col.0 == c {
            1nat
        } else {
            0nat
        }
    }
}

/// The falling puyo is of colour `p` from column `c`.
spec fn counted(f: Falling, c: int, p: Puyo) -> bool {
    f.0 == p && f.1.0 == c
}

/// Among the first `n` of `s`, the puyos of colour `p` from column `c` with an
/// order key below `kmax`.
spec fn below_count(s: Seq<Falling>, kmax: int, n: int, c: int, p: Puyo) -> nat
    decreases n,
{
    if n <= 0 {
        0
    } else {
        below_count(s, kmax, n - 1, c, p) + if drop_key(s[n - 1]) < kmax && counted(s[n - 1], c, p) {
            1nat
        } else {
            0nat
        }
    }
}

/// Among the first `n` of `s`, the puyos of colour `p` from column `c` with
/// order key `k`.
spec fn key_count(s: Seq<Falling>, k: int, n: int, c: int, p: Puyo) -> nat
    decreases n,
{
    if n <= 0 {
        0
    } else {
        key_count(s, k, n - 1, c, p) + if drop_key(s[n - 1]) == k && counted(s[n - 1], c, p) {
            1nat
        } else {
            0nat
        }
    }
}

proof fn lemma_falling_count_concat(a: Seq<Falling>, b: Seq<Falling>, c: int, p: Puyo)
    ensures
        falling_count(a + b, c, p) == falling_count(a, c, p) + falling_count(b, c, p),
    decreases b.len(),
{
    if b.len() == 0 {
        assert(a + b =~= a);
    } else {
        assert((a + b).drop_last() =~= a + b.drop_last());
        assert((a + b).last() == b.last());
        lemma_falling_count_concat(a, b.drop_last(), c, p);
    }
}

proof fn lemma_with_key_count(s: Seq<Falling>, k: int, n: int, c: int, p: Puyo)
    requires
        0 <= n <= s.len(),
    ensures
        falling_count(with_key(s, k, n), c, p) == key_count(s, k, n, c, p),
    decreases n,
{
    if n > 0 {
        lemma_with_key_count(s, k, n - 1, c, p);
        if drop_key(s[n - 1]) == k {
            let w = with_key(s, k, n - 1);
            assert(w.push(s[n - 1]).drop_last() =~= w);
        }
    }
}

proof fn lemma_below_step(s: Seq<Falling>, kmax: int, n: int, c: int, p: Puyo)
    ensures
        below_count(s, kmax + 1, n, c, p) == below_count(s, kmax, n, c, p) + key_count(s, kmax, n, c, p),
    decreases n,
{
    if n > 0 {
        lemma_below_step(s, kmax, n - 1, c, p);
    }
}

proof fn lemma_below_none(s: Seq<Falling>, n: int, c: int, p: Puyo)
    requires
        n <= s.len(),
        forall|i: int| 0 <= i < s.len() ==> 0 <= #[trigger] drop_key(s[i]),
    ensures
        below_count(s, 0, n, c, p) == 0,
    decreases n,
{
    if n > 0 {
        lemma_below_none(s, n - 1, c, p);
    }
}

proof fn lemma_sorted_count(s: Seq<Falling>, kmax: int, c: int, p: Puyo)
    requires
        0 <= kmax,
        forall|i: int| 0 <= i < s.len() ==> 0 <= #[trigger] drop_key(s[i]),
    ensures
        falling_count(sorted_upto(s, kmax), c, p) == below_count(s, kmax, s.len() as int, c, p),
    decreases kmax,
{
    if kmax == 0 {
        lemma_below_none(s, s.len() as int, c, p);
    } else {
        lemma_sorted_count(s, kmax - 1, c, p);
        lemma_falling_count_concat(sorted_upto(s, kmax - 1), with_key(s, kmax - 1, s.len() as int), c, p);
        lemma_with_key_count(s, kmax - 1, s.len() as int, c, p);
        lemma_below_step(s, kmax - 1, s.len() as int, c, p);
    }
}

proof fn lemma_below_all(s: Seq<Falling>, n: int, c: int, p: Puyo)
    requires
        0 <= n <= s.len(),
        forall|i: int| 0 <= i < s.len() ==> #[trigger] drop_key(s[i]) < CELLS,
    ensures
        below_count(s, CELLS as int, n, c, p) == falling_count(s.take(n), c, p),
    decreases n,
{
    if n > 0 {
        lemma_below_all(s, n - 1, c, p);
        assert(s.take(n).drop_last() =~= s.take(n - 1));
    }
}

/// The handling order holds the same falling puyos, as many of each colour
/// from each column.
proof fn lemma_drop_order_count(falling: Seq<Falling>, c: int, p: Puyo)
    requires
        forall|i: int| 0 <= i < falling.len() ==> 0 <= #[trigger] drop_key(falling[i]) < CELLS,
    ensures
        falling_count(drop_order(falling), c, p) == falling_count(falling, c, p),
{
    lemma_sorted_count(falling, CELLS as int, c, p);
    lemma_below_all(falling, falling.len() as int, c, p);
    assert(falling.take(falling.len() as int) =~= falling);
}

/// Filling a free cell with a puyo of colour `q` adds one puyo of that colour
/// to its column and leaves every other count alone.
pub(crate) proof fn lemma_column_count_fill(cells: Cells, c0: int, r0: int, q: Puyo, c: int, p: Puyo, r: int)
    requires
        cells_ok(cells),
        0 <= c0 < COLS,
        0 <= r0 < TOTAL_ROWS,
        cell(cells, c0, r0) is None,
        0 <= c < COLS,
        0 <= r <= TOTAL_ROWS,
    ensures
        column_count(cells.update(cell_index(c0, r0), Some(q)), c, p, r) == column_count(cells, c, p, r)
            + if c == c0 && p == q && r0 < r {
            1nat
        } else {
            0nat
        },
    decreases r,
{
    if r > 0 {
        lemma_column_count_fill(cells, c0, r0, q, c, p, r - 1);
        assert(cell_index(c, r - 1) == cell_index(c0, r0) <==> (c == c0 && r - 1 == r0));
    }
}

/// The counts after the first `k` puyos of the order are handled: each
/// column holds, on the field and in the air, what it held before plus the
/// handled puyos that fell into it.
proof fn lemma_drop_counts(cells0: Cells, order: Seq<Falling>, events: Seq<GameEvent>, k: int, c: int, p: Puyo)
    requires
        cells_ok(cells0),
        settled(cells0),
        order_ok(cells0, order),
        0 <= k <= order.len(),
        0 <= c < COLS,
    ensures
        ({
            let st = drop_all(drop_start(cells0, events, seq![]), order.take(k));
            in_column(st.0, c, p) + dropping_count(st.2, c, p) == in_column(cells0, c, p) + falling_count(
                order.take(k),
                c,
                p,
            )
        }),
    decreases k,
{
    let st0 = drop_start(cells0, events, seq![]);
    if k == 0 {
        assert(order.take(0) =~= seq![]);
    } else {
        lemma_drop_counts(cells0, order, events, k - 1, c, p);
        let (tgt, last) = lemma_drop_prefix(cells0, order, events, k - 1);
        let st = drop_all(st0, order.take(k - 1));
        lemma_drop_step(cells0, order, k - 1, st, tgt, last);
        assert(order.take(k).drop_last() =~= order.take(k - 1));
        assert(order.take(k).last() == order[k - 1]);
        let f = order[k - 1];
        let cf = f.1.0 as int;
        assert(column_inv(cells0, order, k - 1, st, tgt, last, cf));
        let st2 = drop_one(st, f);
        assert(st2 == drop_all(st0, order.take(k)));
        let target = tgt[cf];
        if target <= f.2.0 {
            assert(cell(st.0, cf, target) is None);
            lemma_column_count_fill(st.0, cf, target, f.0, c, p, TOTAL_ROWS as int);
        } else {
            let d = st2.2.last();
            assert(st2.2.drop_last() =~= st.2);
        }
    }
}

/// A drop neither makes nor loses puyos: once every falling puyo is handled,
/// each column holds, on the field and in the air together, exactly the
/// puyos of each colour it held before plus those falling into it.
pub proof fn lemma_drop_keeps_puyos(cells: Cells, falling: Seq<Falling>, events: Seq<GameEvent>, c: int, p: Puyo)
    requires
        drop_ready(cells, falling),
        0 <= c < COLS,
    ensures
        ({
            let st = drop_all(drop_start(cells, events, seq![]), drop_order(falling));
            in_column(st.0, c, p) + dropping_count(st.2, c, p) == in_column(cells, c, p) + falling_count(
                falling,
                c,
                p,
            )
        }),
{
    let order = drop_order(falling);
    lemma_order_ok(cells, falling);
    assert forall|i: int| 0 <= i < falling.len() implies 0 <= #[trigger] drop_key(falling[i]) < CELLS by {
        assert(falling[i].1.0 < COLS && falling[i].2.0 < TOTAL_ROWS);
    }
    lemma_drop_order_count(falling, c, p);
    lemma_drop_counts(cells, order, events, order.len() as int, c, p);
    assert(order.take(order.len() as int) =~= order);
}

/// What the first `k` dropping puyos of a frame of free fall leave: the
/// landing cells of the others still free, and each column holding, on the
/// field and in the air, what it held before.
proof fn lemma_land_counts(
    cells: Cells,
    sq: Seq<SquashingPuyo>,
    ev: Seq<GameEvent>,
    ds: Seq<DroppingPuyo>,
    now: u64,
    k: int,
    c: int,
    p: Puyo,
)
    requires
        drop_consistent(cells, ds),
        0 <= k <= ds.len(),
        0 <= c < COLS,
    ensures
        ({
            let st = land_all((cells, sq, ev, seq![]), ds.take(k), now);
            &&& cells_ok(st.0)
            &&& forall|j: int|
                k <= j < ds.len() ==> cell(st.0, (#[trigger] ds[j]).col.0 as int, ds[j].target_row as int)
                    is None
            &&& in_column(st.0, c, p) + dropping_count(st.3, c, p) == in_column(cells, c, p)
                + dropping_count(ds.take(k), c, p)
        }),
    decreases k,
{
    let init = (cells, sq, ev, Seq::<DroppingPuyo>::empty());
    if k == 0 {
        assert(ds.take(0) =~= seq![]);
    } else {
        lemma_land_counts(cells, sq, ev, ds, now, k - 1, c, p);
        let st = land_all(init, ds.take(k - 1), now);
        assert(ds.take(k).drop_last() =~= ds.take(k - 1));
        assert(ds.take(k).last() == ds[k - 1]);
        let d = ds[k - 1];
        let st2 = land_one(st, d, now);
        assert(st2 == land_all(init, ds.take(k), now));
        let dc = d.col.0 as int;
        let dr = d.target_row as int;
        if lands(d) {
            assert(cell(st.0, dc, dr) is None);
            lemma_column_count_fill(st.0, dc, dr, d.puyo, c, p, TOTAL_ROWS as int);
            assert forall|j: int| k <= j < ds.len() implies cell(
                st2.0,
                (#[trigger] ds[j]).col.0 as int,
                ds[j].target_row as int,
            ) is None by {
                let e = ds[j];
                assert(cell(st.0, e.col.0 as int, e.target_row as int) is None);
                if e.col == d.col {
                    assert(e.target_row != d.target_row);
                }
                assert(cell_index(e.col.0 as int, e.target_row as int) != cell_index(dc, dr));
            }
        } else {
            assert(st2.3.drop_last() =~= st.3);
        }
        assert(ds.take(k).drop_last() =~= ds.take(k - 1));
    }
}

/// Landing neither makes nor loses puyos: in a frame of free fall each
/// column holds, on the field and in the air together, the same puyos of
/// each colour as before.
pub proof fn lemma_landing_keeps_puyos(m: FieldModel, ctx: PlayContext, now: u64, c: int, p: Puyo)
    requires
        drop_consistent(m.cells, m.dropping),
        0 <= c < COLS,
    ensures
        in_column(dropping_spec(m, ctx, now).0.cells, c, p) + dropping_count(
            dropping_spec(m, ctx, now).0.dropping,
            c,
            p,
        ) == in_column(m.cells, c, p) + dropping_count(m.dropping, c, p),
{
    lemma_land_counts(m.cells, m.squashing, m.events, m.dropping, now, m.dropping.len() as int, c, p);
    assert(m.dropping.take(m.dropping.len() as int) =~= m.dropping);
}

/// The collected puyos of a column among rows `0..r`: all its puyos there,
/// and none of another column.
proof fn lemma_floating_in_column_count(cells: Cells, col: int, r: int, c: int, p: Puyo)
    requires
        0 <= col < COLS,
        0 <= r <= TOTAL_ROWS,
    ensures
        falling_count(floating_in_column(cells, col, r), c, p) == if col == c {
            column_count(cells, c, p, r)
        } else {
            0
        },
    decreases r,
{
    if r > 0 {
        lemma_floating_in_column_count(cells, col, r - 1, c, p);
        let rest = floating_in_column(cells, col, r - 1);
        match cell(cells, col, r - 1) {
            Some(q) => {
                let x = seq![(q, Col(col as usize), FieldRow((r - 1) as usize))];
                assert(floating_in_column(cells, col, r) == x + rest);
                lemma_falling_count_concat(x, rest, c, p);
                assert(x.drop_last() =~= Seq::<Falling>::empty());
                assert(falling_count(Seq::<Falling>::empty(), c, p) == 0);
                assert(x.last().1.0 as int == col);
                assert(falling_count(x, c, p) == if q == p && col == c { 1nat } else { 0nat });
            },
            None => {},
        }
    }
}

/// The floating puyos of columns `0..k` from column `c`: its puyos above its
/// landing row, if `c` is among them.
proof fn lemma_floating_upto_count(cells: Cells, k: int, c: int, p: Puyo)
    requires
        cells_ok(cells),
        0 <= k <= COLS,
        0 <= c < COLS,
    ensures
        falling_count(floating_upto(cells, k), c, p) == if c < k {
            match landing(cells, c) {
                Some(b) => column_count(cells, c, p, b),
                None => 0,
            }
        } else {
            0
        },
    decreases k,
{
    if k > 0 {
        lemma_floating_upto_count(cells, k - 1, c, p);
        let part = match landing(cells, k - 1) {
            Some(b) => floating_in_column(cells, k - 1, b),
            None => seq![],
        };
        lemma_falling_count_concat(floating_upto(cells, k - 1), part, c, p);
        match landing(cells, k - 1) {
            Some(b) => {
                lemma_landing_bounds(cells, k - 1);
                lemma_floating_in_column_count(cells, k - 1, b, c, p);
            },
            None => {},
        }
    }
}

/// A column of the field without its floating puyos: nothing up to the
/// landing row, the puyos below it as they were.
proof fn lemma_without_floating_count(cells: Cells, c: int, p: Puyo, r: int)
    requires
        cells_ok(cells),
        0 <= c < COLS,
        0 <= r <= TOTAL_ROWS,
    ensures
        column_count(without_floating(cells), c, p, r) == match landing(cells, c) {
            Some(b) => if r <= b {
                0int
            } else {
                column_count(cells, c, p, r) - column_count(cells, c, p, b)
            },
            None => column_count(cells, c, p, r) as int,
        },
    decreases r,
{
    if r > 0 {
        lemma_without_floating_count(cells, c, p, r - 1);
        let i = cell_index(c, r - 1);
        assert(i % (COLS as int) == c && i / (COLS as int) == r - 1);
        assert(cell(without_floating(cells), c, r - 1) == if is_floating(cells, c, r - 1) {
            None
        } else {
            cell(cells, c, r - 1)
        });
    }
}

/// Collecting the floating puyos neither makes nor loses puyos: each column
/// of the remaining field together with the collected puyos from it holds
/// what the column held before.
pub proof fn lemma_collect_keeps_puyos(cells: Cells, c: int, p: Puyo)
    requires
        cells_ok(cells),
        0 <= c < COLS,
    ensures
        in_column(without_floating(cells), c, p) + falling_count(floating_upto(cells, COLS as int), c, p)
            == in_column(cells, c, p),
{
    lemma_floating_upto_count(cells, COLS as int, c, p);
    lemma_without_floating_count(cells, c, p, TOTAL_ROWS as int);
    lemma_landing_bounds(cells, c);
}

} // verus!
