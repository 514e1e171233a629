use vstd::prelude::*;
use crate::puyo::Puyo;
use crate::types::{COLS, TOTAL_ROWS, CELLS, Col, FieldRow};

verus! {

/// The field cells in row-major order, hidden rows included.
pub type Cells = Seq<Option<Puyo>>;

/// A puyo taken off the field to fall: its colour, column and row.
pub type Falling = (Puyo, Col, FieldRow);

/// Index of a cell in the row-major cell sequence.
pub open spec fn cell_index(col: int, row: int) -> int {
    row * COLS + col
}

/// The content of a cell.
pub open spec fn cell(cells: Cells, col: int, row: int) -> Option<Puyo> {
    cells[cell_index(col, row)]
}

/// A cell of the whole field.
pub open spec fn in_field(col: int, row: int) -> bool {
    0 <= col < COLS && 0 <= row < TOTAL_ROWS
}

/// The field has its full size.
pub open spec fn cells_ok(cells: Cells) -> bool {
    cells.len() == CELLS
}

/// Whether a pair may stand with its axis and child on these cells: the
/// axis on a free cell of the field, the child in a column of the field and
/// either above the top or on a free cell.
pub open spec fn pass_ok(cells: Cells, ac: int, ar: int, cc: int, cr: int) -> bool {
    &&& 0 <= ac < COLS && 0 <= ar < TOTAL_ROWS && cell(cells, ac, ar) is None
    &&& 0 <= cc < COLS && (cr < 0 || (cr < TOTAL_ROWS && cell(cells, cc, cr) is None))
}

/// Tests whether a pair may stand with its axis and child on these cells.
pub fn can_pass(cells: &Vec<Option<Puyo>>, axis: (isize, isize), child: (isize, isize)) -> (r: bool)
    requires
        cells_ok(cells@),
    ensures
        r == pass_ok(cells@, axis.0 as int, axis.1 as int, child.0 as int, child.1 as int),
{
    let (ac, ar) = axis;
    let (cc, cr) = child;
    let axis_ok = ac >= 0 && ac < 6 && ar >= 0 && ar < 14 && cells[(ar as usize) * COLS
        + (ac as usize)].is_none();
    let child_ok = cc >= 0 && cc < 6 && (cr < 0 || (cr < 14 && cells[(cr as usize) * COLS
        + (cc as usize)].is_none()));
    axis_ok && child_ok
}

/// The lowest free row of a column among rows `0..=r`, if any.
pub open spec fn landing_from(cells: Cells, col: int, r: int) -> Option<int>
    decreases r + 1,
{
    if r < 0 {
        None
    } else if cell(cells, col, r) is None {
        Some(r)
    } else {
        landing_from(cells, col, r - 1)
    }
}

/// The lowest free row of a column, where a falling puyo comes to rest.
pub open spec fn landing(cells: Cells, col: int) -> Option<int> {
    landing_from(cells, col, TOTAL_ROWS - 1)
}

/// Finds the lowest free row of a column; `None` when the column is full.
pub fn landing_row(cells: &Vec<Option<Puyo>>, col: Col) -> (r: Option<FieldRow>)
    requires
        cells_ok(cells@),
        col.0 < COLS,
    ensures
        match r {
            Some(row) => landing(cells@, col.0 as int) == Some(row.0 as int) && row.0
                < TOTAL_ROWS,
            None => landing(cells@, col.0 as int) is None,
        },
{
    let ci = col.index();
    let mut k: usize = TOTAL_ROWS;
    while k > 0
        invariant
            cells_ok(cells@),
            ci < COLS,
            ci == col.0,
            k <= TOTAL_ROWS,
            landing(cells@, ci as int) == landing_from(cells@, ci as int, k - 1),
        decreases k,
    {
        if cells[(k - 1) * COLS + ci].is_none() {
            assert(cell(cells@, ci as int, k - 1) is None);
            assert(landing_from(cells@, ci as int, k - 1) == Some((k - 1) as int));
            return Some(FieldRow(k - 1));
        }
        k = k - 1;
    }
    None
}

/// Every free cell of a column lies above every puyo of that column: nothing
/// floats.
pub open spec fn settled(cells: Cells) -> bool {
    forall|c: int, r1: int, r2: int|
        0 <= c < COLS && 0 <= r1 < r2 < TOTAL_ROWS && #[trigger] cell(cells, c, r2) is None
            ==> #[trigger] cell(cells, c, r1) is None
}

/// In a column whose free cells are exactly rows `0..=t`, the landing row is
/// `t` (none when `t` is negative).
pub proof fn lemma_landing_of_prefix(cells: Cells, col: int, t: int)
    requires
        cells_ok(cells),
        0 <= col < COLS,
        -1 <= t < TOTAL_ROWS,
        forall|r: int| 0 <= r < TOTAL_ROWS ==> (#[trigger] cell(cells, col, r) is None <==> r <= t),
    ensures
        landing(cells, col) == (if t >= 0 { Some(t) } else { None::<int> }),
{
    lemma_landing_from_prefix(cells, col, t, TOTAL_ROWS - 1);
}

proof fn lemma_landing_from_prefix(cells: Cells, col: int, t: int, r: int)
    requires
        cells_ok(cells),
        0 <= col < COLS,
        -1 <= t < TOTAL_ROWS,
        -1 <= r < TOTAL_ROWS,
        forall|q: int| 0 <= q < TOTAL_ROWS ==> (#[trigger] cell(cells, col, q) is None <==> q <= t),
    ensures
        landing_from(cells, col, r) == (if t >= 0 && t <= r { Some(t) } else if r < t {
            if r >= 0 { Some(r) } else { None::<int> }
        } else {
            None::<int>
        }),
    decreases r + 1,
{
    if r >= 0 {
        assert(cell(cells, col, r) is None <==> r <= t);
        lemma_landing_from_prefix(cells, col, t, r - 1);
    }
}

/// In a settled field, a column's free cells are exactly the rows up to its
/// landing row.
pub proof fn lemma_settled_column(cells: Cells, col: int)
    requires
        cells_ok(cells),
        settled(cells),
        0 <= col < COLS,
    ensures
        forall|r: int|
            0 <= r < TOTAL_ROWS ==> (#[trigger] cell(cells, col, r) is None <==> match landing(
                cells,
                col,
            ) {
                Some(l) => r <= l,
                None => false,
            }),
{
    lemma_landing_is_lowest(cells, col, TOTAL_ROWS - 1);
    assert forall|r: int| 0 <= r < TOTAL_ROWS implies (#[trigger] cell(cells, col, r) is None
        <==> match landing(cells, col) {
        Some(l) => r <= l,
        None => false,
    }) by {
        match landing(cells, col) {
            Some(l) => {
                if r <= l && r < l {
                    assert(cell(cells, col, l) is None);
                }
            },
            None => {},
        }
    }
}

/// The landing row among rows `0..=r` is free, and every row between it and
/// `r` holds a puyo.
pub proof fn lemma_landing_is_lowest(cells: Cells, col: int, r: int)
    requires
        cells_ok(cells),
        0 <= col < COLS,
        -1 <= r < TOTAL_ROWS,
    ensures
        match landing_from(cells, col, r) {
            Some(l) => 0 <= l <= r && cell(cells, col, l) is None && forall|q: int|
                l < q <= r ==> #[trigger] cell(cells, col, q) is Some,
            None => forall|q: int| 0 <= q <= r ==> #[trigger] cell(cells, col, q) is Some,
        },
    decreases r + 1,
{
    if r >= 0 {
        lemma_landing_is_lowest(cells, col, r - 1);
    }
}

/// The puyos of a column among rows `0..r` that hold a puyo, from row
/// `r - 1` upwards, as they are collected.
pub open spec fn floating_in_column(cells: Cells, col: int, r: int) -> Seq<Falling>
    decreases r,
{
    if r <= 0 {
        seq![]
    } else {
        let rest = floating_in_column(cells, col, r - 1);
        match cell(cells, col, r - 1) {
            Some(p) => seq![(p, Col(col as usize), FieldRow((r - 1) as usize))] + rest,
            None => rest,
        }
    }
}

/// The floating puyos of columns `0..k`: in each column, those above its
/// landing row.
pub open spec fn floating_upto(cells: Cells, k: int) -> Seq<Falling>
    decreases k,
{
    if k <= 0 {
        seq![]
    } else {
        floating_upto(cells, k - 1) + match landing(cells, k - 1) {
            Some(b) => floating_in_column(cells, k - 1, b),
            None => seq![],
        }
    }
}

/// Whether a cell holds a puyo above its column's landing row.
pub open spec fn is_floating(cells: Cells, col: int, row: int) -> bool {
    match landing(cells, col) {
        Some(b) => row < b,
        None => false,
    }
}

/// The field with the floating puyos taken off.
pub open spec fn without_floating(cells: Cells) -> Cells {
    Seq::new(
        CELLS as nat,
        |i: int|
            if is_floating(cells, i % (COLS as int), i / (COLS as int)) {
                None
            } else {
                cells[i]
            },
    )
}

/// Takes the floating puyos off the field and returns them, column by
/// column from the left, each column from the bottom up.
pub fn collect_floating(cells: &mut Vec<Option<Puyo>>) -> (floating: Vec<Falling>)
    requires
        cells_ok(old(cells)@),
    ensures
        cells_ok(final(cells)@),
        final(cells)@ == without_floating(old(cells)@),
        floating@ == floating_upto(old(cells)@, COLS as int),
{
    let ghost orig = cells@;
    let mut floating: Vec<Falling> = Vec::new();
    let mut col: usize = 0;
    while col < COLS
        invariant
            cells_ok(cells@),
            cells_ok(orig),
            col <= COLS,
            floating@ == floating_upto(orig, col as int),
            forall|i: int|
                0 <= i < CELLS ==> #[trigger] cells@[i] == (if i % (COLS as int) < col {
                    without_floating(orig)[i]
                } else {
                    orig[i]
                }),
        decreases COLS - col,
    {
        let c = Col(col);
        proof {
            assert forall|r: int| 0 <= r < TOTAL_ROWS implies #[trigger] cell(cells@, col as int, r)
                == cell(orig, col as int, r) by {
                assert((r * COLS + col) % (COLS as int) == col as int) by (nonlinear_arith)
                    requires
                        col < COLS,
                        0 <= r,
                ;
            }
            assert(landing(cells@, col as int) == landing(orig, col as int)) by {
                lemma_landing_same(cells@, orig, col as int, TOTAL_ROWS - 1);
            }
        }
        match landing_row(cells, c) {
            None => {},
            Some(bottom) => {
                let b = bottom.index();
                let mut row: usize = b;
                let ghost before = floating@;
                while row > 0
                    invariant
                        cells_ok(cells@),
                        cells_ok(orig),
                        col < COLS,
                        c.0 == col,
                        row <= b,
                        b < TOTAL_ROWS,
                        landing(orig, col as int) == Some(b as int),
                        floating@ == before + floating_in_column(orig, col as int, b as int).take(
                            (floating_in_column(orig, col as int, b as int).len() - floating_in_column(
                                orig,
                                col as int,
                                row as int,
                            ).len()) as int,
                        ),
                        forall|i: int|
                            0 <= i < CELLS ==> #[trigger] cells@[i] == (if i % (COLS as int) < col
                                || (i % (COLS as int) == col && row <= i / (COLS as int) < b) {
                                without_floating(orig)[i]
                            } else {
                                orig[i]
                            }),
                    decreases row,
                {
                    let idx = (row - 1) * COLS + col;
                    proof {
                        lemma_floating_prefix(orig, col as int, b as int, row as int);
                        assert((idx as int) % (COLS as int) == col as int && (idx as int) / (COLS as int) == row - 1)
                            by (nonlinear_arith)
                            requires
                                idx == (row - 1) * COLS + col,
                                col < COLS,
                                row >= 1,
                        ;
                    }
                    assert(cells@[idx as int] == orig[idx as int]);
                    assert(cell(orig, col as int, row - 1) == orig[idx as int]);
                    let ghost big = floating_in_column(orig, col as int, b as int);
                    let ghost mid = floating_in_column(orig, col as int, row as int);
                    let ghost low = floating_in_column(orig, col as int, row - 1);
                    match cells[idx] {
                        Some(p) => {
                            cells.set(idx, None);
                            floating.push((p, c, FieldRow(row - 1)));
                            assert(floating@ =~= before + big.take((big.len() - low.len()) as int));
                        },
                        None => {
                            assert(big.take((big.len() - low.len()) as int) == big.take(
                                (big.len() - mid.len()) as int,
                            ) + seq![]);
                            assert(floating@ =~= before + big.take((big.len() - low.len()) as int));
                        },
                    }
                    proof {
                        assert forall|i: int| 0 <= i < CELLS implies #[trigger] cells@[i] == (if i
                            % (COLS as int) < col || (i % (COLS as int) == col && row - 1 <= i / (
                        COLS as int) < b) {
                            without_floating(orig)[i]
                        } else {
                            orig[i]
                        }) by {
                            if i == idx {
                                assert(is_floating(orig, col as int, (row - 1) as int));
                            }
                        }
                    }
                    row = row - 1;
                }
                proof {
                    assert(floating_in_column(orig, col as int, 0).len() == 0);
                    assert(floating_in_column(orig, col as int, b as int).take(
                        floating_in_column(orig, col as int, b as int).len() as int,
                    ) =~= floating_in_column(orig, col as int, b as int));
                }
            },
        }
        proof {
            assert forall|i: int| 0 <= i < CELLS implies #[trigger] cells@[i] == (if i % (COLS as int)
                < col + 1 {
                without_floating(orig)[i]
            } else {
                orig[i]
            }) by {
                if i % (COLS as int) == col {
                    if !is_floating(orig, i % (COLS as int), i / (COLS as int)) {
                    }
                }
            }
        }
        col = col + 1;
    }
    proof {
        assert(cells@ =~= without_floating(orig));
    }
    floating
}

/// Two fields that agree on a column have the same landing row there.
proof fn lemma_landing_same(a: Cells, b: Cells, col: int, r: int)
    requires
        cells_ok(a),
        cells_ok(b),
        0 <= col < COLS,
        -1 <= r < TOTAL_ROWS,
        forall|q: int| 0 <= q < TOTAL_ROWS ==> #[trigger] cell(a, col, q) == cell(b, col, q),
    ensures
        landing_from(a, col, r) == landing_from(b, col, r),
    decreases r + 1,
{
    if r >= 0 {
        assert(cell(a, col, r) == cell(b, col, r));
        lemma_landing_same(a, b, col, r - 1);
    }
}

/// Collecting a column from row `row - 1` upwards extends what was collected
/// from the rows below it by one step.
proof fn lemma_floating_prefix(cells: Cells, col: int, b: int, row: int)
    requires
        0 < row <= b,
    ensures
        floating_in_column(cells, col, b).len() >= floating_in_column(cells, col, row).len(),
        floating_in_column(cells, col, row) == (match cell(cells, col, row - 1) {
            Some(p) => seq![(p, Col(col as usize), FieldRow((row - 1) as usize))],
            None => seq![],
        }) + floating_in_column(cells, col, row - 1),
        floating_in_column(cells, col, b).take(
            (floating_in_column(cells, col, b).len() - floating_in_column(cells, col, row - 1).len()) as int,
        ) == floating_in_column(cells, col, b).take(
            (floating_in_column(cells, col, b).len() - floating_in_column(cells, col, row).len()) as int,
        ) + (match cell(cells, col, row - 1) {
            Some(p) => seq![(p, Col(col as usize), FieldRow((row - 1) as usize))],
            None => seq![],
        }),
    decreases b - row,
{
    if row < b {
        lemma_floating_prefix(cells, col, b, row + 1);
        let big = floating_in_column(cells, col, b);
        let mid = floating_in_column(cells, col, row);
        let low = floating_in_column(cells, col, row - 1);
        assert(big.skip((big.len() - mid.len()) as int) =~= mid) by {
            lemma_floating_suffix(cells, col, b, row);
        }
        let head = match cell(cells, col, row - 1) {
            Some(p) => seq![(p, Col(col as usize), FieldRow((row - 1) as usize))],
            None => seq![],
        };
        assert(big.take((big.len() - low.len()) as int) =~= big.take(
            (big.len() - mid.len()) as int,
        ) + head) by {
            assert(big =~= big.take((big.len() - mid.len()) as int) + mid);
            assert(mid =~= head + low);
        }
    } else {
        let big = floating_in_column(cells, col, b);
        let low = floating_in_column(cells, col, row - 1);
        assert(big.take((big.len() - low.len()) as int) =~= big.take(0) + (match cell(
            cells,
            col,
            row - 1,
        ) {
            Some(p) => seq![(p, Col(col as usize), FieldRow((row - 1) as usize))],
            None => seq![],
        }));
    }
}

/// The collection from a lower start ends with the collection from a higher
/// one.
proof fn lemma_floating_suffix(cells: Cells, col: int, b: int, row: int)
    requires
        0 <= row <= b,
    ensures
        floating_in_column(cells, col, b).len() >= floating_in_column(cells, col, row).len(),
        floating_in_column(cells, col, b).skip(
            (floating_in_column(cells, col, b).len() - floating_in_column(cells, col, row).len()) as int,
        ) == floating_in_column(cells, col, row),
    decreases b - row,
{
    if row < b {
        lemma_floating_suffix(cells, col, b - 1, row);
        let big = floating_in_column(cells, col, b);
        let prev = floating_in_column(cells, col, b - 1);
        let mid = floating_in_column(cells, col, row);
        assert(big.skip((big.len() - mid.len()) as int) =~= prev.skip(
            (prev.len() - mid.len()) as int,
        ));
    } else {
        let big = floating_in_column(cells, col, b);
        assert(big.skip(0) =~= big);
    }
}

} // verus!
