use vstd::prelude::*;
use crate::puyo::Puyo;

verus! {

/// Columns of the visible field.
pub const COLS: usize = 6;

/// Rows of the visible field.
pub const ROWS: usize = 12;

/// Hidden rows above the visible field.
pub const GHOST_ROWS: usize = 2;

/// Rows of the whole field, hidden rows included.
pub const TOTAL_ROWS: usize = 14;

/// Cells of the whole field.
pub const CELLS: usize = 84;

/// Cells of the visible field.
pub const VISIBLE_CELLS: usize = 72;

/// A field position of the axis puyo: column and row, hidden rows included
/// (row 0 is the topmost hidden row).
#[derive(Clone, Copy, PartialEq, Eq, Debug, Structural)]
pub struct Position {
    pub col: usize,
    pub row: usize,
}

impl Position {
    /// A position inside the field.
    pub fn new(col: usize, row: usize) -> (p: Self)
        requires
            col < COLS,
            row < TOTAL_ROWS,
        ensures
            p.col == col,
            p.row == row,
    {
        Position { col, row }
    }
}

/// Where a new pair appears: column 2 of the first visible row.
pub open spec fn spawn_position() -> Position {
    Position { col: 2, row: GHOST_ROWS }
}

/// Where a new pair appears.
pub fn initial_position() -> (p: Position)
    ensures
        p == spawn_position(),
{
    Position::new(2, GHOST_ROWS)
}

/// A column number (0 is the leftmost column).
#[derive(Clone, Copy, PartialEq, Eq, Debug, Structural)]
pub struct Col(pub usize);

impl Col {
    /// The column number.
    pub fn index(self) -> (r: usize)
        ensures
            r == self.0,
    {
        self.0
    }
}

/// A row of the whole field, hidden rows included (0 is the topmost hidden
/// row).
#[derive(Clone, Copy, PartialEq, Eq, Debug, Structural)]
pub struct FieldRow(pub usize);

/// A row of the visible field (0 is the topmost visible row).
#[derive(Clone, Copy, PartialEq, Eq, Debug, Structural)]
pub struct VisibleRow(pub usize);

impl FieldRow {
    /// The same row counted in the visible field.
    pub fn to_visible(self) -> (r: VisibleRow)
        requires
            self.0 >= GHOST_ROWS,
        ensures
            r.0 == self.0 - GHOST_ROWS,
    {
        VisibleRow(self.0 - GHOST_ROWS)
    }

    /// The row number.
    pub fn index(self) -> (r: usize)
        ensures
            r == self.0,
    {
        self.0
    }
}

impl VisibleRow {
    /// The same row counted in the whole field.
    pub fn to_field(self) -> (r: FieldRow)
        requires
            self.0 + GHOST_ROWS <= usize::MAX,
        ensures
            r.0 == self.0 + GHOST_ROWS,
    {
        FieldRow(self.0 + GHOST_ROWS)
    }

    /// The row number.
    pub fn index(self) -> (r: usize)
        ensures
            r == self.0,
    {
        self.0
    }
}

/// The phase of play.
#[derive(Clone, Copy, PartialEq, Eq, Debug, Structural)]
pub enum PlayState {
    /// the pair is under the player's control
    Active,
    /// the pair touches ground and waits to lock
    Settling,
    /// puyos fall freely after a lock or a pop
    Dropping,
    /// landed puyos squash briefly
    Squashing,
    /// groups about to pop blink
    Blinking,
    /// popped puyos burst into particles
    Sparkling,
    /// everything has come to rest
    Landed,
}

/// What happened during play, for the caller to react to.
#[derive(Clone, Copy, PartialEq, Eq, Debug, Structural)]
pub enum GameEvent {
    /// a puyo came to rest on the field
    PuyoLanded,
    /// a chain step popped groups: the chain count, and the sums of the
    /// columns and visible rows of the popped puyos with their number, from
    /// which their centre follows
    ChainPop { count: u32, col_sum: u32, row_sum: u32, cells: u32 },
    /// one puyo popped at a visible cell
    Popped { puyo: Puyo, col: usize, row: usize },
    /// the spawn cell was taken: the game is over
    GameOver,
}

/// A puyo falling freely towards its landing row.
#[derive(Clone, Copy, PartialEq, Eq, Debug, Structural)]
pub struct DroppingPuyo {
    pub puyo: Puyo,
    pub col: Col,
    /// current height, in millionths of a row
    pub row: u64,
    /// the row it lands on
    pub target_row: usize,
    /// falling speed, in thousandths of a row per second
    pub velocity: u64,
}

/// Falling speed right after a puyo starts to drop (5 rows per second), in
/// thousandths of a row per second.
pub const DROP_VELOCITY_INITIAL: u64 = 5000;

impl DroppingPuyo {
    /// A puyo starting to drop from `row` towards `target_row`.
    pub fn new(puyo: Puyo, col: Col, row: usize, target_row: usize) -> (d: Self)
        requires
            row <= TOTAL_ROWS,
        ensures
            d == (DroppingPuyo {
                puyo,
                col,
                row: (row * 1_000_000) as u64,
                target_row,
                velocity: DROP_VELOCITY_INITIAL,
            }),
    {
        DroppingPuyo {
            puyo,
            col,
            row: (row as u64) * 1_000_000,
            target_row,
            velocity: DROP_VELOCITY_INITIAL,
        }
    }
}

/// A puyo squashing after it landed, since `start_time`.
#[derive(Clone, Copy, PartialEq, Eq, Debug, Structural)]
pub struct SquashingPuyo {
    pub col: Col,
    pub row: FieldRow,
    /// in milliseconds
    pub start_time: u64,
}

/// A puyo blinking before it pops, since `start_time`.
#[derive(Clone, Copy, PartialEq, Eq, Debug, Structural)]
pub struct BlinkingPuyo {
    pub col: Col,
    pub row: VisibleRow,
    /// in milliseconds
    pub start_time: u64,
}

/// A puyo that pops once the blinking ends.
#[derive(Clone, Copy, PartialEq, Eq, Debug, Structural)]
pub struct SparklingPuyo {
    pub puyo: Puyo,
    pub col: Col,
    pub row: VisibleRow,
}

/// The player's keys for one frame.
#[derive(Clone, Copy, PartialEq, Eq, Debug, Default, Structural)]
pub struct GameInput {
    pub left: bool,
    pub right: bool,
    pub down: bool,
    pub left_just: bool,
    pub right_just: bool,
    pub down_just: bool,
    pub rotate_right: bool,
    pub rotate_left: bool,
}

} // verus!
