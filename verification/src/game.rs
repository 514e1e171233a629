use vstd::prelude::*;
use crate::puyo::{Puyo, PuyoPuyo, Orientation, Rotation, offset_of, rotated};
use crate::rng::{PuyoPuyoFactory, deal, factory_colors, factory_state, pair_sequence, state_after};
use crate::types::{
    COLS, ROWS, GHOST_ROWS, TOTAL_ROWS, CELLS, VISIBLE_CELLS, Position, Col, FieldRow, VisibleRow, PlayState,
    GameEvent, DroppingPuyo, SquashingPuyo, BlinkingPuyo, SparklingPuyo, GameInput,
    spawn_position, initial_position,
};
use crate::board::{Cells, Falling, cell, cell_index, cells_ok, pass_ok, can_pass, settled};
use crate::gravity::{drop_all, drop_start, drop_order, drop_consistent, drop_ready, start_dropping, stays_free, lemma_collect_ready};
use crate::board::{floating_upto, without_floating, collect_floating};
use crate::chain::{Group, ChainGroup, chain_groups, groups_view, group_total, groups_on_field, find_chain_groups};
use crate::scoring::{score_gain, score_gain_wide, score_gain_of, multiplier_of, chain_power_of, color_bonus_of, group_bonus_of};

verus! {

/// Interval of the automatic fall, in milliseconds.
pub const DROP_INTERVAL: u64 = 500;

/// Interval of repeated moves while a key is held, in milliseconds.
pub const MOVE_INTERVAL: u64 = 50;

/// Delay before a held key starts repeating, in milliseconds.
pub const MOVE_REPEAT_DELAY: u64 = 200;

/// Time a grounded pair waits before it locks, in milliseconds.
pub const LOCK_DELAY: u64 = 700;

/// The same wait while the down key is held, in milliseconds.
pub const LOCK_DELAY_FAST: u64 = 180;

/// Two presses of one rotation key within this time turn a wedged pair
/// upside down, in milliseconds.
pub const QUICK_TURN_WINDOW: u64 = 500;

/// Angle of a quarter turn, in the unit the display angle is kept in.
pub const QUARTER_TURN: i64 = 1000;

/// How long a landed puyo squashes, in milliseconds.
pub const SQUASHING_ANIM_DURATION: u64 = 150;

/// How long a popping group blinks, in milliseconds.
pub const BLINK_DURATION: u64 = 500;

/// Wait between the burst and the fall of what was above, in milliseconds.
pub const SPARKLE_WAIT: u64 = 150;

/// Longest frame the display and the free fall advance by, in milliseconds.
pub const MAX_FRAME: u64 = 100;

/// Speed at which the display catches up with the pair, per second.
pub const DISPLAY_CHASE_RATE: u64 = 70;

/// Speed at which the displayed angle catches up with the pair, per second.
pub const ROTATION_CHASE_RATE: u64 = 20;

/// Gravity of the free fall (50 rows per second squared), in thousandths of
/// a row per second gained each millisecond.
pub const DROP_GRAVITY: u64 = 50;

/// A field, the pair in play, the coming pairs, the score and the puyos in
/// motion.
pub struct GameField {
    factory: PuyoPuyoFactory,
    events: Vec<GameEvent>,
    puyopuyo: PuyoPuyo,
    position: Position,
    display_col: i64,
    display_row: i64,
    display_angle: i64,
    rotation_target: i64,
    next: PuyoPuyo,
    next_next: PuyoPuyo,
    field: Vec<Option<Puyo>>,
    is_game_over: bool,
    score: u32,
    chain_count: u32,
    dropping: Vec<DroppingPuyo>,
    squashing: Vec<SquashingPuyo>,
    blinking: Vec<BlinkingPuyo>,
    sparkling: Vec<SparklingPuyo>,
    spawn_count: u32,
}

/// The field as plain values. Display positions are in thousandths of a
/// cell, angles in thousandths of a quarter turn (clockwise from pointing
/// right, so pointing up is -1000).
pub struct FieldModel {
    pub cells: Cells,
    pub pair: PuyoPuyo,
    pub position: Position,
    pub display_col: i64,
    pub display_row: i64,
    pub display_angle: i64,
    pub rotation_target: i64,
    pub next: PuyoPuyo,
    pub next_next: PuyoPuyo,
    pub palette: Seq<Puyo>,
    pub rng: u64,
    pub is_game_over: bool,
    pub score: u32,
    pub chain_count: u32,
    pub spawn_count: u32,
    pub events: Seq<GameEvent>,
    pub dropping: Seq<DroppingPuyo>,
    pub squashing: Seq<SquashingPuyo>,
    pub blinking: Seq<BlinkingPuyo>,
    pub sparkling: Seq<SparklingPuyo>,
}

impl View for GameField {
    type V = FieldModel;

    closed spec fn view(&self) -> FieldModel {
        FieldModel {
            cells: self.field@,
            pair: self.puyopuyo,
            position: self.position,
            display_col: self.display_col,
            display_row: self.display_row,
            display_angle: self.display_angle,
            rotation_target: self.rotation_target,
            next: self.next,
            next_next: self.next_next,
            palette: self.factory@.0,
            rng: self.factory@.1,
            is_game_over: self.is_game_over,
            score: self.score,
            chain_count: self.chain_count,
            spawn_count: self.spawn_count,
            events: self.events@,
            dropping: self.dropping@,
            squashing: self.squashing@,
            blinking: self.blinking@,
            sparkling: self.sparkling@,
        }
    }
}

/// A rotation key press: which rotation and when, in milliseconds.
#[derive(Clone, Copy, PartialEq, Eq, Debug, Structural)]
pub struct RotationPress {
    pub rotation: Rotation,
    pub time: u64,
}

/// Timers and key state of play.
#[derive(Clone, Copy, PartialEq, Eq, Debug, Structural)]
pub struct PlayContext {
    pub play_state: PlayState,
    /// last automatic fall, in milliseconds
    pub last_drop_time: u64,
    /// last display update, in milliseconds
    pub last_frame_time: u64,
    /// last move by a key, in milliseconds
    pub last_move_time: u64,
    /// a held key repeats
    pub move_repeating: bool,
    /// when the pair touched ground, in milliseconds
    pub settling_start: u64,
    /// when the popped puyos burst, in milliseconds
    pub sparkle_start: u64,
    /// the last rotation key and when it was pressed, for the quick turn
    pub last_rotation_press: Option<RotationPress>,
}

impl PlayContext {
    /// A fresh context at time `now` (in milliseconds): the pair is in play.
    pub fn new(now: u64) -> (c: Self)
        ensures
            c == (PlayContext {
                play_state: PlayState::Active,
                last_drop_time: now,
                last_frame_time: now,
                last_move_time: 0,
                move_repeating: false,
                settling_start: 0,
                sparkle_start: 0,
                last_rotation_press: None,
            }),
    {
        PlayContext {
            play_state: PlayState::Active,
            last_drop_time: now,
            last_frame_time: now,
            last_move_time: 0,
            move_repeating: false,
            settling_start: 0,
            sparkle_start: 0,
            last_rotation_press: None,
        }
    }
}

/// The model's basic bounds: full-size field, pair inside it, a palette to
/// deal from, animation entries on cells of the field and display positions
/// on the field.
pub open spec fn model_ok(m: FieldModel) -> bool {
    &&& cells_ok(m.cells)
    &&& m.position.col < COLS
    &&& m.position.row < TOTAL_ROWS
    &&& m.palette.len() > 0
    &&& forall|j: int|
        0 <= j < m.dropping.len() ==> (#[trigger] m.dropping[j]).col.0 < COLS
            && m.dropping[j].target_row < TOTAL_ROWS
    &&& forall|j: int|
        0 <= j < m.squashing.len() ==> (#[trigger] m.squashing[j]).col.0 < COLS
            && m.squashing[j].row.0 < TOTAL_ROWS
    &&& forall|j: int|
        0 <= j < m.blinking.len() ==> (#[trigger] m.blinking[j]).col.0 < COLS
            && m.blinking[j].row.0 < ROWS
    &&& forall|j: int|
        0 <= j < m.sparkling.len() ==> (#[trigger] m.sparkling[j]).col.0 < COLS
            && m.sparkling[j].row.0 < ROWS
    &&& 0 <= m.display_col <= 5000
    &&& 0 <= m.display_row <= 13000
    &&& m.next.orientation == Orientation::Up
    &&& m.next_next.orientation == Orientation::Up
}

/// The child's cell for a pair with its axis at `p`.
pub open spec fn child_cell(p: Position, o: Orientation) -> (int, int) {
    (p.col + offset_of(o).0, p.row + offset_of(o).1)
}

/// The pair stands on free cells (its child possibly above the top).
pub open spec fn pair_ok(cells: Cells, p: Position, o: Orientation) -> bool {
    pass_ok(cells, p.col as int, p.row as int, child_cell(p, o).0, child_cell(p, o).1)
}

/// What holds of the field in each phase of play.
pub open spec fn phase_ok(m: FieldModel, state: PlayState) -> bool {
    match state {
        PlayState::Active | PlayState::Settling => {
            &&& settled(m.cells)
            &&& pair_ok(m.cells, m.position, m.pair.orientation)
            &&& m.dropping.len() == 0
        },
        PlayState::Dropping => drop_consistent(m.cells, m.dropping),
        PlayState::Squashing | PlayState::Landed => {
            &&& settled(m.cells)
            &&& m.dropping.len() == 0
        },
        PlayState::Blinking | PlayState::Sparkling => m.dropping.len() == 0,
    }
}

/// A fresh field: empty, the first three pairs dealt, the first in play at
/// the spawn cell.
pub open spec fn fresh_field(num_colors: nat, seed: u64) -> FieldModel {
    let colors = factory_colors(num_colors, seed);
    let (p0, s1) = deal(colors, factory_state(seed));
    let (p1, s2) = deal(colors, s1);
    let (p2, s3) = deal(colors, s2);
    FieldModel {
        cells: Seq::new(CELLS as nat, |i: int| None),
        pair: p0,
        position: spawn_position(),
        display_col: 2000,
        display_row: 2000,
        display_angle: -1000i64,
        rotation_target: -1000i64,
        next: p1,
        next_next: p2,
        palette: colors,
        rng: s3,
        is_game_over: false,
        score: 0,
        chain_count: 0,
        spawn_count: 0,
        events: seq![],
        dropping: seq![],
        squashing: seq![],
        blinking: seq![],
        sparkling: seq![],
    }
}

impl GameField {
    /// The field keeps its bounds.
    pub open spec fn wf(&self) -> bool {
        model_ok(self@)
    }

    /// A new game: an empty field and pairs dealt from `num_colors` colours
    /// shuffled and drawn with `seed`.
    pub fn new(num_colors: usize, seed: u64) -> (f: Self)
        requires
            num_colors >= 1,
        ensures
            f@ == fresh_field(num_colors as nat, seed),
            f.wf(),
            phase_ok(f@, PlayState::Active),
    {
        let mut factory = PuyoPuyoFactory::new(num_colors, seed);
        proof {
            crate::rng::lemma_factory_palette(num_colors as nat, seed);
        }
        let p0 = factory.create();
        let p1 = factory.create();
        let p2 = factory.create();
        let mut field: Vec<Option<Puyo>> = Vec::new();
        let mut i: usize = 0;
        while i < CELLS
            invariant
                i <= CELLS,
                field@ == Seq::new(i as nat, |k: int| None::<Puyo>),
            decreases CELLS - i,
        {
            field.push(None);
            i = i + 1;
            assert(field@ =~= Seq::new(i as nat, |k: int| None::<Puyo>));
        }
        let f = GameField {
            puyopuyo: p0,
            position: initial_position(),
            display_col: 2000,
            display_row: 2000,
            display_angle: -QUARTER_TURN,
            rotation_target: -QUARTER_TURN,
            next: p1,
            next_next: p2,
            field,
            is_game_over: false,
            score: 0,
            chain_count: 0,
            dropping: Vec::new(),
            squashing: Vec::new(),
            blinking: Vec::new(),
            sparkling: Vec::new(),
            spawn_count: 0,
            factory,
            events: Vec::new(),
        };
        assert(f@.events =~= seq![]);
        assert(f@.dropping =~= seq![]);
        assert(f@.squashing =~= seq![]);
        assert(f@.blinking =~= seq![]);
        assert(f@.sparkling =~= seq![]);
        f
    }

    /// Takes the events that happened since the last call.
    pub fn drain_events(&mut self) -> (r: Vec<GameEvent>)
        ensures
            r@ == old(self)@.events,
            final(self)@ == (FieldModel { events: seq![], ..old(self)@ }),
    {
        let mut taken: Vec<GameEvent> = Vec::new();
        std::mem::swap(&mut taken, &mut self.events);
        assert(self@ =~= (FieldModel { events: seq![], ..old(self)@ }));
        taken
    }

    /// Whether the game is over.
    pub fn is_game_over(&self) -> (r: bool)
        ensures
            r == self@.is_game_over,
    {
        self.is_game_over
    }

    /// The score.
    pub fn score(&self) -> (r: u32)
        ensures
            r == self@.score,
    {
        self.score
    }

    /// How many pairs have entered play after the first.
    pub fn spawn_count(&self) -> (r: u32)
        ensures
            r == self@.spawn_count,
    {
        self.spawn_count
    }

    /// The next pair.
    pub fn next(&self) -> (r: &PuyoPuyo)
        ensures
            *r == self@.next,
    {
        &self.next
    }

    /// The pair after the next one.
    pub fn next_next(&self) -> (r: &PuyoPuyo)
        ensures
            *r == self@.next_next,
    {
        &self.next_next
    }
}


/// The part of the state that the keys change: the pair's place and
/// orientation, its display target angle and the key timers.
#[derive(Clone, Copy, PartialEq, Eq, Debug, Structural)]
pub struct Control {
    pub position: Position,
    pub orientation: Orientation,
    pub rotation_target: i64,
    pub last_move_time: u64,
    pub move_repeating: bool,
    pub last_rotation_press: Option<RotationPress>,
}

/// The control part of a field and its context.
pub open spec fn control_of(m: FieldModel, ctx: PlayContext) -> Control {
    Control {
        position: m.position,
        orientation: m.pair.orientation,
        rotation_target: m.rotation_target,
        last_move_time: ctx.last_move_time,
        move_repeating: ctx.move_repeating,
        last_rotation_press: ctx.last_rotation_press,
    }
}

/// A field and context with the control part replaced.
pub open spec fn with_control(m: FieldModel, ctx: PlayContext, c: Control) -> (FieldModel, PlayContext) {
    (
        FieldModel {
            position: c.position,
            pair: PuyoPuyo { orientation: c.orientation, ..m.pair },
            rotation_target: c.rotation_target,
            ..m
        },
        PlayContext {
            last_move_time: c.last_move_time,
            move_repeating: c.move_repeating,
            last_rotation_press: c.last_rotation_press,
            ..ctx
        },
    )
}

/// Whether the pair could move by (`dc`, `dr`).
pub open spec fn can_move_spec(cells: Cells, p: Position, o: Orientation, dc: int, dr: int) -> bool {
    let ac = p.col + dc;
    let ar = p.row + dr;
    pass_ok(cells, ac, ar, ac + offset_of(o).0, ar + offset_of(o).1)
}

/// The pair touches ground: it cannot move one row down.
pub open spec fn grounded(cells: Cells, p: Position, o: Orientation) -> bool {
    !can_move_spec(cells, p, o, 0, 1)
}

/// The control after an attempted move by (`dc`, `dr`): moved if the pair
/// fits there, unchanged otherwise.
pub open spec fn moved(cells: Cells, c: Control, dc: int, dr: int) -> Control {
    if can_move_spec(cells, c.position, c.orientation, dc, dr) {
        Control {
            position: Position {
                col: (c.position.col + dc) as usize,
                row: (c.position.row + dr) as usize,
            },
            ..c
        }
    } else {
        c
    }
}

/// The pair with its axis moved by a kick and the new orientation, if it
/// fits there.
pub open spec fn kick(cells: Cells, p: Position, o: Orientation, kc: int, kr: int) -> Option<(Position, Orientation)> {
    let ac = p.col + kc;
    let ar = p.row + kr;
    if pass_ok(cells, ac, ar, ac + offset_of(o).0, ar + offset_of(o).1) {
        Some((Position { col: ac as usize, row: ar as usize }, o))
    } else {
        None
    }
}

/// The orientation a rotation aims at: one step, or two for a quick turn.
pub open spec fn aimed(o: Orientation, rotation: Rotation, quick: bool) -> Orientation {
    if quick {
        rotated(rotated(o, rotation), rotation)
    } else {
        rotated(o, rotation)
    }
}

/// Where a rotation puts the pair, if anywhere: in place if the child fits;
/// else, for a pair turning down, one row up; for a pair turning sideways,
/// pushed away from the child, one row up, or both, in that order. A pair
/// turning up that does not fit in place stays.
pub open spec fn rotate_spec(cells: Cells, p: Position, o: Orientation, rotation: Rotation, quick: bool) -> Option<(Position, Orientation)> {
    let n = aimed(o, rotation, quick);
    let dc = offset_of(n).0;
    let dr = offset_of(n).1;
    if pass_ok(cells, p.col as int, p.row as int, p.col + dc, p.row + dr) {
        Some((p, n))
    } else {
        match n {
            Orientation::Up => None,
            Orientation::Down => kick(cells, p, n, 0, -1),
            _ => {
                if kick(cells, p, n, -dc, -dr) is Some {
                    kick(cells, p, n, -dc, -dr)
                } else if kick(cells, p, n, 0, -1) is Some {
                    kick(cells, p, n, 0, -1)
                } else {
                    kick(cells, p, n, -dc, -dr - 1)
                }
            },
        }
    }
}

/// A pair in play can always turn so that its child is above its axis, in
/// place and with no kick: the cell above a free cell of a settled field is
/// free, and a child above the top is allowed.
pub proof fn lemma_turn_up_in_place(cells: Cells, p: Position, o: Orientation, rotation: Rotation, quick: bool)
    requires
        settled(cells),
        pair_ok(cells, p, o),
        aimed(o, rotation, quick) == Orientation::Up,
    ensures
        rotate_spec(cells, p, o, rotation, quick) == Some((p, Orientation::Up)),
{
    if p.row >= 1 {
        assert(cell(cells, p.col as int, p.row as int) is None);
        assert(cell(cells, p.col as int, p.row - 1) is None);
    }
}

/// A turn ends in the orientation it aims at or not at all. When the turned
/// pair fits where it is, it turns in place; otherwise it may be pushed at
/// most one column sideways and at most one row up, to a place where it
/// fits: a pair turning down only straight up, a pair turning up never. A
/// turn that does not happen is one that does not fit in place.
pub proof fn lemma_turn_result(cells: Cells, p: Position, o: Orientation, rotation: Rotation, quick: bool)
    ensures
        ({
            let n = aimed(o, rotation, quick);
            let fits_here = pass_ok(
                cells,
                p.col as int,
                p.row as int,
                p.col + offset_of(n).0,
                p.row + offset_of(n).1,
            );
            match rotate_spec(cells, p, o, rotation, quick) {
                Some((p2, o2)) => {
                    &&& o2 == n
                    &&& pass_ok(cells, p2.col as int, p2.row as int, p2.col + offset_of(n).0, p2.row + offset_of(n).1)
                    &&& fits_here ==> p2 == p
                    &&& p.col - 1 <= p2.col <= p.col + 1
                    &&& p.row - 1 <= p2.row <= p.row
                    &&& n == Orientation::Up ==> p2 == p
                    &&& n == Orientation::Down ==> p2.col == p.col
                },
                None => !fits_here,
            }
        }),
{
}

/// The display target angle after a rotation: a quarter turn, or half a
/// turn for a quick turn, clockwise for a right rotation; kept within the
/// range of `i64`.
pub open spec fn turned(target: i64, rotation: Rotation, quick: bool) -> i64 {
    let steps: int = if quick { 2 } else { 1 };
    let d: int = match rotation {
        Rotation::Right => QUARTER_TURN * steps,
        Rotation::Left => -QUARTER_TURN * steps,
    };
    if target + d > i64::MAX {
        i64::MAX
    } else if target + d < i64::MIN {
        i64::MIN
    } else {
        (target + d) as i64
    }
}

/// The moves of one frame: nothing while no move key is held (and the
/// repeat stops); on a fresh press, or once the repeat delay or interval
/// has passed, left, right and down in that order, each if the pair fits.
pub open spec fn move_keys_spec(cells: Cells, c: Control, now: u64, input: GameInput) -> Control {
    let held = input.left || input.right || input.down;
    if !held {
        Control { move_repeating: false, ..c }
    } else {
        let just = input.left_just || input.right_just || input.down_just;
        let interval = if c.move_repeating {
            MOVE_INTERVAL
        } else {
            MOVE_REPEAT_DELAY
        };
        if !just && now - c.last_move_time <= interval {
            c
        } else {
            let c1 = if input.left {
                moved(cells, c, -1, 0)
            } else {
                c
            };
            let c2 = if input.right {
                moved(cells, c1, 1, 0)
            } else {
                c1
            };
            let c3 = if input.down {
                moved(cells, c2, 0, 1)
            } else {
                c2
            };
            Control { last_move_time: now, move_repeating: !just, ..c3 }
        }
    }
}

/// A vertical pair that cannot move sideways at all.
pub open spec fn quick_turn_position(cells: Cells, c: Control) -> bool {
    &&& (c.orientation == Orientation::Up || c.orientation == Orientation::Down)
    &&& !can_move_spec(cells, c.position, c.orientation, -1, 0)
    &&& !can_move_spec(cells, c.position, c.orientation, 1, 0)
}

/// One press of a rotation key: a quick turn when the same key was pressed
/// within the window and the pair is wedged vertically, else one step.
pub open spec fn rotate_step(cells: Cells, c: Control, rotation: Rotation, now: u64) -> Control {
    let recent = match c.last_rotation_press {
        Some(press) => press.rotation == rotation && now - press.time < QUICK_TURN_WINDOW,
        None => false,
    };
    let quick = recent && quick_turn_position(cells, c);
    let c1 = match rotate_spec(cells, c.position, c.orientation, rotation, quick) {
        Some((p, o)) => Control {
            position: p,
            orientation: o,
            rotation_target: turned(c.rotation_target, rotation, quick),
            ..c
        },
        None => c,
    };
    Control { last_rotation_press: Some(RotationPress { rotation, time: now }), ..c1 }
}

/// The rotations of one frame: right, then left.
pub open spec fn rotate_keys_spec(cells: Cells, c: Control, now: u64, input: GameInput) -> Control {
    let c1 = if input.rotate_right {
        rotate_step(cells, c, Rotation::Right, now)
    } else {
        c
    };
    if input.rotate_left {
        rotate_step(cells, c1, Rotation::Left, now)
    } else {
        c1
    }
}

/// Moves, then rotations, of one frame.
pub open spec fn keys_spec(cells: Cells, c: Control, now: u64, input: GameInput) -> Control {
    rotate_keys_spec(cells, move_keys_spec(cells, c, now, input), now, input)
}

/// A control whose pair is in the field.
pub open spec fn control_ok(c: Control) -> bool {
    c.position.col < COLS && c.position.row < TOTAL_ROWS
}

/// Whether the time since `t` exceeds `d` (never, when `t` is later).
fn elapsed_over(now: u64, t: u64, d: u64) -> (r: bool)
    ensures
        r == (now - t > d),
{
    now > t && now - t > d
}

impl GameField {
    /// Whether the pair could move by (`dc`, `dr`) from `p`.
    fn can_move_at(&self, p: Position, o: Orientation, dc: isize, dr: isize) -> (r: bool)
        requires
            cells_ok(self@.cells),
            p.col < COLS,
            p.row < TOTAL_ROWS,
            -1 <= dc <= 1,
            -2 <= dr <= 1,
        ensures
            r == can_move_spec(self@.cells, p, o, dc as int, dr as int),
    {
        let (cdc, cdr) = o.offset();
        let ac = p.col as isize + dc;
        let ar = p.row as isize + dr;
        can_pass(&self.field, (ac, ar), (ac + cdc, ar + cdr))
    }

    /// A move attempt.
    fn try_move(&self, c: Control, dc: isize, dr: isize) -> (r: Control)
        requires
            cells_ok(self@.cells),
            control_ok(c),
            -1 <= dc <= 1,
            0 <= dr <= 1,
        ensures
            r == moved(self@.cells, c, dc as int, dr as int),
            control_ok(r),
    {
        if self.can_move_at(c.position, c.orientation, dc, dr) {
            let col = (c.position.col as isize + dc) as usize;
            let row = (c.position.row as isize + dr) as usize;
            Control { position: Position { col, row }, ..c }
        } else {
            c
        }
    }

    /// A kick attempt.
    fn try_kick(&self, p: Position, o: Orientation, kc: isize, kr: isize) -> (r: Option<(Position, Orientation)>)
        requires
            cells_ok(self@.cells),
            p.col < COLS,
            p.row < TOTAL_ROWS,
            -1 <= kc <= 1,
            -2 <= kr <= 1,
        ensures
            r == kick(self@.cells, p, o, kc as int, kr as int),
            r matches Some((q, _)) ==> q.col < COLS && q.row < TOTAL_ROWS,
    {
        if self.can_move_at(p, o, kc, kr) {
            let col = (p.col as isize + kc) as usize;
            let row = (p.row as isize + kr) as usize;
            Some((Position { col, row }, o))
        } else {
            None
        }
    }

    /// Where a rotation puts the pair, if anywhere.
    fn rotate_at(&self, p: Position, o: Orientation, rotation: Rotation, is_quick: bool) -> (r: Option<(Position, Orientation)>)
        requires
            cells_ok(self@.cells),
            p.col < COLS,
            p.row < TOTAL_ROWS,
        ensures
            r == rotate_spec(self@.cells, p, o, rotation, is_quick),
            r matches Some((q, _)) ==> q.col < COLS && q.row < TOTAL_ROWS,
    {
        let new_ori = if is_quick {
            o.rotate(rotation).rotate(rotation)
        } else {
            o.rotate(rotation)
        };
        let (new_dc, new_dr) = new_ori.offset();
        let col = p.col as isize;
        let row = p.row as isize;
        if can_pass(&self.field, (col, row), (col + new_dc, row + new_dr)) {
            return Some((p, new_ori));
        }
        match new_ori {
            Orientation::Up => None,
            Orientation::Down => self.try_kick(p, new_ori, 0, -1),
            _ => {
                let normal = self.try_kick(p, new_ori, -new_dc, -new_dr);
                if normal.is_some() {
                    return normal;
                }
                let up = self.try_kick(p, new_ori, 0, -1);
                if up.is_some() {
                    return up;
                }
                self.try_kick(p, new_ori, -new_dc, -new_dr - 1)
            },
        }
    }

    /// The moves of one frame.
    fn move_keys(&self, c: Control, now: u64, input: GameInput) -> (r: Control)
        requires
            cells_ok(self@.cells),
            control_ok(c),
        ensures
            r == move_keys_spec(self@.cells, c, now, input),
            control_ok(r),
    {
        let held = input.left || input.right || input.down;
        if !held {
            return Control { move_repeating: false, ..c };
        }
        let just_pressed = input.left_just || input.right_just || input.down_just;
        let interval = if c.move_repeating {
            MOVE_INTERVAL
        } else {
            MOVE_REPEAT_DELAY
        };
        if !just_pressed && !elapsed_over(now, c.last_move_time, interval) {
            return c;
        }
        let mut c1 = c;
        if input.left {
            c1 = self.try_move(c1, -1, 0);
        }
        if input.right {
            c1 = self.try_move(c1, 1, 0);
        }
        if input.down {
            c1 = self.try_move(c1, 0, 1);
        }
        Control { last_move_time: now, move_repeating: !just_pressed, ..c1 }
    }

    /// Whether the pair is vertical and cannot move sideways at all.
    fn in_quick_turn_position(&self, c: Control) -> (r: bool)
        requires
            cells_ok(self@.cells),
            control_ok(c),
        ensures
            r == quick_turn_position(self@.cells, c),
    {
        (c.orientation == Orientation::Up || c.orientation == Orientation::Down) && !self.can_move_at(
            c.position,
            c.orientation,
            -1,
            0,
        ) && !self.can_move_at(c.position, c.orientation, 1, 0)
    }

    /// One press of a rotation key.
    fn try_rotate(&self, c: Control, rotation: Rotation, now: u64) -> (r: Control)
        requires
            cells_ok(self@.cells),
            control_ok(c),
        ensures
            r == rotate_step(self@.cells, c, rotation, now),
            control_ok(r),
    {
        let recent_same = match c.last_rotation_press {
            Some(press) => press.rotation == rotation && (now < press.time || now - press.time
                < QUICK_TURN_WINDOW),
            None => false,
        };
        let is_quick = recent_same && self.in_quick_turn_position(c);
        let c1 = match self.rotate_at(c.position, c.orientation, rotation, is_quick) {
            Some((p, o)) => Control {
                position: p,
                orientation: o,
                rotation_target: turn(c.rotation_target, rotation, is_quick),
                ..c
            },
            None => c,
        };
        Control { last_rotation_press: Some(RotationPress { rotation, time: now }), ..c1 }
    }

    /// The moves and rotations of one frame.
    fn apply_keys(&self, c: Control, now: u64, input: GameInput) -> (r: Control)
        requires
            cells_ok(self@.cells),
            control_ok(c),
        ensures
            r == keys_spec(self@.cells, c, now, input),
            control_ok(r),
    {
        let c1 = self.move_keys(c, now, input);
        let c2 = if input.rotate_right {
            self.try_rotate(c1, Rotation::Right, now)
        } else {
            c1
        };
        if input.rotate_left {
            self.try_rotate(c2, Rotation::Left, now)
        } else {
            c2
        }
    }
}

/// The display target angle after a rotation.
fn turn(target: i64, rotation: Rotation, quick: bool) -> (r: i64)
    ensures
        r == turned(target, rotation, quick),
{
    let d: i64 = match rotation {
        Rotation::Right => if quick {
            2 * QUARTER_TURN
        } else {
            QUARTER_TURN
        },
        Rotation::Left => if quick {
            -2 * QUARTER_TURN
        } else {
            -QUARTER_TURN
        },
    };
    if d > 0 && target > i64::MAX - d {
        i64::MAX
    } else if d < 0 && target < i64::MIN - d {
        i64::MIN
    } else {
        target + d
    }
}


/// A move attempt keeps the pair on free cells.
proof fn lemma_moved_keeps_pair(cells: Cells, c: Control, dc: int, dr: int)
    requires
        pair_ok(cells, c.position, c.orientation),
        control_ok(c),
    ensures
        pair_ok(cells, moved(cells, c, dc, dr).position, moved(cells, c, dc, dr).orientation),
{
}

/// A rotation attempt keeps the pair on free cells.
proof fn lemma_rotate_keeps_pair(cells: Cells, c: Control, rotation: Rotation, now: u64)
    requires
        pair_ok(cells, c.position, c.orientation),
        control_ok(c),
    ensures
        pair_ok(
            cells,
            rotate_step(cells, c, rotation, now).position,
            rotate_step(cells, c, rotation, now).orientation,
        ),
{
}

/// The keys of a frame keep the pair on free cells.
pub proof fn lemma_keys_keep_pair(cells: Cells, c: Control, now: u64, input: GameInput)
    requires
        pair_ok(cells, c.position, c.orientation),
        control_ok(c),
    ensures
        pair_ok(cells, keys_spec(cells, c, now, input).position, keys_spec(cells, c, now, input).orientation),
{
    let c1 = if input.left { moved(cells, c, -1, 0) } else { c };
    lemma_moved_keeps_pair(cells, c, -1, 0);
    let c2 = if input.right { moved(cells, c1, 1, 0) } else { c1 };
    lemma_moved_keeps_pair(cells, c1, 1, 0);
    let c3 = if input.down { moved(cells, c2, 0, 1) } else { c2 };
    lemma_moved_keeps_pair(cells, c2, 0, 1);
    let m = move_keys_spec(cells, c, now, input);
    assert(pair_ok(cells, m.position, m.orientation));
    lemma_rotate_keeps_pair(cells, m, Rotation::Right, now);
    let r1 = if input.rotate_right { rotate_step(cells, m, Rotation::Right, now) } else { m };
    lemma_rotate_keeps_pair(cells, r1, Rotation::Left, now);
}

/// The two puyos of the pair as falling puyos: axis first.
pub open spec fn pair_falling(m: FieldModel) -> Seq<Falling> {
    let cc = child_cell(m.position, m.pair.orientation);
    seq![
        (m.pair.axis, Col(m.position.col), FieldRow(m.position.row)),
        (m.pair.child, Col(cc.0 as usize), FieldRow(cc.1 as usize)),
    ]
}

/// The field after the given puyos start to fall.
pub open spec fn dropped(m: FieldModel, falling: Seq<Falling>) -> FieldModel {
    let st = drop_all(drop_start(m.cells, m.events, m.dropping), drop_order(falling));
    FieldModel { cells: st.0, events: st.1, dropping: st.2, ..m }
}

/// The displayed row is within a twentieth of a cell of the pair's row.
pub open spec fn near_row(display_row: i64, row: usize) -> bool {
    -50 < display_row - row * 1000 < 50
}

/// One frame of play while the pair is under control: the automatic fall
/// when its interval has passed, the keys, and the switch to settling once
/// the pair touches ground.
pub open spec fn active_spec(m: FieldModel, ctx: PlayContext, now: u64, input: GameInput) -> (FieldModel, PlayContext) {
    let c0 = control_of(m, ctx);
    let fall = now - ctx.last_drop_time > DROP_INTERVAL;
    let c1 = if fall { moved(m.cells, c0, 0, 1) } else { c0 };
    let ctx0 = if fall { PlayContext { last_drop_time: now, ..ctx } } else { ctx };
    let c2 = keys_spec(m.cells, c1, now, input);
    let (m2, ctx2) = with_control(m, ctx0, c2);
    if grounded(m.cells, c2.position, c2.orientation) {
        (m2, PlayContext { play_state: PlayState::Settling, settling_start: now, ..ctx2 })
    } else {
        (m2, ctx2)
    }
}

/// The control after a settling frame's keys.
pub open spec fn settle_control(m: FieldModel, ctx: PlayContext, now: u64, input: GameInput) -> Control {
    keys_spec(m.cells, control_of(m, ctx), now, input)
}

/// When a settling frame's lock wait started: now if the keys moved or
/// turned the pair.
pub open spec fn settle_start(m: FieldModel, ctx: PlayContext, now: u64, input: GameInput) -> u64 {
    let c0 = control_of(m, ctx);
    let c1 = settle_control(m, ctx, now, input);
    if c1.position != c0.position || c1.orientation != c0.orientation {
        now
    } else {
        ctx.settling_start
    }
}

/// Whether a settling frame locks the pair: it is grounded, the lock wait
/// (shorter while down is held) has passed, and its display has caught up.
pub open spec fn settle_locks(m: FieldModel, ctx: PlayContext, now: u64, input: GameInput) -> bool {
    let c1 = settle_control(m, ctx, now, input);
    let delay = if input.down { LOCK_DELAY_FAST } else { LOCK_DELAY };
    &&& grounded(m.cells, c1.position, c1.orientation)
    &&& now - settle_start(m, ctx, now, input) > delay
    &&& near_row(m.display_row, c1.position.row)
}

/// One frame of play while the pair waits to lock: the keys (which restart
/// the wait when they move or turn the pair), back to control if the pair
/// no longer touches ground, or the lock, after which its two puyos fall.
pub open spec fn settling_spec(m: FieldModel, ctx: PlayContext, now: u64, input: GameInput) -> (FieldModel, PlayContext) {
    let c1 = settle_control(m, ctx, now, input);
    let ctx0 = PlayContext { settling_start: settle_start(m, ctx, now, input), ..ctx };
    let (m1, ctx1) = with_control(m, ctx0, c1);
    if !grounded(m.cells, c1.position, c1.orientation) {
        (m1, PlayContext { play_state: PlayState::Active, ..ctx1 })
    } else if settle_locks(m, ctx, now, input) {
        (dropped(m1, pair_falling(m1)), PlayContext { play_state: PlayState::Dropping, ..ctx1 })
    } else {
        (m1, ctx1)
    }
}

/// A lock with the child above the top of the field: the pair cannot be put
/// on the field.
pub open spec fn lock_leaves_field(m: FieldModel, ctx: PlayContext, now: u64, input: GameInput) -> bool {
    let c1 = settle_control(m, ctx, now, input);
    &&& ctx.play_state == PlayState::Settling
    &&& settle_locks(m, ctx, now, input)
    &&& child_cell(c1.position, c1.orientation).1 < 0
}

impl GameField {
    fn control(&self, ctx: &PlayContext) -> (c: Control)
        ensures
            c == control_of(self@, *ctx),
    {
        Control {
            position: self.position,
            orientation: self.puyopuyo.orientation,
            rotation_target: self.rotation_target,
            last_move_time: ctx.last_move_time,
            move_repeating: ctx.move_repeating,
            last_rotation_press: ctx.last_rotation_press,
        }
    }

    fn set_control(&mut self, ctx: &mut PlayContext, c: Control)
        ensures
            (final(self)@, *final(ctx)) == with_control(old(self)@, *old(ctx), c),
    {
        self.position = c.position;
        self.puyopuyo.orientation = c.orientation;
        self.rotation_target = c.rotation_target;
        ctx.last_move_time = c.last_move_time;
        ctx.move_repeating = c.move_repeating;
        ctx.last_rotation_press = c.last_rotation_press;
    }

    fn tick_active(&mut self, ctx: &mut PlayContext, now: u64, input: GameInput)
        requires
            old(self).wf(),
            old(ctx).play_state == PlayState::Active,
            phase_ok(old(self)@, PlayState::Active),
        ensures
            (final(self)@, *final(ctx)) == active_spec(old(self)@, *old(ctx), now, input),
            final(self).wf(),
            phase_ok(final(self)@, final(ctx).play_state),
    {
        let c0 = self.control(ctx);
        let fall = elapsed_over(now, ctx.last_drop_time, DROP_INTERVAL);
        let c1 = if fall {
            self.try_move(c0, 0, 1)
        } else {
            c0
        };
        if fall {
            ctx.last_drop_time = now;
        }
        let c2 = self.apply_keys(c1, now, input);
        proof {
            lemma_moved_keeps_pair(self@.cells, c0, 0, 1);
            lemma_keys_keep_pair(self@.cells, c1, now, input);
        }
        let is_grounded = !self.can_move_at(c2.position, c2.orientation, 0, 1);
        self.set_control(ctx, c2);
        if is_grounded {
            ctx.play_state = PlayState::Settling;
            ctx.settling_start = now;
        }
    }

    /// The child's cell, when it lies inside the field.
    fn child_position(&self) -> (p: Position)
        requires
            cells_ok(self@.cells),
            pair_ok(self@.cells, self@.position, self@.pair.orientation),
            child_cell(self@.position, self@.pair.orientation).1 >= 0,
        ensures
            p.col == child_cell(self@.position, self@.pair.orientation).0,
            p.row == child_cell(self@.position, self@.pair.orientation).1,
    {
        let (dc, dr) = self.puyopuyo.orientation().offset();
        Position::new(
            (self.position.col as isize + dc) as usize,
            (self.position.row as isize + dr) as usize,
        )
    }

    /// Puts the pair's two puyos on their way down.
    fn lock_pair(&mut self)
        requires
            old(self).wf(),
            settled(old(self)@.cells),
            pair_ok(old(self)@.cells, old(self)@.position, old(self)@.pair.orientation),
            old(self)@.dropping.len() == 0,
            child_cell(old(self)@.position, old(self)@.pair.orientation).1 >= 0,
        ensures
            final(self)@ == dropped(old(self)@, pair_falling(old(self)@)),
            final(self).wf(),
            drop_consistent(final(self)@.cells, final(self)@.dropping),
    {
        let axis = self.position;
        let child = self.child_position();
        let mut falling: Vec<Falling> = Vec::new();
        falling.push((self.puyopuyo.axis(), Col(axis.col), FieldRow(axis.row)));
        falling.push((self.puyopuyo.child(), Col(child.col), FieldRow(child.row)));
        proof {
            let m1 = self@;
            assert(falling@ =~= pair_falling(m1));
            crate::board::lemma_settled_column(m1.cells, axis.col as int);
            crate::board::lemma_settled_column(m1.cells, child.col as int);
            assert(cell(m1.cells, axis.col as int, axis.row as int) is None);
            assert(cell(m1.cells, child.col as int, child.row as int) is None);
            assert(crate::gravity::drop_key(falling@[0]) != crate::gravity::drop_key(falling@[1]));
            assert(drop_ready(m1.cells, falling@));
        }
        start_dropping(&mut self.field, &mut self.events, &mut self.dropping, falling);
    }

    #[verifier::spinoff_prover]
    #[verifier::rlimit(60)]
    fn tick_settling(&mut self, ctx: &mut PlayContext, now: u64, input: GameInput)
        requires
            old(self).wf(),
            old(ctx).play_state == PlayState::Settling,
            phase_ok(old(self)@, PlayState::Settling),
            !lock_leaves_field(old(self)@, *old(ctx), now, input),
        ensures
            (final(self)@, *final(ctx)) == settling_spec(old(self)@, *old(ctx), now, input),
            final(self).wf(),
            phase_ok(final(self)@, final(ctx).play_state),
    {
        let ghost m0 = self@;
        let c0 = self.control(ctx);
        let c1 = self.apply_keys(c0, now, input);
        proof {
            lemma_keys_keep_pair(self@.cells, c0, now, input);
        }
        if c1.position != c0.position || c1.orientation != c0.orientation {
            ctx.settling_start = now;
        }
        let delay = if input.down {
            LOCK_DELAY_FAST
        } else {
            LOCK_DELAY
        };
        let is_grounded = !self.can_move_at(c1.position, c1.orientation, 0, 1);
        self.set_control(ctx, c1);
        if !is_grounded {
            ctx.play_state = PlayState::Active;
        } else if elapsed_over(now, ctx.settling_start, delay) && self.display_row - (
        self.position.row as i64) * 1000 > -50 && self.display_row - (self.position.row as i64)
            * 1000 < 50 {
            self.lock_pair();
            ctx.play_state = PlayState::Dropping;
        }
    }
}


/// A dropping puyo has reached its landing row.
pub open spec fn lands(d: DroppingPuyo) -> bool {
    d.row >= d.target_row * 1_000_000
}

/// Cells, squashing puyos, events, and the dropping puyos kept in the air.
pub type LandState = (Cells, Seq<SquashingPuyo>, Seq<GameEvent>, Seq<DroppingPuyo>);

/// One dropping puyo at time `now`: put on its landing cell, squashing and
/// reported if it has arrived, kept in the air otherwise.
pub open spec fn land_one(st: LandState, d: DroppingPuyo, now: u64) -> LandState {
    if lands(d) {
        (
            st.0.update(cell_index(d.col.0 as int, d.target_row as int), Some(d.puyo)),
            st.1.push(SquashingPuyo { col: d.col, row: FieldRow(d.target_row), start_time: now }),
            st.2.push(GameEvent::PuyoLanded),
            st.3,
        )
    } else {
        (st.0, st.1, st.2, st.3.push(d))
    }
}

/// The dropping puyos handled in order.
pub open spec fn land_all(st: LandState, s: Seq<DroppingPuyo>, now: u64) -> LandState
    decreases s.len(),
{
    if s.len() == 0 {
        st
    } else {
        land_one(land_all(st, s.drop_last(), now), s.last(), now)
    }
}

/// One frame of free fall: arrived puyos land; once none is left in the
/// air the landed puyos squash.
pub open spec fn dropping_spec(m: FieldModel, ctx: PlayContext, now: u64) -> (FieldModel, PlayContext) {
    let st = land_all((m.cells, m.squashing, m.events, seq![]), m.dropping, now);
    let m1 = FieldModel { cells: st.0, squashing: st.1, events: st.2, dropping: st.3, ..m };
    if st.3.len() == 0 {
        (m1, PlayContext { play_state: PlayState::Squashing, ..ctx })
    } else {
        (m1, ctx)
    }
}

/// Putting an arrived puyo on its cell keeps the dropping puyos consistent
/// with the field.
proof fn lemma_land_keeps_consistent(cells: Cells, ds: Seq<DroppingPuyo>, i: int)
    requires
        drop_consistent(cells, ds),
        0 <= i < ds.len(),
    ensures
        drop_consistent(
            cells.update(cell_index(ds[i].col.0 as int, ds[i].target_row as int), Some(ds[i].puyo)),
            ds.remove(i),
        ),
{
    let d = ds[i];
    let c2 = cells.update(cell_index(d.col.0 as int, d.target_row as int), Some(d.puyo));
    let ds2 = ds.remove(i);
    assert forall|j: int| 0 <= j < ds2.len() implies (#[trigger] ds2[j]).col.0 < COLS
        && ds2[j].target_row < TOTAL_ROWS && cell(
        c2,
        ds2[j].col.0 as int,
        ds2[j].target_row as int,
    ) is None by {
        let jj = if j < i { j } else { j + 1 };
        assert(ds2[j] == ds[jj]);
        assert(ds[jj].col != d.col || ds[jj].target_row != d.target_row);
        assert(cell_index(ds[jj].col.0 as int, ds[jj].target_row as int) != cell_index(
            d.col.0 as int,
            d.target_row as int,
        ));
    }
    assert forall|j: int, k: int|
        0 <= j < ds2.len() && 0 <= k < ds2.len() && j != k && (#[trigger] ds2[j]).col == (
        #[trigger] ds2[k]).col implies ds2[j].target_row != ds2[k].target_row by {
        let jj = if j < i { j } else { j + 1 };
        let kk = if k < i { k } else { k + 1 };
        assert(ds2[j] == ds[jj] && ds2[k] == ds[kk]);
    }
    assert forall|c: int, r: int| 0 <= c < COLS && 0 <= r < TOTAL_ROWS implies #[trigger] stays_free(
        c2,
        ds2,
        c,
        r,
    ) == stays_free(cells, ds, c, r) by {
        if c == d.col.0 && r == d.target_row {
            assert(ds[i].col.0 == c && ds[i].target_row == r);
        } else {
            assert(cell_index(c, r) != cell_index(d.col.0 as int, d.target_row as int));
            assert(cell(c2, c, r) == cell(cells, c, r));
            if exists|j: int| 0 <= j < ds.len() && (#[trigger] ds[j]).col.0 == c && ds[j].target_row == r {
                let j = choose|j: int| 0 <= j < ds.len() && (#[trigger] ds[j]).col.0 == c && ds[j].target_row == r;
                assert(j != i);
                let jj = if j < i { j } else { j - 1 };
                assert(ds2[jj] == ds[j]);
            }
            if exists|j: int| 0 <= j < ds2.len() && (#[trigger] ds2[j]).col.0 == c && ds2[j].target_row == r {
                let j = choose|j: int| 0 <= j < ds2.len() && (#[trigger] ds2[j]).col.0 == c && ds2[j].target_row == r;
                let jj = if j < i { j } else { j + 1 };
                assert(ds2[j] == ds[jj]);
            }
        }
    }
    assert forall|c: int, r1: int, r2: int|
        0 <= c < COLS && 0 <= r1 < r2 < TOTAL_ROWS && #[trigger] stays_free(c2, ds2, c, r2)
            implies #[trigger] stays_free(c2, ds2, c, r1) by {
        assert(stays_free(c2, ds2, c, r2) == stays_free(cells, ds, c, r2));
        assert(stays_free(c2, ds2, c, r1) == stays_free(cells, ds, c, r1));
    }
}

/// With no puyo in the air, consistency means nothing floats.
proof fn lemma_consistent_empty_settled(cells: Cells, ds: Seq<DroppingPuyo>)
    requires
        drop_consistent(cells, ds),
        ds.len() == 0,
    ensures
        settled(cells),
{
    assert forall|c: int, r1: int, r2: int|
        0 <= c < COLS && 0 <= r1 < r2 < TOTAL_ROWS && #[trigger] cell(cells, c, r2) is None
            implies #[trigger] cell(cells, c, r1) is None by {
        assert(stays_free(cells, ds, c, r2));
        assert(stays_free(cells, ds, c, r1));
    }
}

impl GameField {
    fn tick_dropping(&mut self, ctx: &mut PlayContext, now: u64)
        requires
            old(self).wf(),
            old(ctx).play_state == PlayState::Dropping,
            phase_ok(old(self)@, PlayState::Dropping),
        ensures
            (final(self)@, *final(ctx)) == dropping_spec(old(self)@, *old(ctx), now),
            final(self).wf(),
            phase_ok(final(self)@, final(ctx).play_state),
    {
        let ghost m0 = self@;
        let ghost st0: LandState = (m0.cells, m0.squashing, m0.events, seq![]);
        let ghost mut j: int = 0;
        let mut i: usize = 0;
        assert(m0.dropping.take(0) =~= seq![]);
        assert(self.dropping@ =~= seq![] + m0.dropping.skip(0));
        while i < self.dropping.len()
            invariant
                model_ok(m0),
                0 <= j <= m0.dropping.len(),
                ({
                    let st = land_all(st0, m0.dropping.take(j), now);
                    &&& self.field@ == st.0
                    &&& self.squashing@ == st.1
                    &&& self.events@ == st.2
                    &&& self.dropping@ == st.3 + m0.dropping.skip(j)
                    &&& i == st.3.len()
                }),
                drop_consistent(self.field@, self.dropping@),
                self@ == (FieldModel {
                    cells: self.field@,
                    squashing: self.squashing@,
                    events: self.events@,
                    dropping: self.dropping@,
                    ..m0
                }),
                forall|k: int|
                    0 <= k < self.squashing@.len() ==> (#[trigger] self.squashing@[k]).col.0 < COLS
                        && self.squashing@[k].row.0 < TOTAL_ROWS,
            decreases m0.dropping.len() - j,
        {
            let ghost st = land_all(st0, m0.dropping.take(j), now);
            let d = self.dropping[i];
            proof {
                assert(d == m0.dropping[j]);
                assert(m0.dropping.take(j + 1).drop_last() =~= m0.dropping.take(j));
                assert(m0.dropping.take(j + 1).last() == d);
            }
            if d.row >= (d.target_row as u64) * 1_000_000 {
                proof {
                    lemma_land_keeps_consistent(self.field@, self.dropping@, i as int);
                }
                let f = self.dropping.remove(i);
                self.field.set(f.target_row * COLS + f.col.index(), Some(f.puyo));
                self.squashing.push(
                    SquashingPuyo { col: f.col, row: FieldRow(f.target_row), start_time: now },
                );
                self.events.push(GameEvent::PuyoLanded);
                proof {
                    assert(self.dropping@ =~= st.3 + m0.dropping.skip(j + 1));
                }
            } else {
                proof {
                    assert(self.dropping@ =~= st.3.push(d) + m0.dropping.skip(j + 1));
                }
                i = i + 1;
            }
            proof {
                j = j + 1;
            }
        }
        proof {
            assert(m0.dropping.skip(j) =~= seq![]);
            assert(m0.dropping.take(j) =~= m0.dropping);
            assert(self.dropping@ =~= land_all(st0, m0.dropping, now).3);
        }
        if self.dropping.len() == 0 {
            proof {
                lemma_consistent_empty_settled(self.field@, self.dropping@);
            }
            ctx.play_state = PlayState::Squashing;
        }
    }
}


/// The squashing puyos whose squash is still running at `now`.
pub open spec fn keep_squashing(s: Seq<SquashingPuyo>, now: u64) -> Seq<SquashingPuyo>
    decreases s.len(),
{
    if s.len() == 0 {
        seq![]
    } else {
        let r = keep_squashing(s.drop_last(), now);
        if now - s.last().start_time < SQUASHING_ANIM_DURATION {
            r.push(s.last())
        } else {
            r
        }
    }
}

/// The blinking puyos whose blinking is still running at `now`.
pub open spec fn keep_blinking(s: Seq<BlinkingPuyo>, now: u64) -> Seq<BlinkingPuyo>
    decreases s.len(),
{
    if s.len() == 0 {
        seq![]
    } else {
        let r = keep_blinking(s.drop_last(), now);
        if now - s.last().start_time < BLINK_DURATION {
            r.push(s.last())
        } else {
            r
        }
    }
}

/// A group's cells starting to blink at `now`.
pub open spec fn group_blinks(g: Group, now: u64) -> Seq<BlinkingPuyo> {
    g.1.map_values(|cr: (usize, usize)| BlinkingPuyo { col: Col(cr.0), row: VisibleRow(cr.1), start_time: now })
}

/// A group's cells about to pop.
pub open spec fn group_sparkles(g: Group) -> Seq<SparklingPuyo> {
    g.1.map_values(|cr: (usize, usize)| SparklingPuyo { puyo: g.0, col: Col(cr.0), row: VisibleRow(cr.1) })
}

/// The blinking entries of all groups, group by group.
pub open spec fn blinks_of(gs: Seq<Group>, now: u64) -> Seq<BlinkingPuyo>
    decreases gs.len(),
{
    if gs.len() == 0 {
        seq![]
    } else {
        blinks_of(gs.drop_last(), now) + group_blinks(gs.last(), now)
    }
}

/// The popping entries of all groups, group by group.
pub open spec fn sparkles_of(gs: Seq<Group>) -> Seq<SparklingPuyo>
    decreases gs.len(),
{
    if gs.len() == 0 {
        seq![]
    } else {
        sparkles_of(gs.drop_last()) + group_sparkles(gs.last())
    }
}

/// Sum of the columns of some cells.
pub open spec fn col_sum(cs: Seq<(usize, usize)>) -> int
    decreases cs.len(),
{
    if cs.len() == 0 {
        0
    } else {
        col_sum(cs.drop_last()) + cs.last().0
    }
}

/// Sum of the rows of some cells.
pub open spec fn row_sum(cs: Seq<(usize, usize)>) -> int
    decreases cs.len(),
{
    if cs.len() == 0 {
        0
    } else {
        row_sum(cs.drop_last()) + cs.last().1
    }
}

/// Sum of the columns of all cells of the groups.
pub open spec fn groups_col_sum(gs: Seq<Group>) -> int
    decreases gs.len(),
{
    if gs.len() == 0 {
        0
    } else {
        groups_col_sum(gs.drop_last()) + col_sum(gs.last().1)
    }
}

/// Sum of the rows of all cells of the groups.
pub open spec fn groups_row_sum(gs: Seq<Group>) -> int
    decreases gs.len(),
{
    if gs.len() == 0 {
        0
    } else {
        groups_row_sum(gs.drop_last()) + row_sum(gs.last().1)
    }
}

/// The event for a chain step: its count, and the column and row sums and
/// number of the popped cells.
pub open spec fn chain_pop_event(count: u32, gs: Seq<Group>) -> GameEvent {
    GameEvent::ChainPop {
        count,
        col_sum: groups_col_sum(gs) as u32,
        row_sum: groups_row_sum(gs) as u32,
        cells: group_total(gs) as u32,
    }
}

/// One frame after a landing: once every squash is over, the groups of four
/// or more start to blink (and score, as one more chain step); with no
/// group, everything has come to rest and the chain count resets.
pub open spec fn squashing_spec(m: FieldModel, ctx: PlayContext, now: u64) -> (FieldModel, PlayContext) {
    let sq = keep_squashing(m.squashing, now);
    if sq.len() > 0 {
        (FieldModel { squashing: sq, ..m }, ctx)
    } else {
        let gs = chain_groups(m.cells);
        let m1 = FieldModel {
            squashing: sq,
            blinking: m.blinking + blinks_of(gs, now),
            sparkling: m.sparkling + sparkles_of(gs),
            ..m
        };
        if gs.len() == 0 {
            (FieldModel { chain_count: 0, ..m1 }, PlayContext { play_state: PlayState::Landed, ..ctx })
        } else {
            let count = (m.chain_count + 1) as u32;
            (
                FieldModel {
                    chain_count: count,
                    score: (m.score + score_gain_of(count as int, gs)) as u32,
                    events: m.events.push(chain_pop_event(count, gs)),
                    ..m1
                },
                PlayContext { play_state: PlayState::Blinking, ..ctx },
            )
        }
    }
}

/// The sums stay within the size of the groups.
proof fn lemma_sums_bounded(cs: Seq<(usize, usize)>)
    requires
        forall|k: int| 0 <= k < cs.len() ==> (#[trigger] cs[k]).0 < COLS && cs[k].1 < ROWS,
    ensures
        0 <= col_sum(cs) <= 5 * cs.len(),
        0 <= row_sum(cs) <= 11 * cs.len(),
    decreases cs.len(),
{
    if cs.len() > 0 {
        lemma_sums_bounded(cs.drop_last());
    }
}

/// Sums over all groups of cells on the field are bounded by their size.
proof fn lemma_groups_sums_bounded(gs: Seq<Group>)
    requires
        groups_on_field(gs),
    ensures
        0 <= groups_col_sum(gs) <= 5 * group_total(gs),
        0 <= groups_row_sum(gs) <= 11 * group_total(gs),
    decreases gs.len(),
{
    if gs.len() > 0 {
        let last = gs.last();
        assert forall|k: int| 0 <= k < last.1.len() implies (#[trigger] last.1[k]).0 < COLS
            && last.1[k].1 < ROWS by {
            assert(gs[gs.len() - 1].1[k] == last.1[k]);
        }
        lemma_sums_bounded(last.1);
        assert(groups_on_field(gs.drop_last())) by {
            assert forall|g: int, k: int|
                0 <= g < gs.drop_last().len() && 0 <= k < gs.drop_last()[g].1.len() implies (#[trigger] gs.drop_last()[g].1[k]).0
                    < COLS && gs.drop_last()[g].1[k].1 < ROWS by {
                assert(gs.drop_last()[g] == gs[g]);
            }
        }
        lemma_groups_sums_bounded(gs.drop_last());
    }
}

impl GameField {
    /// Drops the squashes that are over.
    fn retain_squashing(&mut self, now: u64)
        requires
            old(self).wf(),
        ensures
            final(self)@ == (FieldModel { squashing: keep_squashing(old(self)@.squashing, now), ..old(self)@ }),
            final(self).wf(),
    {
        let ghost m0 = self@;
        let mut kept: Vec<SquashingPuyo> = Vec::new();
        let mut i: usize = 0;
        while i < self.squashing.len()
            invariant
                self@ == m0,
                model_ok(m0),
                i <= m0.squashing.len(),
                kept@ == keep_squashing(m0.squashing.take(i as int), now),
                forall|k: int|
                    0 <= k < kept@.len() ==> (#[trigger] kept@[k]).col.0 < COLS && kept@[k].row.0 < TOTAL_ROWS,
            decreases m0.squashing.len() - i,
        {
            let l = self.squashing[i];
            proof {
                assert(m0.squashing.take(i + 1).drop_last() =~= m0.squashing.take(i as int));
                assert(m0.squashing.take(i + 1).last() == l);
            }
            if now < l.start_time || now - l.start_time < SQUASHING_ANIM_DURATION {
                kept.push(l);
            }
            i = i + 1;
        }
        assert(m0.squashing.take(i as int) =~= m0.squashing);
        self.squashing = kept;
    }

    /// Drops the blinks that are over.
    fn retain_blinking(&mut self, now: u64)
        requires
            old(self).wf(),
        ensures
            final(self)@ == (FieldModel { blinking: keep_blinking(old(self)@.blinking, now), ..old(self)@ }),
            final(self).wf(),
    {
        let ghost m0 = self@;
        let mut kept: Vec<BlinkingPuyo> = Vec::new();
        let mut i: usize = 0;
        while i < self.blinking.len()
            invariant
                self@ == m0,
                model_ok(m0),
                i <= m0.blinking.len(),
                kept@ == keep_blinking(m0.blinking.take(i as int), now),
                forall|k: int|
                    0 <= k < kept@.len() ==> (#[trigger] kept@[k]).col.0 < COLS && kept@[k].row.0 < ROWS,
            decreases m0.blinking.len() - i,
        {
            let l = self.blinking[i];
            proof {
                assert(m0.blinking.take(i + 1).drop_last() =~= m0.blinking.take(i as int));
                assert(m0.blinking.take(i + 1).last() == l);
            }
            if now < l.start_time || now - l.start_time < BLINK_DURATION {
                kept.push(l);
            }
            i = i + 1;
        }
        assert(m0.blinking.take(i as int) =~= m0.blinking);
        self.blinking = kept;
    }

    /// Marks every cell of the groups to blink and pop.
    fn mark_popping(&mut self, groups: &Vec<ChainGroup>, now: u64)
        requires
            old(self).wf(),
            groups_on_field(groups_view(groups@)),
        ensures
            final(self)@ == (FieldModel {
                blinking: old(self)@.blinking + blinks_of(groups_view(groups@), now),
                sparkling: old(self)@.sparkling + sparkles_of(groups_view(groups@)),
                ..old(self)@
            }),
            final(self).wf(),
    {
        let ghost m0 = self@;
        let ghost gs = groups_view(groups@);
        let mut gi: usize = 0;
        while gi < groups.len()
            invariant
                model_ok(m0),
                gs == groups_view(groups@),
                groups_on_field(gs),
                gi <= groups@.len(),
                self@ == (FieldModel {
                    blinking: m0.blinking + blinks_of(gs.take(gi as int), now),
                    sparkling: m0.sparkling + sparkles_of(gs.take(gi as int)),
                    ..m0
                }),
                self.wf(),
            decreases groups@.len() - gi,
        {
            let g = &groups[gi];
            let ghost gv = gs[gi as int];
            let ghost b0 = self@.blinking;
            let ghost s0 = self@.sparkling;
            assert(gv == g@);
            let mut k: usize = 0;
            while k < g.cells.len()
                invariant
                    model_ok(m0),
                    gs == groups_view(groups@),
                    groups_on_field(gs),
                    gi < groups@.len(),
                    gv == gs[gi as int],
                    gv == g@,
                    k <= gv.1.len(),
                    self@ == (FieldModel {
                        blinking: b0 + group_blinks(gv, now).take(k as int),
                        sparkling: s0 + group_sparkles(gv).take(k as int),
                        ..m0
                    }),
                    self.wf(),
                decreases gv.1.len() - k,
            {
                let (col, row) = g.cells[k];
                proof {
                    assert(gs[gi as int].1[k as int] == (col, row));
                    assert(col < COLS && row < ROWS);
                }
                let ghost pre_bl = self@.blinking;
                let ghost pre_sp = self@.sparkling;
                self.blinking.push(BlinkingPuyo { col: Col(col), row: VisibleRow(row), start_time: now });
                self.sparkling.push(SparklingPuyo { puyo: g.puyo, col: Col(col), row: VisibleRow(row) });
                proof {
                    assert(group_blinks(gv, now).take(k + 1) =~= group_blinks(gv, now).take(k as int).push(
                        BlinkingPuyo { col: Col(col), row: VisibleRow(row), start_time: now },
                    ));
                    assert(group_sparkles(gv).take(k + 1) =~= group_sparkles(gv).take(k as int).push(
                        SparklingPuyo { puyo: g.puyo, col: Col(col), row: VisibleRow(row) },
                    ));
                    assert(self@.blinking =~= b0 + group_blinks(gv, now).take(k + 1));
                    assert(self@.sparkling =~= s0 + group_sparkles(gv).take(k + 1));
                    assert forall|j: int| 0 <= j < self@.blinking.len() implies (#[trigger] self@.blinking[j]).col.0 < COLS
                        && self@.blinking[j].row.0 < ROWS by {
                        if j < self@.blinking.len() - 1 {
                            assert(self@.blinking[j] == pre_bl[j]);
                        }
                    }
                    assert forall|j: int| 0 <= j < self@.sparkling.len() implies (#[trigger] self@.sparkling[j]).col.0 < COLS
                        && self@.sparkling[j].row.0 < ROWS by {
                        if j < self@.sparkling.len() - 1 {
                            assert(self@.sparkling[j] == pre_sp[j]);
                        }
                    }
                }
                k = k + 1;
            }
            proof {
                assert(group_blinks(gv, now).take(k as int) =~= group_blinks(gv, now));
                assert(group_sparkles(gv).take(k as int) =~= group_sparkles(gv));
                assert(gs.take(gi + 1).drop_last() =~= gs.take(gi as int));
                assert(gs.take(gi + 1).last() == gv);
                assert(self@.blinking =~= m0.blinking + blinks_of(gs.take(gi + 1), now));
                assert(self@.sparkling =~= m0.sparkling + sparkles_of(gs.take(gi + 1)));
            }
            gi = gi + 1;
        }
        assert(gs.take(gi as int) =~= gs);
    }
}

/// The column and row sums of the popped cells.
fn chain_sums(groups: &Vec<ChainGroup>) -> (r: (u32, u32))
    requires
        groups_on_field(groups_view(groups@)),
        group_total(groups_view(groups@)) <= 72,
    ensures
        r.0 == groups_col_sum(groups_view(groups@)),
        r.1 == groups_row_sum(groups_view(groups@)),
{
    let ghost gs = groups_view(groups@);
    let mut sc: u32 = 0;
    let mut sr: u32 = 0;
    let mut gi: usize = 0;
    proof {
        lemma_groups_sums_bounded(gs);
    }
    while gi < groups.len()
        invariant
            gs == groups_view(groups@),
            groups_on_field(gs),
            group_total(gs) <= 72,
            gi <= groups@.len(),
            sc == groups_col_sum(gs.take(gi as int)),
            sr == groups_row_sum(gs.take(gi as int)),
            groups_col_sum(gs.take(gi as int)) <= 5 * group_total(gs.take(gi as int)),
            groups_row_sum(gs.take(gi as int)) <= 11 * group_total(gs.take(gi as int)),
            group_total(gs.take(gi as int)) <= group_total(gs),
        decreases groups@.len() - gi,
    {
        let g = &groups[gi];
        let ghost gv = gs[gi as int];
        assert(gv == g@);
        proof {
            assert(gs.take(gi + 1).drop_last() =~= gs.take(gi as int));
            assert(gs.take(gi + 1).last() == gv);
            lemma_total_prefix(gs, gi + 1);
            assert(groups_on_field(gs.take(gi + 1))) by {
                assert forall|a: int, k: int|
                    0 <= a < gs.take(gi + 1).len() && 0 <= k < gs.take(gi + 1)[a].1.len() implies (#[trigger] gs.take(gi + 1)[a].1[k]).0
                        < COLS && gs.take(gi + 1)[a].1[k].1 < ROWS by {
                    assert(gs.take(gi + 1)[a] == gs[a]);
                }
            }
            lemma_groups_sums_bounded(gs.take(gi + 1));
        }
        let mut k: usize = 0;
        proof {
            lemma_sum_prefix(gv.1, 0);
        }
        let ghost sc0 = sc;
        let ghost sr0 = sr;
        while k < g.cells.len()
            invariant
                gs == groups_view(groups@),
                groups_on_field(gs),
                gi < groups@.len(),
                gv == gs[gi as int],
                gv == g@,
                k <= gv.1.len(),
                sc == sc0 + col_sum(gv.1.take(k as int)),
                sr == sr0 + row_sum(gv.1.take(k as int)),
                sc0 + col_sum(gv.1) <= 360,
                sr0 + row_sum(gv.1) <= 792,
                col_sum(gv.1.take(k as int)) <= col_sum(gv.1),
                row_sum(gv.1.take(k as int)) <= row_sum(gv.1),
            decreases gv.1.len() - k,
        {
            let (col, row) = g.cells[k];
            proof {
                assert(gv.1.take(k + 1).drop_last() =~= gv.1.take(k as int));
                assert(gv.1.take(k + 1).last() == (col, row));
                lemma_sum_prefix(gv.1, k + 1);
            }
            sc = sc + col as u32;
            sr = sr + row as u32;
            k = k + 1;
        }
        assert(gv.1.take(k as int) =~= gv.1);
        gi = gi + 1;
    }
    assert(gs.take(gi as int) =~= gs);
    (sc, sr)
}

/// Prefix sums are at most the whole sums.
proof fn lemma_sum_prefix(cs: Seq<(usize, usize)>, n: int)
    requires
        0 <= n <= cs.len(),
    ensures
        col_sum(cs.take(n)) <= col_sum(cs),
        row_sum(cs.take(n)) <= row_sum(cs),
    decreases cs.len() - n,
{
    if n < cs.len() {
        lemma_sum_prefix(cs, n + 1);
        assert(cs.take(n + 1).drop_last() =~= cs.take(n));
    } else {
        assert(cs.take(n) =~= cs);
    }
}

/// Prefix totals are at most the whole total.
proof fn lemma_total_prefix(gs: Seq<Group>, n: int)
    requires
        0 <= n <= gs.len(),
    ensures
        group_total(gs.take(n)) <= group_total(gs),
    decreases gs.len() - n,
{
    if n < gs.len() {
        lemma_total_prefix(gs, n + 1);
        assert(gs.take(n + 1).drop_last() =~= gs.take(n));
    } else {
        assert(gs.take(n) =~= gs);
    }
}


/// Takes the popping puyos off the field and reports each.
pub open spec fn pop_all(cells: Cells, events: Seq<GameEvent>, sps: Seq<SparklingPuyo>) -> (Cells, Seq<GameEvent>)
    decreases sps.len(),
{
    if sps.len() == 0 {
        (cells, events)
    } else {
        let (c1, e1) = pop_all(cells, events, sps.drop_last());
        let sp = sps.last();
        (
            c1.update(cell_index(sp.col.0 as int, sp.row.0 + GHOST_ROWS), None),
            e1.push(GameEvent::Popped { puyo: sp.puyo, col: sp.col.0, row: sp.row.0 }),
        )
    }
}

/// One frame of blinking: once every blink is over the groups pop.
pub open spec fn blinking_spec(m: FieldModel, ctx: PlayContext, now: u64) -> (FieldModel, PlayContext) {
    let bl = keep_blinking(m.blinking, now);
    if bl.len() > 0 {
        (FieldModel { blinking: bl, ..m }, ctx)
    } else {
        let (cells, events) = pop_all(m.cells, m.events, m.sparkling);
        (
            FieldModel { blinking: bl, sparkling: seq![], cells, events, ..m },
            PlayContext { sparkle_start: now, play_state: PlayState::Sparkling, ..ctx },
        )
    }
}

/// One frame after a pop: once the wait is over, what floats starts to
/// fall; if nothing floats, everything has come to rest.
pub open spec fn sparkling_spec(m: FieldModel, ctx: PlayContext, now: u64) -> (FieldModel, PlayContext) {
    if now - ctx.sparkle_start >= SPARKLE_WAIT {
        let fl = floating_upto(m.cells, COLS as int);
        let m1 = FieldModel { cells: without_floating(m.cells), ..m };
        if fl.len() == 0 {
            (m1, PlayContext { play_state: PlayState::Landed, ..ctx })
        } else {
            (dropped(m1, fl), PlayContext { play_state: PlayState::Dropping, ..ctx })
        }
    } else {
        (m, ctx)
    }
}

/// The next pair enters play at the spawn cell and a new pair is dealt.
pub open spec fn spawned(m: FieldModel) -> FieldModel {
    let (p, st) = deal(m.palette, m.rng);
    FieldModel {
        spawn_count: (m.spawn_count + 1) as u32,
        pair: m.next,
        next: m.next_next,
        next_next: p,
        rng: st,
        position: spawn_position(),
        display_col: 2000,
        display_row: 2000,
        display_angle: -1000i64,
        rotation_target: -1000i64,
        ..m
    }
}

/// A fresh field holds the first three pairs of its seed's sequence, the
/// pair in play first, and its generator stands after them.
pub proof fn lemma_fresh_field_pairs(num_colors: nat, seed: u64)
    ensures
        fresh_field(num_colors, seed).pair == pair_sequence(num_colors, seed, 0),
        fresh_field(num_colors, seed).next == pair_sequence(num_colors, seed, 1),
        fresh_field(num_colors, seed).next_next == pair_sequence(num_colors, seed, 2),
        fresh_field(num_colors, seed).palette == factory_colors(num_colors, seed),
        fresh_field(num_colors, seed).rng == state_after(
            factory_colors(num_colors, seed),
            factory_state(seed),
            3,
        ),
{
    let colors = factory_colors(num_colors, seed);
    let st0 = factory_state(seed);
    assert(state_after(colors, st0, 0) == st0);
    assert(state_after(colors, st0, 1) == deal(colors, st0).1);
    assert(state_after(colors, st0, 2) == deal(colors, state_after(colors, st0, 1)).1);
    assert(state_after(colors, st0, 3) == deal(colors, state_after(colors, st0, 2)).1);
}

/// A spawn moves a game along its seed's sequence: when the waiting pairs
/// are the `k+1`-th and `k+2`-th of the sequence, the `k+1`-th comes into
/// play and the `k+3`-th is dealt.
pub proof fn lemma_spawn_follows_seed(num_colors: nat, seed: u64, m: FieldModel, k: nat)
    requires
        m.palette == factory_colors(num_colors, seed),
        m.next == pair_sequence(num_colors, seed, k + 1),
        m.next_next == pair_sequence(num_colors, seed, k + 2),
        m.rng == state_after(m.palette, factory_state(seed), k + 3),
    ensures
        spawned(m).pair == pair_sequence(num_colors, seed, k + 1),
        spawned(m).next == pair_sequence(num_colors, seed, k + 2),
        spawned(m).next_next == pair_sequence(num_colors, seed, k + 3),
        spawned(m).rng == state_after(m.palette, factory_state(seed), k + 4),
        spawned(m).palette == m.palette,
{
    let colors = factory_colors(num_colors, seed);
    let st0 = factory_state(seed);
    assert(state_after(colors, st0, k + 4) == deal(colors, state_after(colors, st0, k + 3)).1);
}

/// One frame at rest: the chain count resets; the game is over if the spawn
/// cell is taken, else the next pair enters play.
pub open spec fn landed_spec(m: FieldModel, ctx: PlayContext, now: u64) -> (FieldModel, PlayContext) {
    let m1 = FieldModel { chain_count: 0, ..m };
    if cell(m.cells, 2, GHOST_ROWS as int) is Some {
        (FieldModel { is_game_over: true, events: m.events.push(GameEvent::GameOver), ..m1 }, ctx)
    } else {
        (
            spawned(m1),
            PlayContext {
                play_state: PlayState::Active,
                last_drop_time: now,
                move_repeating: false,
                last_rotation_press: None,
                ..ctx
            },
        )
    }
}

/// One frame of play, by phase.
pub open spec fn tick_spec(m: FieldModel, ctx: PlayContext, now: u64, input: GameInput) -> (FieldModel, PlayContext) {
    match ctx.play_state {
        PlayState::Active => active_spec(m, ctx, now, input),
        PlayState::Settling => settling_spec(m, ctx, now, input),
        PlayState::Dropping => dropping_spec(m, ctx, now),
        PlayState::Squashing => squashing_spec(m, ctx, now),
        PlayState::Blinking => blinking_spec(m, ctx, now),
        PlayState::Sparkling => sparkling_spec(m, ctx, now),
        PlayState::Landed => landed_spec(m, ctx, now),
    }
}

/// Whether every landing squash is over at `now`.
fn squash_over(s: &Vec<SquashingPuyo>, now: u64) -> (r: bool)
    ensures
        r == (keep_squashing(s@, now).len() == 0),
{
    let mut i: usize = 0;
    while i < s.len()
        invariant
            i <= s@.len(),
            keep_squashing(s@.take(i as int), now).len() == 0,
        decreases s@.len() - i,
    {
        proof {
            assert(s@.take(i + 1).drop_last() =~= s@.take(i as int));
            assert(s@.take(i + 1).last() == s@[i as int]);
        }
        let l = s[i];
        if now < l.start_time || now - l.start_time < SQUASHING_ANIM_DURATION {
            proof {
                lemma_keep_squashing_prefix(s@, now, i + 1);
            }
            return false;
        }
        i = i + 1;
    }
    assert(s@.take(i as int) =~= s@);
    true
}

/// What a prefix keeps, the whole sequence keeps at least as much of.
proof fn lemma_keep_squashing_prefix(s: Seq<SquashingPuyo>, now: u64, n: int)
    requires
        0 <= n <= s.len(),
    ensures
        keep_squashing(s.take(n), now).len() <= keep_squashing(s, now).len(),
    decreases s.len() - n,
{
    if n < s.len() {
        lemma_keep_squashing_prefix(s, now, n + 1);
        assert(s.take(n + 1).drop_last() =~= s.take(n));
    } else {
        assert(s.take(n) =~= s);
    }
}

/// A frame that pops groups: the squashing is over and groups of four or
/// more stand on the field.
pub open spec fn pops_now(m: FieldModel, ctx: PlayContext, now: u64) -> bool {
    &&& ctx.play_state == PlayState::Squashing
    &&& keep_squashing(m.squashing, now).len() == 0
    &&& chain_groups(m.cells).len() > 0
}

/// A frame that brings the next pair into play: all is at rest and the
/// spawn cell is free.
pub open spec fn spawns_now(m: FieldModel, ctx: PlayContext) -> bool {
    &&& ctx.play_state == PlayState::Landed
    &&& cell(m.cells, 2, GHOST_ROWS as int) is None
}

/// The frames that run without overflow or a pair leaving the field: a
/// frame that pops has room for one more chain step and its points, a frame
/// that spawns has room for one more spawn, and no frame locks the pair
/// with its child above the top.
pub open spec fn tick_allowed(m: FieldModel, ctx: PlayContext, now: u64, input: GameInput) -> bool {
    &&& pops_now(m, ctx, now) ==> m.chain_count < u32::MAX && m.score + score_gain_of(
        m.chain_count + 1,
        chain_groups(m.cells),
    ) <= u32::MAX
    &&& spawns_now(m, ctx) ==> m.spawn_count < u32::MAX
    &&& !lock_leaves_field(m, ctx, now, input)
}

/// A frame may run whenever the counters have room for the most it can add:
/// one more chain step with at most 720 times that step's chain power plus
/// 204 points, and one more spawn; and it does not lock the pair with its
/// child above the top.
pub proof fn lemma_room_for_frame(m: FieldModel, ctx: PlayContext, now: u64, input: GameInput)
    requires
        m.chain_count < u32::MAX,
        m.score + 720 * (chain_power_of(m.chain_count + 1) + 204) <= u32::MAX,
        m.spawn_count < u32::MAX,
        !lock_leaves_field(m, ctx, now, input),
    ensures
        tick_allowed(m, ctx, now, input),
{
    crate::regions::lemma_groups_are_regions(m.cells);
    crate::scoring::lemma_gain_at_most(m.chain_count + 1, chain_groups(m.cells));
}

/// With at least one puyo popped, the points bound the multiplier and the
/// chain power.
proof fn lemma_gain_bounds(chain: int, groups: Seq<Group>)
    requires
        chain >= 0,
        group_total(groups) >= 1,
    ensures
        chain_power_of(chain) + color_bonus_of(groups) + group_bonus_of(groups) <= multiplier_of(chain, groups),
        multiplier_of(chain, groups) <= score_gain_of(chain, groups),
{
    let t = group_total(groups);
    let mm = multiplier_of(chain, groups);
    assert(t * 10 * mm >= mm) by (nonlinear_arith)
        requires
            t >= 1,
            mm >= 1,
    ;
}

impl GameField {
    /// The field is within its bounds and consistent with the phase of play.
    pub open spec fn consistent(&self, ctx: &PlayContext) -> bool {
        &&& self.wf()
        &&& phase_ok(self@, ctx.play_state)
    }

    fn tick_squashing(&mut self, ctx: &mut PlayContext, now: u64)
        requires
            old(self).wf(),
            old(ctx).play_state == PlayState::Squashing,
            phase_ok(old(self)@, PlayState::Squashing),
            pops_now(old(self)@, *old(ctx), now) ==> old(self)@.chain_count < u32::MAX
                && old(self)@.score + score_gain_of(
                old(self)@.chain_count + 1,
                chain_groups(old(self)@.cells),
            ) <= u32::MAX,
        ensures
            (final(self)@, *final(ctx)) == squashing_spec(old(self)@, *old(ctx), now),
            final(self).wf(),
            phase_ok(final(self)@, final(ctx).play_state),
            final(self)@.score >= old(self)@.score,
    {
        self.retain_squashing(now);
        if self.squashing.len() == 0 {
            let groups = find_chain_groups(&self.field);
            self.mark_popping(&groups, now);
            if groups.len() == 0 {
                self.chain_count = 0;
                ctx.play_state = PlayState::Landed;
            } else {
                self.chain_count = self.chain_count + 1;
                proof {
                    lemma_gain_bounds(self.chain_count as int, groups_view(groups@));
                }
                let gain = score_gain(self.chain_count, &groups);
                self.score = self.score + gain;
                let (col_sum, row_sum) = chain_sums(&groups);
                let cells = crate::scoring::cleared_count(&groups);
                self.events.push(
                    GameEvent::ChainPop { count: self.chain_count, col_sum, row_sum, cells },
                );
                ctx.play_state = PlayState::Blinking;
            }
        }
    }

    fn tick_blinking(&mut self, ctx: &mut PlayContext, now: u64)
        requires
            old(self).wf(),
            old(ctx).play_state == PlayState::Blinking,
            phase_ok(old(self)@, PlayState::Blinking),
        ensures
            (final(self)@, *final(ctx)) == blinking_spec(old(self)@, *old(ctx), now),
            final(self).wf(),
            phase_ok(final(self)@, final(ctx).play_state),
    {
        self.retain_blinking(now);
        if self.blinking.len() == 0 {
            let ghost m0 = self@;
            let mut sparkling: Vec<SparklingPuyo> = Vec::new();
            std::mem::swap(&mut sparkling, &mut self.sparkling);
            let mut i: usize = 0;
            while i < sparkling.len()
                invariant
                    model_ok(m0),
                    sparkling@ == m0.sparkling,
                    i <= sparkling@.len(),
                    (self.field@, self.events@) == pop_all(m0.cells, m0.events, m0.sparkling.take(i as int)),
                    self@ == (FieldModel {
                        sparkling: seq![],
                        cells: self.field@,
                        events: self.events@,
                        ..m0
                    }),
                    cells_ok(self.field@),
                decreases sparkling@.len() - i,
            {
                let sp = sparkling[i];
                proof {
                    assert(m0.sparkling.take(i + 1).drop_last() =~= m0.sparkling.take(i as int));
                    assert(m0.sparkling.take(i + 1).last() == sp);
                }
                self.field.set((sp.row.index() + GHOST_ROWS) * COLS + sp.col.index(), None);
                self.events.push(
                    GameEvent::Popped { puyo: sp.puyo, col: sp.col.index(), row: sp.row.index() },
                );
                i = i + 1;
            }
            assert(m0.sparkling.take(i as int) =~= m0.sparkling);
            ctx.sparkle_start = now;
            ctx.play_state = PlayState::Sparkling;
        }
    }

    fn tick_sparkling(&mut self, ctx: &mut PlayContext, now: u64)
        requires
            old(self).wf(),
            old(ctx).play_state == PlayState::Sparkling,
            phase_ok(old(self)@, PlayState::Sparkling),
        ensures
            (final(self)@, *final(ctx)) == sparkling_spec(old(self)@, *old(ctx), now),
            final(self).wf(),
            phase_ok(final(self)@, final(ctx).play_state),
    {
        if now >= ctx.sparkle_start && now - ctx.sparkle_start >= SPARKLE_WAIT {
            proof {
                lemma_collect_ready(self@.cells);
            }
            let ghost m0 = self@;
            let floating = collect_floating(&mut self.field);
            assert(self@ == (FieldModel { cells: without_floating(m0.cells), ..m0 }));
            if floating.len() == 0 {
                ctx.play_state = PlayState::Landed;
            } else {
                let ghost m1 = self@;
                start_dropping(&mut self.field, &mut self.events, &mut self.dropping, floating);
                assert(self@ == dropped(m1, floating_upto(m0.cells, COLS as int)));
                ctx.play_state = PlayState::Dropping;
            }
        }
    }

    /// The next pair enters play.
    fn spawn_next(&mut self)
        requires
            old(self).wf(),
            old(self)@.spawn_count < u32::MAX,
        ensures
            final(self)@ == spawned(old(self)@),
            final(self).wf(),
    {
        self.spawn_count = self.spawn_count + 1;
        self.puyopuyo = self.next;
        self.next = self.next_next;
        self.next_next = self.factory.create();
        self.position = initial_position();
        self.display_col = 2000;
        self.display_row = 2000;
        self.display_angle = -QUARTER_TURN;
        self.rotation_target = -QUARTER_TURN;
    }

    fn tick_landed(&mut self, ctx: &mut PlayContext, now: u64)
        requires
            old(self).wf(),
            old(ctx).play_state == PlayState::Landed,
            phase_ok(old(self)@, PlayState::Landed),
            spawns_now(old(self)@, *old(ctx)) ==> old(self)@.spawn_count < u32::MAX,
        ensures
            (final(self)@, *final(ctx)) == landed_spec(old(self)@, *old(ctx), now),
            final(self).wf(),
            phase_ok(final(self)@, final(ctx).play_state),
    {
        let ghost m0 = self@;
        self.chain_count = 0;
        assert(self@ == (FieldModel { chain_count: 0, ..m0 }));
        if self.field[GHOST_ROWS * COLS + 2].is_some() {
            self.is_game_over = true;
            self.events.push(GameEvent::GameOver);
            assert(self@ == (FieldModel { chain_count: 0, is_game_over: true, events: m0.events.push(GameEvent::GameOver), ..m0 }));
            return;
        }
        proof {
            crate::board::lemma_settled_column(self@.cells, 2);
        }
        self.spawn_next();
        ctx.play_state = PlayState::Active;
        ctx.last_drop_time = now;
        ctx.move_repeating = false;
        ctx.last_rotation_press = None;
    }

    /// One frame of play at time `now` (in milliseconds) with the player's
    /// keys: the phase of play decides what happens.
    pub fn tick(&mut self, ctx: &mut PlayContext, now: u64, input: GameInput)
        requires
            old(self).consistent(old(ctx)),
            tick_allowed(old(self)@, *old(ctx), now, input),
        ensures
            (final(self)@, *final(ctx)) == tick_spec(old(self)@, *old(ctx), now, input),
            final(self).consistent(final(ctx)),
            final(self)@.score >= old(self)@.score,
            old(self)@.is_game_over ==> final(self)@.is_game_over,
            old(self)@.spawn_count <= final(self)@.spawn_count <= old(self)@.spawn_count + 1,
    {
        match ctx.play_state {
            PlayState::Active => self.tick_active(ctx, now, input),
            PlayState::Settling => self.tick_settling(ctx, now, input),
            PlayState::Dropping => self.tick_dropping(ctx, now),
            PlayState::Squashing => self.tick_squashing(ctx, now),
            PlayState::Blinking => self.tick_blinking(ctx, now),
            PlayState::Sparkling => self.tick_sparkling(ctx, now),
            PlayState::Landed => self.tick_landed(ctx, now),
        }
    }
}


/// A frame acts on the held move keys: on a fresh press, or once the key
/// has been held past the repeat delay (past the shorter repeat interval
/// once it repeats).
pub open spec fn keys_act(c: Control, now: u64, input: GameInput) -> bool {
    ||| input.left_just || input.right_just || input.down_just
    ||| now - c.last_move_time > (if c.move_repeating {
        MOVE_INTERVAL
    } else {
        MOVE_REPEAT_DELAY
    })
}

/// The pair's axis one column or row away, if that stays on the field.
pub open spec fn shifted(p: Position, dc: int, dr: int) -> Position {
    Position { col: (p.col + dc) as usize, row: (p.row + dr) as usize }
}

/// The move keys move the pair one cell when it fits there and leave it
/// where it is otherwise: right alone moves the axis one column right, left
/// alone one column left, down alone one row down, whenever the frame acts
/// on the keys; a frame that does not act, or holds no key, leaves the pair
/// in place; moves never turn the pair.
pub proof fn lemma_move_keys(cells: Cells, c: Control, now: u64, input: GameInput)
    ensures
        ({
            let c2 = move_keys_spec(cells, c, now, input);
            let p = c.position;
            let o = c.orientation;
            let held = input.left || input.right || input.down;
            &&& c2.orientation == o
            &&& c2.rotation_target == c.rotation_target
            &&& !held || !keys_act(c, now, input) ==> c2.position == p
            &&& keys_act(c, now, input) && input.right && !input.left && !input.down ==> c2.position == (
            if can_move_spec(cells, p, o, 1, 0) {
                shifted(p, 1, 0)
            } else {
                p
            })
            &&& keys_act(c, now, input) && input.left && !input.right && !input.down ==> c2.position == (
            if can_move_spec(cells, p, o, -1, 0) {
                shifted(p, -1, 0)
            } else {
                p
            })
            &&& keys_act(c, now, input) && input.down && !input.left && !input.right ==> c2.position == (
            if can_move_spec(cells, p, o, 0, 1) {
                shifted(p, 0, 1)
            } else {
                p
            })
            &&& held && keys_act(c, now, input) ==> c2.last_move_time == now
        }),
{
}

/// In play, a frame with no automatic fall and no turn moves the pair by
/// its move keys: a fresh press of right alone puts the axis one column
/// right when the pair fits there, and leaves it otherwise.
pub proof fn lemma_right_press_moves_pair(m: FieldModel, ctx: PlayContext, now: u64, input: GameInput)
    requires
        ctx.play_state == PlayState::Active,
        now - ctx.last_drop_time <= DROP_INTERVAL,
        !input.rotate_left,
        !input.rotate_right,
        input.right,
        input.right_just,
        !input.left,
        !input.down,
    ensures
        tick_spec(m, ctx, now, input).0.position == (if can_move_spec(
            m.cells,
            m.position,
            m.pair.orientation,
            1,
            0,
        ) {
            shifted(m.position, 1, 0)
        } else {
            m.position
        }),
{
    lemma_move_keys(m.cells, control_of(m, ctx), now, input);
}

/// How a frame moves the chain counter and the score. A frame that pops
/// groups (its squash over and groups of four or more on the field) counts
/// one more chain step, and scores ten points per popped puyo times the
/// larger of one and the step's chain power plus colour bonus plus group
/// bonus, the step numbered by the counter after the count. A frame at rest,
/// or one that finds no group once the squash is over, ends the chain: the
/// counter goes back to zero and the score stays. Every other frame (play,
/// falling, squashing, blinking, bursting) leaves both alone; so within a
/// chain, from a lock to the next rest, the `k`-th popping step is numbered
/// `k` and scores with chain power of `k`.
pub proof fn lemma_chain_counter(m: FieldModel, ctx: PlayContext, now: u64, input: GameInput)
    requires
        tick_allowed(m, ctx, now, input),
    ensures
        ({
            let m2 = tick_spec(m, ctx, now, input).0;
            let gs = chain_groups(m.cells);
            let bonus = chain_power_of(m.chain_count + 1) + color_bonus_of(gs) + group_bonus_of(gs);
            let ends = ctx.play_state == PlayState::Landed || (ctx.play_state == PlayState::Squashing
                && keep_squashing(m.squashing, now).len() == 0 && gs.len() == 0);
            &&& pops_now(m, ctx, now) ==> m2.chain_count == m.chain_count + 1 && m2.score == m.score
                + group_total(gs) * 10 * (if bonus < 1 {
                1
            } else {
                bonus
            })
            &&& ends ==> m2.chain_count == 0 && m2.score == m.score
            &&& !pops_now(m, ctx, now) && !ends ==> m2.chain_count == m.chain_count && m2.score
                == m.score
        }),
{
    match ctx.play_state {
        PlayState::Active => {
            let c0 = control_of(m, ctx);
            let fall = now - ctx.last_drop_time > DROP_INTERVAL;
            let c1 = if fall { moved(m.cells, c0, 0, 1) } else { c0 };
            let ctx0 = if fall { PlayContext { last_drop_time: now, ..ctx } } else { ctx };
            let c2 = keys_spec(m.cells, c1, now, input);
            let m2 = with_control(m, ctx0, c2).0;
            assert(m2.chain_count == m.chain_count && m2.score == m.score);
            assert(tick_spec(m, ctx, now, input).0 == m2);
        },
        PlayState::Settling => {
            let c1 = settle_control(m, ctx, now, input);
            let ctx0 = PlayContext { settling_start: settle_start(m, ctx, now, input), ..ctx };
            let m1 = with_control(m, ctx0, c1).0;
            assert(m1.chain_count == m.chain_count && m1.score == m.score);
            assert(dropped(m1, pair_falling(m1)).chain_count == m.chain_count);
            assert(dropped(m1, pair_falling(m1)).score == m.score);
        },
        _ => {},
    }
}

/// A visible cell holds a popping puyo of `sps`.
pub open spec fn pops_at(sps: Seq<SparklingPuyo>, col: int, vrow: int) -> bool {
    exists|j: int| 0 <= j < sps.len() && (#[trigger] sps[j]).col.0 == col && sps[j].row.0 == vrow
}

/// Taking popping puyos off clears exactly their cells.
proof fn lemma_pop_cells(cells: Cells, events: Seq<GameEvent>, sps: Seq<SparklingPuyo>)
    requires
        cells_ok(cells),
        forall|j: int| 0 <= j < sps.len() ==> (#[trigger] sps[j]).col.0 < COLS && sps[j].row.0 < ROWS,
    ensures
        cells_ok(pop_all(cells, events, sps).0),
        forall|c: int, r: int|
            0 <= c < COLS && 0 <= r < TOTAL_ROWS ==> #[trigger] cell(pop_all(cells, events, sps).0, c, r)
                == if r >= GHOST_ROWS && pops_at(sps, c, r - GHOST_ROWS) {
                None
            } else {
                cell(cells, c, r)
            },
    decreases sps.len(),
{
    if sps.len() > 0 {
        let prev = sps.drop_last();
        lemma_pop_cells(cells, events, prev);
        let sp = sps.last();
        let c1 = pop_all(cells, events, prev).0;
        assert forall|c: int, r: int| 0 <= c < COLS && 0 <= r < TOTAL_ROWS implies #[trigger] cell(
            pop_all(cells, events, sps).0,
            c,
            r,
        ) == if r >= GHOST_ROWS && pops_at(sps, c, r - GHOST_ROWS) {
            None
        } else {
            cell(cells, c, r)
        } by {
            assert(cell(c1, c, r) == if r >= GHOST_ROWS && pops_at(prev, c, r - GHOST_ROWS) {
                None
            } else {
                cell(cells, c, r)
            });
            let here = c == sp.col.0 && r == sp.row.0 + GHOST_ROWS;
            assert(cell_index(c, r) == cell_index(sp.col.0 as int, sp.row.0 + GHOST_ROWS) <==> here);
            if here {
                assert(sps[sps.len() - 1] == sp);
            } else if r >= GHOST_ROWS && pops_at(sps, c, r - GHOST_ROWS) {
                let j = choose|j: int| 0 <= j < sps.len() && (#[trigger] sps[j]).col.0 == c && sps[j].row.0
                    == r - GHOST_ROWS;
                assert(j < sps.len() - 1);
                assert(prev[j] == sps[j]);
            } else if r >= GHOST_ROWS && pops_at(prev, c, r - GHOST_ROWS) {
                let j = choose|j: int| 0 <= j < prev.len() && (#[trigger] prev[j]).col.0 == c && prev[j].row.0
                    == r - GHOST_ROWS;
                assert(sps[j] == prev[j]);
            }
        }
    }
}

/// Popping takes the puyos off the field: once the blinking is over, every
/// cell of a popping puyo is empty, every other cell keeps its content, and
/// nothing is left to pop.
pub proof fn lemma_pop_empties_cells(m: FieldModel, ctx: PlayContext, now: u64, input: GameInput)
    requires
        model_ok(m),
        ctx.play_state == PlayState::Blinking,
        keep_blinking(m.blinking, now).len() == 0,
    ensures
        ({
            let m2 = tick_spec(m, ctx, now, input).0;
            &&& m2.cells.len() == m.cells.len()
            &&& forall|j: int|
                0 <= j < m.sparkling.len() ==> cell(
                    m2.cells,
                    (#[trigger] m.sparkling[j]).col.0 as int,
                    m.sparkling[j].row.0 + GHOST_ROWS,
                ) is None
            &&& forall|c: int, r: int|
                0 <= c < COLS && 0 <= r < TOTAL_ROWS && !(r >= GHOST_ROWS && pops_at(
                    m.sparkling,
                    c,
                    r - GHOST_ROWS,
                )) ==> #[trigger] cell(m2.cells, c, r) == cell(m.cells, c, r)
            &&& m2.sparkling.len() == 0
        }),
{
    lemma_pop_cells(m.cells, m.events, m.sparkling);
    let m2 = tick_spec(m, ctx, now, input).0;
    assert forall|j: int| 0 <= j < m.sparkling.len() implies cell(
        m2.cells,
        (#[trigger] m.sparkling[j]).col.0 as int,
        m.sparkling[j].row.0 + GHOST_ROWS,
    ) is None by {
        let sp = m.sparkling[j];
        assert(pops_at(m.sparkling, sp.col.0 as int, sp.row.0 as int));
        assert(cell(m2.cells, sp.col.0 as int, sp.row.0 + GHOST_ROWS) == if sp.row.0 + GHOST_ROWS >= GHOST_ROWS
            && pops_at(m.sparkling, sp.col.0 as int, sp.row.0 + GHOST_ROWS - GHOST_ROWS) {
            None
        } else {
            cell(m.cells, sp.col.0 as int, sp.row.0 + GHOST_ROWS)
        });
    }
}

/// The time a frame advances by: the time since the last one, at most
/// [`MAX_FRAME`], never negative.
pub open spec fn frame_dt(now: u64, last: u64) -> int {
    if now <= last {
        0
    } else if now - last > MAX_FRAME {
        MAX_FRAME as int
    } else {
        now - last
    }
}

/// The share (in thousandths) by which a display catches up in one frame.
pub open spec fn chase_factor(rate: int, dt: int) -> int {
    if rate * dt > 1000 {
        1000
    } else {
        rate * dt
    }
}

/// A displayed value moved the given share of the way to its target.
pub open spec fn approach(d: int, t: int, f: int) -> int {
    if t >= d {
        d + (t - d) * f / 1000
    } else {
        d - (d - t) * f / 1000
    }
}

/// A sum capped at the largest `u64`.
pub open spec fn sat_u64(x: int) -> u64 {
    if x > u64::MAX {
        u64::MAX
    } else {
        x as u64
    }
}

/// A dropping puyo after `dt` milliseconds of free fall: gravity speeds it
/// up, then it moves by its new speed.
pub open spec fn fall_step(d: DroppingPuyo, dt: int) -> DroppingPuyo {
    let v = sat_u64(d.velocity + DROP_GRAVITY * dt);
    DroppingPuyo { velocity: v, row: sat_u64(d.row + v * dt), ..d }
}

/// One frame of display: while the pair is in play its display catches up
/// with its place and angle; dropping puyos fall.
pub open spec fn update_spec(m: FieldModel, ctx: PlayContext, now: u64) -> (FieldModel, PlayContext) {
    let dt = frame_dt(now, ctx.last_frame_time);
    let m1 = if ctx.play_state == PlayState::Active || ctx.play_state == PlayState::Settling {
        let f = chase_factor(DISPLAY_CHASE_RATE as int, dt);
        let rf = chase_factor(ROTATION_CHASE_RATE as int, dt);
        FieldModel {
            display_col: approach(m.display_col as int, m.position.col * 1000, f) as i64,
            display_row: approach(m.display_row as int, m.position.row * 1000, f) as i64,
            display_angle: approach(m.display_angle as int, m.rotation_target as int, rf) as i64,
            ..m
        }
    } else {
        m
    };
    (
        FieldModel { dropping: m1.dropping.map_values(|d: DroppingPuyo| fall_step(d, dt)), ..m1 },
        PlayContext { last_frame_time: now, ..ctx },
    )
}

/// A value moved part of the way to its target stays between the two.
proof fn lemma_approach_between(d: int, t: int, f: int)
    requires
        0 <= f <= 1000,
    ensures
        d <= t ==> d <= approach(d, t, f) <= t,
        t <= d ==> t <= approach(d, t, f) <= d,
{
    if t >= d {
        assert(0 <= (t - d) * f / 1000 <= t - d) by (nonlinear_arith)
            requires
                t >= d,
                0 <= f <= 1000,
        ;
    } else {
        assert(0 <= (d - t) * f / 1000 <= d - t) by (nonlinear_arith)
            requires
                d > t,
                0 <= f <= 1000,
        ;
    }
}

/// `x` lies between `from` and `to`.
pub open spec fn between(from: int, to: int, x: int) -> bool {
    &&& from <= to ==> from <= x <= to
    &&& to <= from ==> to <= x <= from
}

/// The pair's display never overshoots and never turns back: in a frame of
/// play its displayed column, row and angle each end between where they were
/// and their targets; and a turn to the right never lowers the target angle,
/// a turn to the left never raises it.
pub proof fn lemma_display_chases_target(
    m: FieldModel,
    ctx: PlayContext,
    now: u64,
    rotation: Rotation,
    quick: bool,
)
    requires
        model_ok(m),
        ctx.play_state == PlayState::Active || ctx.play_state == PlayState::Settling,
    ensures
        between(
            m.display_col as int,
            m.position.col * 1000,
            update_spec(m, ctx, now).0.display_col as int,
        ),
        between(
            m.display_row as int,
            m.position.row * 1000,
            update_spec(m, ctx, now).0.display_row as int,
        ),
        between(
            m.display_angle as int,
            m.rotation_target as int,
            update_spec(m, ctx, now).0.display_angle as int,
        ),
        rotation == Rotation::Right ==> turned(m.rotation_target, rotation, quick) >= m.rotation_target,
        rotation == Rotation::Left ==> turned(m.rotation_target, rotation, quick) <= m.rotation_target,
{
    let dt = frame_dt(now, ctx.last_frame_time);
    let f = chase_factor(DISPLAY_CHASE_RATE as int, dt);
    let rf = chase_factor(ROTATION_CHASE_RATE as int, dt);
    assert(0 <= dt);
    assert(0 <= f <= 1000);
    assert(0 <= rf <= 1000);
    lemma_approach_between(m.display_col as int, m.position.col * 1000, f);
    lemma_approach_between(m.display_row as int, m.position.row * 1000, f);
    lemma_approach_between(m.display_angle as int, m.rotation_target as int, rf);
}

/// Moves a displayed value part of the way to its target.
fn approach_exec(d: i64, t: i64, f: u64) -> (r: i64)
    requires
        f <= 1000,
    ensures
        r == approach(d as int, t as int, f as int),
{
    proof {
        lemma_approach_between(d as int, t as int, f as int);
    }
    let dd = d as i128;
    let tt = t as i128;
    let ff = f as i128;
    if tt >= dd {
        assert((tt - dd) * ff <= (tt - dd) * 1000) by (nonlinear_arith)
            requires
                tt >= dd,
                ff <= 1000,
        ;
        assert(0 <= (tt - dd) * ff) by (nonlinear_arith)
            requires
                tt >= dd,
                ff >= 0,
        ;
        (dd + (tt - dd) * ff / 1000) as i64
    } else {
        assert((dd - tt) * ff <= (dd - tt) * 1000) by (nonlinear_arith)
            requires
                dd > tt,
                ff <= 1000,
        ;
        assert(0 <= (dd - tt) * ff) by (nonlinear_arith)
            requires
                dd > tt,
                ff >= 0,
        ;
        (dd - (dd - tt) * ff / 1000) as i64
    }
}

/// A sum capped at the largest `u64`.
fn sat_add(a: u64, b: u64) -> (r: u64)
    ensures
        r == sat_u64(a + b),
{
    a.saturating_add(b)
}

/// A product capped at the largest `u64`.
fn sat_mul(a: u64, b: u64) -> (r: u64)
    requires
        b <= MAX_FRAME,
    ensures
        r == sat_u64(a * b),
{
    if b == 0 {
        0
    } else if a > u64::MAX / b {
        assert(a * b > u64::MAX) by (nonlinear_arith)
            requires
                b > 0,
                a > u64::MAX / b,
        ;
        u64::MAX
    } else {
        assert(a * b <= u64::MAX) by (nonlinear_arith)
            requires
                b > 0,
                a <= u64::MAX / b,
        ;
        a * b
    }
}

/// Advancing the free fall keeps the dropping puyos consistent with the
/// field: their columns and landing rows do not change.
proof fn lemma_fall_keeps_consistent(cells: Cells, ds: Seq<DroppingPuyo>, dt: int)
    requires
        drop_consistent(cells, ds),
    ensures
        drop_consistent(cells, ds.map_values(|d: DroppingPuyo| fall_step(d, dt))),
{
    let ds2 = ds.map_values(|d: DroppingPuyo| fall_step(d, dt));
    assert forall|c: int, r: int| 0 <= c < COLS && 0 <= r < TOTAL_ROWS implies #[trigger] stays_free(
        cells,
        ds2,
        c,
        r,
    ) == stays_free(cells, ds, c, r) by {
        if exists|j: int| 0 <= j < ds.len() && (#[trigger] ds[j]).col.0 == c && ds[j].target_row == r {
            let j = choose|j: int| 0 <= j < ds.len() && (#[trigger] ds[j]).col.0 == c && ds[j].target_row == r;
            assert(ds2[j].col == ds[j].col && ds2[j].target_row == ds[j].target_row);
        }
        if exists|j: int| 0 <= j < ds2.len() && (#[trigger] ds2[j]).col.0 == c && ds2[j].target_row == r {
            let j = choose|j: int| 0 <= j < ds2.len() && (#[trigger] ds2[j]).col.0 == c && ds2[j].target_row == r;
            assert(ds2[j].col == ds[j].col && ds2[j].target_row == ds[j].target_row);
        }
    }
    assert forall|c: int, r1: int, r2: int|
        0 <= c < COLS && 0 <= r1 < r2 < TOTAL_ROWS && #[trigger] stays_free(cells, ds2, c, r2)
            implies #[trigger] stays_free(cells, ds2, c, r1) by {
        assert(stays_free(cells, ds2, c, r2) == stays_free(cells, ds, c, r2));
        assert(stays_free(cells, ds2, c, r1) == stays_free(cells, ds, c, r1));
    }
    assert forall|j: int, k: int|
        0 <= j < ds2.len() && 0 <= k < ds2.len() && j != k && (#[trigger] ds2[j]).col == (
        #[trigger] ds2[k]).col implies ds2[j].target_row != ds2[k].target_row by {
        assert(ds2[j].col == ds[j].col && ds2[k].col == ds[k].col);
    }
    assert forall|j: int| 0 <= j < ds2.len() implies (#[trigger] ds2[j]).col.0 < COLS
        && ds2[j].target_row < TOTAL_ROWS && cell(cells, ds2[j].col.0 as int, ds2[j].target_row as int)
        is None by {
        assert(ds2[j].col == ds[j].col && ds2[j].target_row == ds[j].target_row);
    }
}

impl GameField {
    /// One frame of display at time `now` (in milliseconds): the displayed
    /// pair catches up with the pair, dropping puyos fall.
    #[verifier::spinoff_prover]
    pub fn update(&mut self, ctx: &mut PlayContext, now: u64)
        requires
            old(self).consistent(old(ctx)),
        ensures
            (final(self)@, *final(ctx)) == update_spec(old(self)@, *old(ctx), now),
            final(self).consistent(final(ctx)),
    {
        let ghost m0 = self@;
        let dt: u64 = if now <= ctx.last_frame_time {
            0
        } else if now - ctx.last_frame_time > MAX_FRAME {
            MAX_FRAME
        } else {
            now - ctx.last_frame_time
        };
        if ctx.play_state == PlayState::Active || ctx.play_state == PlayState::Settling {
            let f: u64 = if DISPLAY_CHASE_RATE * dt > 1000 {
                1000
            } else {
                DISPLAY_CHASE_RATE * dt
            };
            let rf: u64 = if ROTATION_CHASE_RATE * dt > 1000 {
                1000
            } else {
                ROTATION_CHASE_RATE * dt
            };
            proof {
                lemma_approach_between(self.display_col as int, self.position.col * 1000, f as int);
                lemma_approach_between(self.display_row as int, self.position.row * 1000, f as int);
            }
            self.display_col = approach_exec(self.display_col, (self.position.col as i64) * 1000, f);
            self.display_row = approach_exec(self.display_row, (self.position.row as i64) * 1000, f);
            self.display_angle = approach_exec(self.display_angle, self.rotation_target, rf);
        }
        let ghost m1 = self@;
        let mut i: usize = 0;
        while i < self.dropping.len()
            invariant
                i <= m1.dropping.len(),
                dt <= MAX_FRAME,
                self@ == (FieldModel { dropping: self.dropping@, ..m1 }),
                self.dropping@.len() == m1.dropping.len(),
                forall|k: int| 0 <= k < i ==> #[trigger] self.dropping@[k] == fall_step(m1.dropping[k], dt as int),
                forall|k: int| i <= k < m1.dropping.len() ==> #[trigger] self.dropping@[k] == m1.dropping[k],
            decreases m1.dropping.len() - i,
        {
            let d = self.dropping[i];
            let v = sat_add(d.velocity, DROP_GRAVITY * dt);
            let row = sat_add(d.row, sat_mul(v, dt));
            proof {
                assert(sat_u64(d.row + sat_u64(v * dt)) == sat_u64(d.row + v * dt));
            }
            self.dropping.set(i, DroppingPuyo { velocity: v, row, ..d });
            i = i + 1;
        }
        proof {
            assert(self.dropping@ =~= m1.dropping.map_values(|d: DroppingPuyo| fall_step(d, dt as int)));
            if ctx.play_state == PlayState::Dropping {
                lemma_fall_keeps_consistent(m1.cells, m1.dropping, dt as int);
            }
        }
        ctx.last_frame_time = now;
    }
}


/// How a puyo is drawn: the progress of its landing squash (in thousandths,
/// if it squashes) and whether it shows in this frame of its blinking.
#[derive(Clone, Copy, PartialEq, Eq, Debug, Structural)]
pub struct DrawEffect {
    pub squash: Option<u32>,
    pub visible: bool,
}

impl Default for DrawEffect {
    fn default() -> (r: Self)
        ensures
            r == (DrawEffect { squash: None, visible: true }),
    {
        DrawEffect { squash: None, visible: true }
    }
}

/// A puyo to draw, at a place of the visible field in thousandths of a cell.
#[derive(Clone, Copy, PartialEq, Eq, Debug, Structural)]
pub struct DrawPuyo {
    pub puyo: Puyo,
    pub col: i64,
    pub row: i64,
    pub effect: DrawEffect,
}

/// The pair in play as displayed: its colours, the displayed place of the
/// axis (in thousandths of a cell, hidden rows included) and the displayed
/// angle of the child (in thousandths of a quarter turn clockwise from
/// pointing right).
#[derive(Clone, Copy, PartialEq, Eq, Debug, Structural)]
pub struct PairDisplay {
    pub axis: Puyo,
    pub child: Puyo,
    pub col: i64,
    pub row: i64,
    pub angle: i64,
}

/// What to draw for the field: its puyos, the pair in play (if any), and the
/// falling puyos that have come into view.
pub struct DrawList {
    pub field: Vec<DrawPuyo>,
    pub pair: Option<PairDisplay>,
    pub dropping: Vec<DrawPuyo>,
}

/// Progress (in thousandths) of an animation of `duration` milliseconds that
/// started at `start`.
pub open spec fn progress_of(now: u64, start: u64, duration: int) -> u32 {
    if now <= start {
        0
    } else if (now - start) * 1000 / duration > 1000 {
        1000
    } else {
        ((now - start) * 1000 / duration) as u32
    }
}

/// The squash progress of the first squashing entry on a cell, if any.
pub open spec fn squash_at(s: Seq<SquashingPuyo>, col: int, frow: int, now: u64) -> Option<u32>
    decreases s.len(),
{
    if s.len() == 0 {
        None
    } else if s[0].col.0 == col && s[0].row.0 == frow {
        Some(progress_of(now, s[0].start_time, SQUASHING_ANIM_DURATION as int))
    } else {
        squash_at(s.skip(1), col, frow, now)
    }
}

/// The blink progress of the first blinking entry on a visible cell, if any.
pub open spec fn blink_at(s: Seq<BlinkingPuyo>, col: int, vrow: int, now: u64) -> Option<u32>
    decreases s.len(),
{
    if s.len() == 0 {
        None
    } else if s[0].col.0 == col && s[0].row.0 == vrow {
        Some(progress_of(now, s[0].start_time, BLINK_DURATION as int))
    } else {
        blink_at(s.skip(1), col, vrow, now)
    }
}

/// What is drawn for a visible cell: its puyo, squashing if it just landed,
/// and left out in the dark frames of its blinking (five blinks over the
/// blink time).
pub open spec fn field_entry(m: FieldModel, col: int, row: int, now: u64) -> Option<DrawPuyo> {
    match cell(m.cells, col, row + GHOST_ROWS) {
        None => None,
        Some(p) => {
            let visible = match blink_at(m.blinking, col, row, now) {
                Some(q) => (q / 100) % 2 == 0,
                None => true,
            };
            if visible {
                Some(
                    DrawPuyo {
                        puyo: p,
                        col: (col * 1000) as i64,
                        row: (row * 1000) as i64,
                        effect: DrawEffect {
                            squash: squash_at(m.squashing, col, row + GHOST_ROWS, now),
                            visible: true,
                        },
                    },
                )
            } else {
                None
            }
        },
    }
}

/// The drawn puyos of the first `k` visible cells in row-major order.
pub open spec fn field_draws(m: FieldModel, now: u64, k: int) -> Seq<DrawPuyo>
    decreases k,
{
    if k <= 0 {
        seq![]
    } else {
        let prev = field_draws(m, now, k - 1);
        match field_entry(m, (k - 1) % (COLS as int), (k - 1) / (COLS as int), now) {
            Some(d) => prev.push(d),
            None => prev,
        }
    }
}

/// The drawn falling puyos among the first `k`: those at least one and a
/// half rows down, placed in the visible field.
pub open spec fn dropping_draws(ds: Seq<DroppingPuyo>, k: int) -> Seq<DrawPuyo>
    decreases k,
{
    if k <= 0 {
        seq![]
    } else {
        let prev = dropping_draws(ds, k - 1);
        let d = ds[k - 1];
        if d.row >= 1_500_000 {
            prev.push(
                DrawPuyo {
                    puyo: d.puyo,
                    col: (d.col.0 * 1000) as i64,
                    row: (d.row / 1000 - 2000) as i64,
                    effect: DrawEffect { squash: None, visible: true },
                },
            )
        } else {
            prev
        }
    }
}

/// The displayed pair, while it is in play.
pub open spec fn pair_display_of(m: FieldModel, state: PlayState) -> Option<PairDisplay> {
    if state == PlayState::Active || state == PlayState::Settling {
        Some(
            PairDisplay {
                axis: m.pair.axis,
                child: m.pair.child,
                col: m.display_col,
                row: m.display_row,
                angle: m.display_angle,
            },
        )
    } else {
        None
    }
}

/// Progress of an animation, in thousandths.
fn progress(now: u64, start: u64, duration: u64) -> (r: u32)
    requires
        0 < duration <= 1_000_000,
    ensures
        r == progress_of(now, start, duration as int),
{
    if now <= start {
        0
    } else {
        let e = now - start;
        if e > duration {
            assert(e * 1000 / (duration as int) >= 1000) by (nonlinear_arith)
                requires
                    e > duration,
                    duration > 0,
            ;
            1000
        } else {
            assert(e * 1000 <= duration * 1000) by (nonlinear_arith)
                requires
                    e <= duration,
            ;
            assert(e * 1000 / (duration as int) <= 1000) by (nonlinear_arith)
                requires
                    e <= duration,
                    duration > 0,
            ;
            ((e * 1000) / duration) as u32
        }
    }
}

impl GameField {
    /// Squash progress of a cell, if it squashes.
    fn squashing_progress(&self, col: Col, row: FieldRow, now: u64) -> (r: Option<u32>)
        ensures
            r == squash_at(self@.squashing, col.0 as int, row.0 as int, now),
    {
        let ghost s = self@.squashing;
        let mut i: usize = 0;
        assert(s.skip(0) =~= s);
        while i < self.squashing.len()
            invariant
                s == self@.squashing,
                i <= s.len(),
                squash_at(s, col.0 as int, row.0 as int, now) == squash_at(s.skip(i as int), col.0 as int, row.0 as int, now),
            decreases s.len() - i,
        {
            let l = self.squashing[i];
            assert(s.skip(i as int)[0] == l);
            if l.col == col && l.row == row {
                return Some(progress(now, l.start_time, SQUASHING_ANIM_DURATION));
            }
            assert(s.skip(i as int).skip(1) =~= s.skip(i + 1));
            i = i + 1;
        }
        None
    }

    /// Blink progress of a visible cell, if it blinks.
    fn blinking_progress(&self, col: Col, row: VisibleRow, now: u64) -> (r: Option<u32>)
        ensures
            r == blink_at(self@.blinking, col.0 as int, row.0 as int, now),
    {
        let ghost s = self@.blinking;
        let mut i: usize = 0;
        assert(s.skip(0) =~= s);
        while i < self.blinking.len()
            invariant
                s == self@.blinking,
                i <= s.len(),
                blink_at(s, col.0 as int, row.0 as int, now) == blink_at(s.skip(i as int), col.0 as int, row.0 as int, now),
            decreases s.len() - i,
        {
            let l = self.blinking[i];
            assert(s.skip(i as int)[0] == l);
            if l.col == col && l.row == row {
                return Some(progress(now, l.start_time, BLINK_DURATION));
            }
            assert(s.skip(i as int).skip(1) =~= s.skip(i + 1));
            i = i + 1;
        }
        None
    }

    /// What to draw at time `now`: the field's puyos (squashing, blinking),
    /// the pair in play, and the falling puyos in view.
    pub fn draw_list(&self, ctx: &PlayContext, now: u64) -> (r: DrawList)
        requires
            self.wf(),
        ensures
            r.field@ == field_draws(self@, now, VISIBLE_CELLS as int),
            r.pair == pair_display_of(self@, ctx.play_state),
            r.dropping@ == dropping_draws(self@.dropping, self@.dropping.len() as int),
    {
        let mut field: Vec<DrawPuyo> = Vec::new();
        let mut k: usize = 0;
        while k < VISIBLE_CELLS
            invariant
                self.wf(),
                k <= VISIBLE_CELLS,
                field@ == field_draws(self@, now, k as int),
            decreases VISIBLE_CELLS - k,
        {
            let col = k % COLS;
            let row = k / COLS;
            let content = self.field[(row + GHOST_ROWS) * COLS + col];
            assert(content == cell(self@.cells, col as int, row + GHOST_ROWS));
            match content {
                None => {},
                Some(puyo) => {
                    let mut effect = DrawEffect::default();
                    effect.squash = self.squashing_progress(Col(col), FieldRow(row + GHOST_ROWS), now);
                    match self.blinking_progress(Col(col), VisibleRow(row), now) {
                        Some(p) => {
                            effect.visible = (p / 100) % 2 == 0;
                        },
                        None => {},
                    }
                    if effect.visible {
                        field.push(
                            DrawPuyo {
                                puyo,
                                col: (col as i64) * 1000,
                                row: (row as i64) * 1000,
                                effect,
                            },
                        );
                    }
                },
            }
            k = k + 1;
        }
        let pair = if ctx.play_state == PlayState::Active || ctx.play_state == PlayState::Settling {
            Some(
                PairDisplay {
                    axis: self.puyopuyo.axis,
                    child: self.puyopuyo.child,
                    col: self.display_col,
                    row: self.display_row,
                    angle: self.display_angle,
                },
            )
        } else {
            None
        };
        let mut dropping: Vec<DrawPuyo> = Vec::new();
        let mut i: usize = 0;
        while i < self.dropping.len()
            invariant
                self.wf(),
                i <= self@.dropping.len(),
                dropping@ == dropping_draws(self@.dropping, i as int),
            decreases self@.dropping.len() - i,
        {
            let d = self.dropping[i];
            if d.row >= 1_500_000 {
                dropping.push(
                    DrawPuyo {
                        puyo: d.puyo,
                        col: (d.col.index() as i64) * 1000,
                        row: (d.row / 1000) as i64 - 2000,
                        effect: DrawEffect::default(),
                    },
                );
            }
            i = i + 1;
        }
        DrawList { field, pair, dropping }
    }

    /// The visible part of the field, row by row from the top.
    pub fn visible_field(&self) -> (r: Vec<Vec<Option<Puyo>>>)
        requires
            self.wf(),
        ensures
            r@.len() == ROWS,
            forall|row: int, col: int|
                0 <= row < ROWS && 0 <= col < COLS ==> (#[trigger] r@[row]@[col]) == cell(
                    self@.cells,
                    col,
                    row + GHOST_ROWS,
                ) && r@[row]@.len() == COLS,
    {
        let mut rows: Vec<Vec<Option<Puyo>>> = Vec::new();
        let mut row: usize = 0;
        while row < ROWS
            invariant
                self.wf(),
                row <= ROWS,
                rows@.len() == row,
                forall|r: int, c: int|
                    0 <= r < row && 0 <= c < COLS ==> (#[trigger] rows@[r]@[c]) == cell(
                        self@.cells,
                        c,
                        r + GHOST_ROWS,
                    ) && rows@[r]@.len() == COLS,
            decreases ROWS - row,
        {
            let mut line: Vec<Option<Puyo>> = Vec::new();
            let mut col: usize = 0;
            while col < COLS
                invariant
                    self.wf(),
                    row < ROWS,
                    col <= COLS,
                    line@.len() == col,
                    forall|c: int| 0 <= c < col ==> #[trigger] line@[c] == cell(self@.cells, c, row + GHOST_ROWS),
                decreases COLS - col,
            {
                line.push(self.field[(row + GHOST_ROWS) * COLS + col]);
                col = col + 1;
            }
            rows.push(line);
            row = row + 1;
        }
        rows
    }

    /// Whether a frame may run: the score, chain count and spawn count have
    /// room, and the frame does not lock the pair with its child above the
    /// top of the field.
    pub fn can_tick(&self, ctx: &PlayContext, now: u64, input: GameInput) -> (r: bool)
        requires
            self.wf(),
        ensures
            r == tick_allowed(self@, *ctx, now, input),
    {
        if ctx.play_state == PlayState::Squashing {
            if !squash_over(&self.squashing, now) {
                return true;
            }
            let groups = find_chain_groups(&self.field);
            if groups.len() == 0 {
                return true;
            }
            if self.chain_count == u32::MAX {
                return false;
            }
            let gain = score_gain_wide(self.chain_count + 1, &groups);
            return gain <= (u32::MAX - self.score) as u64;
        }
        if ctx.play_state == PlayState::Landed {
            proof {
                assert(self.field@[GHOST_ROWS * COLS + 2] == cell(self@.cells, 2, GHOST_ROWS as int));
            }
            return self.field[GHOST_ROWS * COLS + 2].is_some() || self.spawn_count < u32::MAX;
        }
        if ctx.play_state != PlayState::Settling {
            return true;
        }
        let c0 = self.control(ctx);
        let c1 = self.apply_keys(c0, now, input);
        let start = if c1.position != c0.position || c1.orientation != c0.orientation {
            now
        } else {
            ctx.settling_start
        };
        let delay = if input.down {
            LOCK_DELAY_FAST
        } else {
            LOCK_DELAY
        };
        let is_grounded = !self.can_move_at(c1.position, c1.orientation, 0, 1);
        let locks = is_grounded && elapsed_over(now, start, delay) && self.display_row - (
        c1.position.row as i64) * 1000 > -50 && self.display_row - (c1.position.row as i64) * 1000
            < 50;
        let (_, dr) = c1.orientation.offset();
        let above = (c1.position.row as isize) + dr < 0;
        !(locks && above)
    }
}

} // verus!
