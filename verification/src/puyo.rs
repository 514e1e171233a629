use vstd::prelude::*;

verus! {

/// One puyo colour.
#[derive(Clone, Copy, PartialEq, Eq, Hash, Debug, Structural)]
pub enum Puyo {
    Red,
    Blue,
    Green,
    Yellow,
    Purple,
}

/// Where the child puyo stands relative to the axis puyo.
#[derive(Clone, Copy, PartialEq, Eq, Debug, Structural)]
pub enum Orientation {
    /// child above the axis
    Up,
    /// child right of the axis
    Right,
    /// child below the axis
    Down,
    /// child left of the axis
    Left,
}

/// Direction of a rotation.
#[derive(Clone, Copy, PartialEq, Eq, Debug, Structural)]
pub enum Rotation {
    /// clockwise
    Right,
    /// counter-clockwise
    Left,
}

/// Position of an orientation in the clockwise cycle Up, Right, Down, Left.
pub open spec fn orientation_index(o: Orientation) -> int {
    match o {
        Orientation::Up => 0,
        Orientation::Right => 1,
        Orientation::Down => 2,
        Orientation::Left => 3,
    }
}

/// The orientation at a position of the clockwise cycle.
pub open spec fn orientation_at(i: int) -> Orientation {
    if i % 4 == 0 {
        Orientation::Up
    } else if i % 4 == 1 {
        Orientation::Right
    } else if i % 4 == 2 {
        Orientation::Down
    } else {
        Orientation::Left
    }
}

/// Steps a rotation advances along the clockwise cycle (a left turn is three
/// clockwise steps).
pub open spec fn rotation_steps(r: Rotation) -> int {
    match r {
        Rotation::Right => 1,
        Rotation::Left => 3,
    }
}

/// The orientation after one rotation.
pub open spec fn rotated(o: Orientation, r: Rotation) -> Orientation {
    orientation_at(orientation_index(o) + rotation_steps(r))
}

/// Column and row offset of the child relative to the axis.
pub open spec fn offset_of(o: Orientation) -> (int, int) {
    match o {
        Orientation::Up => (0, -1),
        Orientation::Right => (1, 0),
        Orientation::Down => (0, 1),
        Orientation::Left => (-1, 0),
    }
}

impl Orientation {
    /// Offset (column delta, row delta) of the child relative to the axis.
    pub fn offset(self) -> (r: (isize, isize))
        ensures
            r.0 as int == offset_of(self).0,
            r.1 as int == offset_of(self).1,
    {
        match self {
            Orientation::Up => (0, -1),
            Orientation::Right => (1, 0),
            Orientation::Down => (0, 1),
            Orientation::Left => (-1, 0),
        }
    }

    /// The orientation after rotating once in the given direction.
    pub fn rotate(self, rotation: Rotation) -> (r: Orientation)
        ensures
            r == rotated(self, rotation),
    {
        let i: usize = match self {
            Orientation::Up => 0,
            Orientation::Right => 1,
            Orientation::Down => 2,
            Orientation::Left => 3,
        };
        let offset: usize = match rotation {
            Rotation::Right => 1,
            Rotation::Left => 3,
        };
        let k: usize = (i + offset) % 4;
        if k == 0 {
            Orientation::Up
        } else if k == 1 {
            Orientation::Right
        } else if k == 2 {
            Orientation::Down
        } else {
            Orientation::Left
        }
    }
}

/// The opposite rotation direction.
pub open spec fn reverse(r: Rotation) -> Rotation {
    match r {
        Rotation::Right => Rotation::Left,
        Rotation::Left => Rotation::Right,
    }
}

/// A rotation followed by the rotation in the other direction gives back the
/// orientation it started from.
pub proof fn lemma_rotate_then_reverse(o: Orientation, r: Rotation)
    ensures
        rotated(rotated(o, r), reverse(r)) == o,
{
}

/// Four rotations in the same direction give back the starting orientation.
pub proof fn lemma_four_rotations(o: Orientation, r: Rotation)
    ensures
        rotated(rotated(rotated(rotated(o, r), r), r), r) == o,
{
}

/// Two rotations in either direction both turn the pair upside down: the child
/// ends on the opposite side of the axis, whichever way the pair was turned.
pub proof fn lemma_half_turn(o: Orientation)
    ensures
        rotated(rotated(o, Rotation::Right), Rotation::Right) == rotated(
            rotated(o, Rotation::Left),
            Rotation::Left,
        ),
        offset_of(rotated(rotated(o, Rotation::Right), Rotation::Right)).0 == -offset_of(o).0,
        offset_of(rotated(rotated(o, Rotation::Right), Rotation::Right)).1 == -offset_of(o).1,
{
}

/// The child always stands on one of the four cells next to the axis.
pub proof fn lemma_offset_is_neighbour(o: Orientation)
    ensures
        (offset_of(o).0 == 0 && (offset_of(o).1 == 1 || offset_of(o).1 == -1)) || (offset_of(
            o,
        ).1 == 0 && (offset_of(o).0 == 1 || offset_of(o).0 == -1)),
{
}

/// A falling pair: the axis puyo, the child puyo and the child's orientation.
#[derive(Clone, Copy, Debug)]
pub struct PuyoPuyo {
    pub axis: Puyo,
    pub child: Puyo,
    pub orientation: Orientation,
}

impl PuyoPuyo {
    /// The axis puyo.
    pub fn axis(&self) -> (r: Puyo)
        ensures
            r == self.axis,
    {
        self.axis
    }

    /// The child puyo.
    pub fn child(&self) -> (r: Puyo)
        ensures
            r == self.child,
    {
        self.child
    }

    /// The child's orientation.
    pub fn orientation(&self) -> (r: Orientation)
        ensures
            r == self.orientation,
    {
        self.orientation
    }

    /// Replaces the orientation; the colours stay.
    pub fn set_orientation(&mut self, orientation: Orientation)
        ensures
            final(self).orientation == orientation,
            final(self).axis == old(self).axis,
            final(self).child == old(self).child,
    {
        self.orientation = orientation;
    }

    /// A pair of two colours drawn from macroquad's global generator, child
    /// on top.
    pub fn new() -> (r: PuyoPuyo)
        ensures
            r.orientation == Orientation::Up,
    {
        let axis = puyo_of_index(random_index(5));
        let child = puyo_of_index(random_index(5));
        PuyoPuyo { axis, child, orientation: Orientation::Up }
    }
}

/// The five colours in their order of declaration.
pub open spec fn all_colors() -> Seq<Puyo> {
    seq![Puyo::Red, Puyo::Blue, Puyo::Green, Puyo::Yellow, Puyo::Purple]
}

/// The colour at an index of [`all_colors`].
pub fn puyo_of_index(i: usize) -> (p: Puyo)
    requires
        i < 5,
    ensures
        p == all_colors()[i as int],
{
    if i == 0 {
        Puyo::Red
    } else if i == 1 {
        Puyo::Blue
    } else if i == 2 {
        Puyo::Green
    } else if i == 3 {
        Puyo::Yellow
    } else {
        Puyo::Purple
    }
}

/// Calls `macroquad::rand::gen_range(0, n)` for `usize` (quad-rand's global
/// generator). quad-rand maps a `u32` draw `r` to `low + (high - low) * r / 2^32`
/// and truncates, so for the small ranges used here the result lies in
/// `0..n`. Which value comes is left open: it depends on the generator's state.
#[verifier::external_body]
fn random_index(n: usize) -> (r: usize)
    requires
        0 < n <= 65536,
    ensures
        r < n,
{
    macroquad::rand::gen_range(0, n)
}

} // verus!
