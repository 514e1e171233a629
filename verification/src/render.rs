use vstd::prelude::*;
use crate::puyo::Puyo;

verus! {

/// Length of the animation when the next pairs move up, in milliseconds.
pub const NEXT_ANIM_DURATION: u64 = 150;

/// A pair shown in the next area: its axis and child colours.
#[derive(Clone, Copy, PartialEq, Eq, Debug, Structural)]
pub struct NextPuyo {
    pub axis: Puyo,
    pub child: Puyo,
}

impl NextPuyo {
    /// A pair to show.
    pub fn new(axis: Puyo, child: Puyo) -> (r: Self)
        ensures
            r == (NextPuyo { axis, child }),
    {
        NextPuyo { axis, child }
    }
}

/// State of the next area's animation: when it started, for which spawn
/// count, the pair shown as next and the pair moving out.
#[derive(Clone, Copy, PartialEq, Eq, Debug, Structural)]
pub struct NextAnim {
    pub start_time: u64,
    pub generation: u32,
    pub current: Option<NextPuyo>,
    pub exiting: Option<NextPuyo>,
}

/// The animation state after showing `next` at time `now` for spawn count
/// `generation`: a new spawn count restarts the animation and sends the
/// shown pair out.
pub open spec fn observed(a: NextAnim, generation: u32, now: u64, next: NextPuyo) -> NextAnim {
    if a.generation != generation {
        NextAnim { exiting: a.current, start_time: now, generation, current: Some(next) }
    } else {
        NextAnim { current: Some(next), ..a }
    }
}

/// Progress of the animation at `now`, in thousandths.
pub open spec fn anim_progress(a: NextAnim, now: u64) -> u32 {
    if now <= a.start_time {
        0
    } else if now - a.start_time >= NEXT_ANIM_DURATION {
        1000
    } else {
        ((now - a.start_time) * 1000 / (NEXT_ANIM_DURATION as int)) as u32
    }
}

impl NextAnim {
    /// No animation yet.
    pub fn new() -> (r: Self)
        ensures
            r == (NextAnim { start_time: 0, generation: 0, current: None, exiting: None }),
    {
        NextAnim { start_time: 0, generation: 0, current: None, exiting: None }
    }

    /// Shows `next` at time `now` (in milliseconds) for the given spawn count.
    pub fn observe(&mut self, generation: u32, now: u64, next: NextPuyo)
        ensures
            *final(self) == observed(*old(self), generation, now, next),
    {
        if self.generation != generation {
            self.exiting = self.current;
            self.start_time = now;
            self.generation = generation;
        }
        self.current = Some(next);
    }

    /// Progress of the animation at `now`, in thousandths.
    pub fn progress(&self, now: u64) -> (r: u32)
        ensures
            r == anim_progress(*self, now),
            r <= 1000,
    {
        if now <= self.start_time {
            0
        } else if now - self.start_time >= NEXT_ANIM_DURATION {
            1000
        } else {
            let e = now - self.start_time;
            assert(e * 1000 / (NEXT_ANIM_DURATION as int) <= 1000) by (nonlinear_arith)
                requires
                    e < NEXT_ANIM_DURATION,
            ;
            ((e * 1000) / NEXT_ANIM_DURATION) as u32
        }
    }
}

} // verus!
