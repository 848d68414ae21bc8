use vstd::prelude::*;
use crate::game::ResetType;
use crate::swarm::scaled_points;

verus! {

/// The side of the screen the flying saucer last came in from.
#[derive(Copy, Clone, PartialEq, Eq, Structural, Debug)]
pub enum StartLocation {
    LEFT,
    RIGHT,
}

/// The flying saucer that now and then crosses the top of the screen:
/// whether it is flying, the side it came in from, and the level, which
/// raises what it is worth. Its position and the time to its next flight
/// are kept by the application.
pub struct Ufo {
    pub active: bool,
    pub start: StartLocation,
    pub level: i32,
}

/// The side opposite `s`: the saucer alternates between the two.
pub open spec fn other_side(s: StartLocation) -> StartLocation {
    match s {
        StartLocation::LEFT => StartLocation::RIGHT,
        StartLocation::RIGHT => StartLocation::LEFT,
    }
}

/// The highest level at which the saucer scores exactly 300 times one and
/// a half times the level; the scoring rule is worked out in single
/// precision, and above this level that arithmetic rounds.
pub const MAX_EXACT_SAUCER_LEVEL: i32 = 74566;

impl Ufo {
    /// A grounded saucer at level 0, last come in from the left.
    pub fn new() -> (u: Ufo)
        ensures
            !u.active,
            u.start == StartLocation::LEFT,
            u.level == 0,
    {
        Ufo { active: false, start: StartLocation::LEFT, level: 0 }
    }

    /// Grounds the saucer; for the next wave it also goes up a level.
    pub fn reset(&mut self, reset_type: ResetType)
        requires
            reset_type == ResetType::Next ==> old(self).level < i32::MAX,
        ensures
            !final(self).active,
            final(self).start == old(self).start,
            final(self).level == if reset_type == ResetType::Next { old(self).level + 1 } else { old(self).level as int },
    {
        if reset_type == ResetType::Next {
            self.level = self.level + 1;
        }
        self.active = false;
    }

    /// Sends the saucer off from the side opposite the one it last came in
    /// from, and returns that side.
    pub fn launch(&mut self) -> (side: StartLocation)
        ensures
            final(self).active,
            side == other_side(old(self).start),
            final(self).start == side,
            final(self).level == old(self).level,
    {
        self.active = true;
        match self.start {
            StartLocation::LEFT => {
                self.start = StartLocation::RIGHT;
            },
            StartLocation::RIGHT => {
                self.start = StartLocation::LEFT;
            },
        }
        self.start
    }

    /// The points the saucer is worth: 300, scaled by the level.
    pub open spec fn spec_points(&self) -> int {
        scaled_points(300, self.level as int)
    }

    /// A shot of the player's, live or not, and over the saucer or not. A
    /// live shot over a flying saucer brings it down and scores its points.
    ///
    /// The points are 300 times three halves of the level, computed in
    /// single precision, which is exact up to level `MAX_EXACT_SAUCER_LEVEL`
    /// and rounds above it; bringing the saucer down is taken only up to
    /// that level.
    pub fn check_hit(&mut self, bullet_active: bool, over: bool) -> (r: Option<i32>)
        requires
            bullet_active && old(self).active && over ==> old(self).level <= MAX_EXACT_SAUCER_LEVEL,
        ensures
            r == (if bullet_active && old(self).active && over {
                Some(old(self).spec_points() as i32)
            } else {
                None::<i32>
            }),
            final(self).active == (old(self).active && !(bullet_active && over)),
            final(self).start == old(self).start,
            final(self).level == old(self).level,
    {
        if !bullet_active {
            return None;
        }
        if !self.active {
            return None;
        }
        if over {
            self.reset(ResetType::Respawn);
            let points: i32 = if self.level >= 1 {
                assert(300 * 3 * self.level <= 300 * 3 * 74566) by (nonlinear_arith)
                    requires
                        0 <= self.level <= 74566,
                ;
                300 * 3 * self.level / 2
            } else {
                300
            };
            Some(points)
        } else {
            None
        }
    }
}

/// The saucer alternates sides: each flight comes in from the side
/// opposite the previous one, so every second flight comes from the same side.
pub proof fn lemma_saucer_alternates(s: StartLocation)
    ensures
        other_side(s) != s,
        other_side(other_side(s)) == s,
{
}

} // verus!
