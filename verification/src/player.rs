use vstd::prelude::*;

verus! {

/// The width, in cells, of the player's hit mask; the mask is as tall as
/// it is wide, and each cell covers 3x3 units of the world.
pub const MASK_WIDTH: usize = 11;

/// The index in the hit mask of the cell in column `x` and row `y`.
pub open spec fn mask_index(x: int, y: int) -> int {
    x + 11 * y
}

/// The player's ship as far as being hit goes: a mask of the cells that a
/// bullet can hit (non-zero) or pass through (zero), and whether the ship
/// is still in one piece. Where the ship is on screen is kept by the
/// application.
pub struct Player {
    pub collision: [i32; 121],
    pub alive: bool,
}

impl Player {
    /// A live ship with the given hit mask.
    pub fn new(collision: [i32; 121]) -> (p: Player)
        ensures
            p.collision@ == collision@,
            p.alive,
    {
        Player { collision, alive: true }
    }

    /// A bullet lands over mask cell `cell` of the ship, or outside the
    /// ship's box (`None`). It hits when the cell is set in the mask, and a
    /// hit destroys the ship.
    pub fn check_hit(&mut self, cell: Option<(usize, usize)>) -> (hit: bool)
        requires
            cell matches Some((x, y)) ==> mask_index(x as int, y as int) < 121,
        ensures
            hit == (match cell {
                Some((x, y)) => old(self).collision@[mask_index(x as int, y as int)] != 0,
                None => false,
            }),
            final(self).alive == (old(self).alive && !hit),
            final(self).collision == old(self).collision,
    {
        match cell {
            Some((x, y)) => {
                let hit = self.collision[x + 11 * y] != 0;
                if hit {
                    self.alive = false;
                }
                hit
            },
            None => false,
        }
    }
}

} // verus!
