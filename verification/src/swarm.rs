use vstd::prelude::*;
use crate::game::ResetType;

verus! {

/// Which way the swarm is heading. `DOWN(true)` is a drop after which the
/// swarm turns left, `DOWN(false)` one after which it turns right.
#[derive(Copy, Clone, PartialEq, Eq, Structural, Debug)]
pub enum Movement {
    LEFT,
    DOWN(bool),
    RIGHT,
}

/// Where one step of the swarm moves it on screen.
#[derive(Copy, Clone, PartialEq, Eq, Structural, Debug)]
pub enum Shift {
    Right,
    Left,
    Down,
}

/// What the player's bullet carries: an ordinary shot, or a bomb that
/// takes out the enemy in whatever cell it is over.
#[derive(Copy, Clone, PartialEq, Eq, Structural, Debug)]
pub enum Ability {
    Normal,
    Bomb,
}

/// The highest level at which a hit on the top row scores exactly its
/// value times one and a half times the level. The scoring rule is worked
/// out in single precision, and above this level that arithmetic rounds the
/// product of 30 points.
pub const MAX_EXACT_LEVEL_TOP_ROW: usize = 372828;

/// The highest level at which a hit on a lower row (worth 20 or 10) scores
/// exactly its value times one and a half times the level; above it the
/// single-precision arithmetic of the scoring rule rounds.
pub const MAX_EXACT_LEVEL_LOWER_ROWS: usize = 1118482;

/// The highest level at which an ordinary hit on row `row` is scored exactly.
pub open spec fn max_exact_level(row: int) -> int {
    if row == 0 { MAX_EXACT_LEVEL_TOP_ROW as int } else { MAX_EXACT_LEVEL_LOWER_ROWS as int }
}

/// The number of `true` entries in `s`.
pub open spec fn count_alive(s: Seq<bool>) -> nat
    decreases s.len(),
{
    if s.len() == 0 {
        0
    } else {
        count_alive(s.drop_last()) + if s.last() { 1nat } else { 0nat }
    }
}

/// The columns that the swarm fires from, one after the other, over and over.
pub open spec fn spec_firing_column(k: int) -> int {
    if k == 0 { 4 }
    else if k == 1 { 5 }
    else if k == 2 { 3 }
    else if k == 3 { 2 }
    else if k == 4 { 6 }
    else if k == 5 { 8 }
    else if k == 6 { 1 }
    else if k == 7 { 0 }
    else if k == 8 { 7 }
    else { 9 }
}

/// The column fired from at position `k` of the firing order.
pub fn firing_column(k: usize) -> (c: usize)
    requires
        k < 10,
    ensures
        c == spec_firing_column(k as int),
{
    match k {
        0 => 4,
        1 => 5,
        2 => 3,
        3 => 2,
        4 => 6,
        5 => 8,
        6 => 1,
        7 => 0,
        8 => 7,
        _ => 9,
    }
}

/// The position in the firing order that follows `fc` in a swarm `num_x`
/// columns wide: the order wraps after `num_x` positions.
pub open spec fn next_fire_position(fc: int, num_x: int) -> int {
    if fc >= num_x - 1 { 0 } else { fc + 1 }
}

/// The index in the row-major grid of the enemy in column `x` and row `y`.
pub open spec fn cell_index(x: int, y: int, num_x: int) -> int {
    x + y * num_x
}

/// The lowest row, counting up from row `rows - 1`, whose enemy in
/// column `col` is alive.
pub open spec fn lowest_below(alive: Seq<bool>, num_x: int, col: int, rows: int) -> Option<int>
    decreases rows,
{
    if rows <= 0 {
        None
    } else if alive[cell_index(col, rows - 1, num_x)] {
        Some(rows - 1)
    } else {
        lowest_below(alive, num_x, col, rows - 1)
    }
}

/// The points that a hit is worth at a given level: the base value at
/// level 0, and one and a half times the level times it from level 1 on.
pub open spec fn scaled_points(base: int, level: int) -> int {
    if level >= 1 { base * 3 * level / 2 } else { base }
}

/// The base value of an enemy in row `row`: the top row is worth 30,
/// the two below it 20, and the two below those 10.
pub open spec fn row_points(row: int) -> int {
    if row == 0 { 30 } else if row <= 2 { 20 } else { 10 }
}

proof fn lemma_count_alive_all(n: nat)
    ensures
        count_alive(Seq::new(n, |i: int| true)) == n,
    decreases n,
{
    if n > 0 {
        assert(Seq::new(n, |i: int| true).drop_last() == Seq::new((n - 1) as nat, |i: int| true));
        lemma_count_alive_all((n - 1) as nat);
    }
}

proof fn lemma_count_alive_kill(s: Seq<bool>, i: int)
    requires
        0 <= i < s.len(),
        s[i],
    ensures
        count_alive(s.update(i, false)) + 1 == count_alive(s),
    decreases s.len(),
{
    if i == s.len() - 1 {
        assert(s.update(i, false).drop_last() == s.drop_last());
    } else {
        assert(s.update(i, false).drop_last() == s.drop_last().update(i, false));
        lemma_count_alive_kill(s.drop_last(), i);
    }
}

proof fn lemma_count_alive_positive(s: Seq<bool>, i: int)
    requires
        0 <= i < s.len(),
        s[i],
    ensures
        count_alive(s) > 0,
{
    lemma_count_alive_kill(s, i);
}

proof fn lemma_count_alive_none(s: Seq<bool>)
    requires
        forall|i: int| 0 <= i < s.len() ==> !s[i],
    ensures
        count_alive(s) == 0,
    decreases s.len(),
{
    if s.len() > 0 {
        lemma_count_alive_none(s.drop_last());
    }
}

proof fn lemma_cell_in_grid(x: int, y: int, num_x: int, num_y: int)
    requires
        0 <= x < num_x,
        0 <= y < num_y,
    ensures
        0 <= cell_index(x, y, num_x) < num_x * num_y,
{
    assert(y * num_x + x < num_x * num_y) by (nonlinear_arith)
        requires
            0 <= x < num_x,
            0 <= y < num_y,
    ;
    assert(0 <= y * num_x) by (nonlinear_arith)
        requires
            0 <= y,
            0 <= num_x,
    ;
}

proof fn lemma_lowest_below(alive: Seq<bool>, num_x: int, col: int, rows: int)
    ensures
        match lowest_below(alive, num_x, col, rows) {
            Some(row) => 0 <= row < rows && alive[cell_index(col, row, num_x)]
                && forall|r: int| row < r < rows ==> !alive[#[trigger] cell_index(col, r, num_x)],
            None => forall|r: int| 0 <= r < rows ==> !alive[#[trigger] cell_index(col, r, num_x)],
        },
    decreases rows,
{
    if rows > 0 {
        lemma_lowest_below(alive, num_x, col, rows - 1);
    }
}

/// The last index of `s`, below `n`, whose entry is `true`.
pub open spec fn last_true_below(s: Seq<bool>, n: int) -> Option<int>
    decreases n,
{
    if n <= 0 {
        None
    } else if s[n - 1] {
        Some(n - 1)
    } else {
        last_true_below(s, n - 1)
    }
}

/// The cells (column, row) of the `true` entries of `s` below index `n`,
/// from the highest index down, in a grid `num_x` columns wide.
pub open spec fn cells_desc(s: Seq<bool>, num_x: int, n: int) -> Seq<(usize, usize)>
    decreases n,
{
    if n <= 0 {
        Seq::empty()
    } else {
        let rest = cells_desc(s, num_x, n - 1);
        if s[n - 1] {
            seq![(((n - 1) % num_x) as usize, ((n - 1) / num_x) as usize)] + rest
        } else {
            rest
        }
    }
}

/// The points a hit on a live enemy in row `row` is worth at `level`: a
/// bomb 30, an ordinary shot the row's value scaled by the level.
pub open spec fn points_for(row: int, level: int, ability: Ability) -> int {
    if ability == Ability::Bomb { 30 } else { scaled_points(row_points(row), level) }
}

/// The grid after a shot over `cell`: a live enemy there dies; a dead cell,
/// or a shot over no enemy, leaves the grid as it was.
pub open spec fn alive_after_hit(alive: Seq<bool>, num_x: int, cell: Option<(usize, usize)>) -> Seq<bool> {
    match cell {
        Some((x, y)) => {
            let k = cell_index(x as int, y as int, num_x);
            if alive[k] { alive.update(k, false) } else { alive }
        },
        None => alive,
    }
}

/// What a shot over `cell` scores: the points and the cell where it kills a
/// live enemy, nothing otherwise.
pub open spec fn hit_result(alive: Seq<bool>, num_x: int, level: int, cell: Option<(usize, usize)>, ability: Ability) -> Option<(i32, (usize, usize))> {
    match cell {
        Some((x, y)) => if alive[cell_index(x as int, y as int, num_x)] {
            Some((points_for(y as int, level, ability) as i32, (x, y)))
        } else {
            None
        },
        None => None,
    }
}

/// The direction the swarm heads in after a step from `m`, given whether
/// there is room on its right and on its left.
pub open spec fn next_movement(m: Movement, room_right: bool, room_left: bool) -> Movement {
    match m {
        Movement::RIGHT => if room_right { Movement::RIGHT } else { Movement::DOWN(true) },
        Movement::DOWN(right) => if right { Movement::LEFT } else { Movement::RIGHT },
        Movement::LEFT => if room_left { Movement::LEFT } else { Movement::DOWN(false) },
    }
}

/// How a step from `m` moves the swarm: nowhere when it has just reached
/// an edge and turns to drop.
pub open spec fn shift_of(m: Movement, room_right: bool, room_left: bool) -> Option<Shift> {
    match m {
        Movement::RIGHT => if room_right { Some(Shift::Right) } else { None },
        Movement::DOWN(_) => Some(Shift::Down),
        Movement::LEFT => if room_left { Some(Shift::Left) } else { None },
    }
}

/// The animation frame after `f`: the two frames alternate.
pub open spec fn next_frame(f: u32) -> u32 {
    if f == 0 { 1 } else if f == 1 { 0 } else { f }
}

proof fn lemma_last_true_below(s: Seq<bool>, n: int)
    requires
        n <= s.len(),
    ensures
        match last_true_below(s, n) {
            Some(i) => 0 <= i < n && s[i] && forall|j: int| i < j < n ==> !#[trigger] s[j],
            None => forall|j: int| 0 <= j < n ==> !#[trigger] s[j],
        },
    decreases n,
{
    if n > 0 {
        lemma_last_true_below(s, n - 1);
    }
}

/// The grid of enemies: `num_x` columns by `num_y` rows, stored row by row,
/// each alive or not, with the state of its march across the screen and of
/// its firing. Where the grid stands on screen is kept by the application.
pub struct Swarm {
    pub num_x: usize,
    pub num_y: usize,
    pub alive: Vec<bool>,
    pub num_alive: usize,
    pub movement: Movement,
    pub fire_column: usize,
    pub frame: u32,
    pub num_drops: usize,
    pub level: usize,
}

impl Swarm {
    /// The grid has one entry per enemy, and `num_alive` counts the live ones.
    pub open spec fn wf(&self) -> bool {
        &&& self.alive@.len() == self.num_x * self.num_y
        &&& self.num_alive == count_alive(self.alive@)
    }

    /// The lowest live enemy in column `col`, by the grid alone.
    pub open spec fn spec_lowest_in_column(&self, col: int) -> Option<int> {
        lowest_below(self.alive@, self.num_x as int, col, self.num_y as int)
    }

    /// Whether some enemy in column `col` is alive.
    pub open spec fn column_alive(&self, col: int) -> bool {
        exists|r: int| 0 <= r < self.num_y && #[trigger] self.alive@[cell_index(col, r, self.num_x as int)]
    }

    /// The last live enemy in the grid, as its column and row.
    pub open spec fn spec_lowest_alive(&self) -> Option<(usize, usize)> {
        match last_true_below(self.alive@, self.alive@.len() as int) {
            Some(i) => Some(((i % self.num_x as int) as usize, (i / self.num_x as int) as usize)),
            None => None,
        }
    }

    /// The points that a hit on a live enemy in row `row` is worth.
    pub open spec fn hit_points(&self, row: int, ability: Ability) -> int {
        points_for(row, self.level as int, ability)
    }

    /// The cell that the swarm fires from after moving its firing position
    /// from `fc` to the next one.
    pub open spec fn spawn_after(&self, fc: int) -> Option<(usize, usize)> {
        let col = spec_firing_column(next_fire_position(fc, self.num_x as int));
        match self.spec_lowest_in_column(col) {
            Some(row) => Some((col as usize, row as usize)),
            None => None,
        }
    }

    /// The firing position after `n` shots from position `fc`.
    pub open spec fn fire_position_after(&self, fc: int, n: nat) -> int
        decreases n,
    {
        if n == 0 {
            fc
        } else {
            next_fire_position(self.fire_position_after(fc, (n - 1) as nat), self.num_x as int)
        }
    }

    /// The cells that `n` shots from firing position `fc` come from, in
    /// order, leaving out the shots whose column has no live enemy.
    pub open spec fn volley_from(&self, fc: int, n: nat) -> Seq<(usize, usize)>
        decreases n,
    {
        if n == 0 {
            Seq::empty()
        } else {
            let prev = self.volley_from(fc, (n - 1) as nat);
            match self.spawn_after(self.fire_position_after(fc, (n - 1) as nat)) {
                Some(cell) => prev.push(cell),
                None => prev,
            }
        }
    }

    /// A shot from firing position `fc` stays inside the firing order and
    /// fires from a column of the grid.
    pub open spec fn can_fire_after(&self, fc: int) -> bool {
        let p = next_fire_position(fc, self.num_x as int);
        &&& self.num_x >= 1
        &&& p < 10
        &&& (self.num_y == 0 || spec_firing_column(p) < self.num_x)
    }

    /// Each of `n` shots from firing position `fc` can be fired.
    pub open spec fn can_fire_volley(&self, fc: int, n: nat) -> bool {
        forall|t: nat| t < n ==> #[trigger] self.can_fire_after(self.fire_position_after(fc, t))
    }

    /// Builds a full grid of `x` by `y` enemies heading right, at level 0.
    pub fn new(x: usize, y: usize) -> (s: Swarm)
        requires
            x * y <= usize::MAX,
        ensures
            s.wf(),
            s.num_x == x,
            s.num_y == y,
            s.alive@ == Seq::new((x * y) as nat, |i: int| true),
            s.num_alive == x * y,
            s.movement == Movement::RIGHT,
            s.fire_column == 0,
            s.frame == 0,
            s.num_drops == 0,
            s.level == 0,
    {
        let n = x * y;
        let alive = Self::full_grid(n);
        Swarm {
            num_x: x,
            num_y: y,
            alive,
            num_alive: n,
            movement: Movement::RIGHT,
            fire_column: 0,
            frame: 0,
            num_drops: 0,
            level: 0,
        }
    }

    fn full_grid(n: usize) -> (v: Vec<bool>)
        ensures
            v@ == Seq::new(n as nat, |i: int| true),
            count_alive(v@) == n,
    {
        let mut v: Vec<bool> = Vec::new();
        let mut k: usize = 0;
        while k < n
            invariant
                k <= n,
                v@ == Seq::new(k as nat, |i: int| true),
            decreases n - k,
        {
            v.push(true);
            k = k + 1;
        }
        proof {
            lemma_count_alive_all(n as nat);
        }
        v
    }

    /// Resets the grid for a new game or the next wave: every enemy is alive
    /// again, the swarm heads right and fires from the start of its order,
    /// and no drop has been made; the next wave is one level up. A respawn
    /// leaves the swarm as it is.
    pub fn reset(&mut self, reset_type: ResetType)
        requires
            old(self).wf(),
            reset_type == ResetType::Next ==> old(self).level < usize::MAX,
        ensures
            final(self).wf(),
            final(self).num_x == old(self).num_x,
            final(self).num_y == old(self).num_y,
            final(self).frame == old(self).frame,
            reset_type == ResetType::Respawn ==> *final(self) == *old(self),
            reset_type != ResetType::Respawn ==> {
                &&& final(self).alive@ == Seq::new((old(self).num_x * old(self).num_y) as nat, |i: int| true)
                &&& final(self).num_alive == old(self).num_x * old(self).num_y
                &&& final(self).movement == Movement::RIGHT
                &&& final(self).fire_column == 0
                &&& final(self).num_drops == 0
            },
            final(self).level == if reset_type == ResetType::Next { old(self).level + 1 } else { old(self).level as int },
    {
        if reset_type == ResetType::Next {
            self.level = self.level + 1;
        } else if reset_type == ResetType::Respawn {
            return;
        }
        let n = self.alive.len();
        self.alive = Self::full_grid(n);
        self.num_alive = n;
        self.movement = Movement::RIGHT;
        self.fire_column = 0;
        self.num_drops = 0;
    }

    /// The number of times the swarm has dropped a row.
    pub fn get_num_drops(&self) -> (n: usize)
        ensures
            n == self.num_drops,
    {
        self.num_drops
    }

    /// The lowest row of column `col` whose enemy is alive, if any.
    pub fn get_lowest_in_column(&self, col: usize) -> (r: Option<usize>)
        requires
            self.alive@.len() == self.num_x * self.num_y,
            self.num_y == 0 || col < self.num_x,
        ensures
            r == (match self.spec_lowest_in_column(col as int) {
                Some(row) => Some(row as usize),
                None => None::<usize>,
            }),
            match r {
                Some(row) => row < self.num_y && self.alive@[cell_index(col as int, row as int, self.num_x as int)]
                    && forall|r2: int| row < r2 < self.num_y ==> !self.alive@[#[trigger] cell_index(col as int, r2, self.num_x as int)],
                None => forall|r2: int| 0 <= r2 < self.num_y ==> !self.alive@[#[trigger] cell_index(col as int, r2, self.num_x as int)],
            },
    {
        let len = self.alive.len();
        let mut row = self.num_y;
        while row > 0
            invariant
                len == self.alive@.len(),
                row <= self.num_y,
                self.num_y == 0 || col < self.num_x,
                self.alive@.len() == self.num_x * self.num_y,
                lowest_below(self.alive@, self.num_x as int, col as int, self.num_y as int)
                    == lowest_below(self.alive@, self.num_x as int, col as int, row as int),
            decreases row,
        {
            proof {
                lemma_cell_in_grid(col as int, row - 1, self.num_x as int, self.num_y as int);
            }
            if self.alive[(row - 1) * self.num_x + col] {
                assert(lowest_below(self.alive@, self.num_x as int, col as int, row as int) == Some(row - 1));
                proof {
                    lemma_lowest_below(self.alive@, self.num_x as int, col as int, self.num_y as int);
                }
                return Some(row - 1);
            }
            row = row - 1;
        }
        proof {
            lemma_lowest_below(self.alive@, self.num_x as int, col as int, self.num_y as int);
        }
        None
    }

    /// The leftmost column with a live enemy, if any.
    pub fn leftmost_column(&self) -> (r: Option<usize>)
        requires
            self.wf(),
        ensures
            match r {
                Some(c) => c < self.num_x && self.column_alive(c as int)
                    && forall|c2: int| 0 <= c2 < c ==> !#[trigger] self.column_alive(c2),
                None => forall|c2: int| 0 <= c2 < self.num_x ==> !#[trigger] self.column_alive(c2),
            },
    {
        let mut l: usize = 0;
        while l < self.num_x
            invariant
                l <= self.num_x,
                self.wf(),
                forall|c2: int| 0 <= c2 < l ==> !#[trigger] self.column_alive(c2),
            decreases self.num_x - l,
        {
            let low = self.get_lowest_in_column(l);
            if low.is_some() {
                return Some(l);
            }
            l = l + 1;
        }
        None
    }

    /// The rightmost column with a live enemy, if any.
    pub fn rightmost_column(&self) -> (r: Option<usize>)
        requires
            self.wf(),
        ensures
            match r {
                Some(c) => c < self.num_x && self.column_alive(c as int)
                    && forall|c2: int| c < c2 < self.num_x ==> !#[trigger] self.column_alive(c2),
                None => forall|c2: int| 0 <= c2 < self.num_x ==> !#[trigger] self.column_alive(c2),
            },
    {
        let mut r: usize = self.num_x;
        while r > 0
            invariant
                r <= self.num_x,
                self.wf(),
                forall|c2: int| r <= c2 < self.num_x ==> !#[trigger] self.column_alive(c2),
            decreases r,
        {
            let low = self.get_lowest_in_column(r - 1);
            if low.is_some() {
                return Some(r - 1);
            }
            r = r - 1;
        }
        None
    }

    /// Whether the next shot can be fired from where the firing order stands.
    pub fn can_fire(&self) -> (b: bool)
        ensures
            b == self.can_fire_after(self.fire_column as int),
    {
        self.can_fire_from(self.fire_column)
    }

    fn can_fire_from(&self, fc: usize) -> (b: bool)
        ensures
            b == self.can_fire_after(fc as int),
    {
        if self.num_x < 1 {
            return false;
        }
        let p = if fc >= self.num_x - 1 { 0 } else { fc + 1 };
        if p >= 10 {
            return false;
        }
        self.num_y == 0 || firing_column(p) < self.num_x
    }

    /// Whether the four shots of a volley can be fired from where the
    /// firing order stands.
    pub fn can_fire_volley_now(&self) -> (b: bool)
        ensures
            b == self.can_fire_volley(self.fire_column as int, 4),
    {
        let mut fc = self.fire_column;
        let mut t: usize = 0;
        while t < 4
            invariant
                t <= 4,
                fc == self.fire_position_after(self.fire_column as int, t as nat),
                forall|u: nat| u < t ==> #[trigger] self.can_fire_after(self.fire_position_after(self.fire_column as int, u)),
            decreases 4 - t,
        {
            if !self.can_fire_from(fc) {
                return false;
            }
            fc = if fc >= self.num_x - 1 { 0 } else { fc + 1 };
            t = t + 1;
        }
        true
    }

    /// Takes one step of the march. Heading right with room to spare it
    /// moves right; at the right edge it stops and turns to drop, then drops
    /// one row and heads left; to the left likewise. The animation frame
    /// flips at every step.
    pub fn move_step(&mut self, room_right: bool, room_left: bool) -> (r: Option<Shift>)
        requires
            old(self).movement is DOWN ==> old(self).num_drops < usize::MAX,
        ensures
            r == shift_of(old(self).movement, room_right, room_left),
            final(self).movement == next_movement(old(self).movement, room_right, room_left),
            final(self).num_drops == if old(self).movement is DOWN { old(self).num_drops + 1 } else { old(self).num_drops as int },
            final(self).frame == next_frame(old(self).frame),
            final(self).alive == old(self).alive,
            final(self).num_alive == old(self).num_alive,
            final(self).num_x == old(self).num_x,
            final(self).num_y == old(self).num_y,
            final(self).fire_column == old(self).fire_column,
            final(self).level == old(self).level,
    {
        let shift = match self.movement {
            Movement::RIGHT => {
                if room_right {
                    Some(Shift::Right)
                } else {
                    self.movement = Movement::DOWN(true);
                    None
                }
            },
            Movement::DOWN(right) => {
                self.num_drops = self.num_drops + 1;
                if right {
                    self.movement = Movement::LEFT;
                } else {
                    self.movement = Movement::RIGHT;
                }
                Some(Shift::Down)
            },
            Movement::LEFT => {
                if room_left {
                    Some(Shift::Left)
                } else {
                    self.movement = Movement::DOWN(false);
                    None
                }
            },
        };
        if self.frame == 0 {
            self.frame = 1;
        } else if self.frame == 1 {
            self.frame = 0;
        }
        shift
    }

    /// Moves the firing position on and returns the cell of the lowest live
    /// enemy in the column it names, if that column has one.
    pub fn next_spawn_cell(&mut self) -> (r: Option<(usize, usize)>)
        requires
            old(self).wf(),
            old(self).can_fire_after(old(self).fire_column as int),
        ensures
            r == old(self).spawn_after(old(self).fire_column as int),
            final(self).fire_column == next_fire_position(old(self).fire_column as int, old(self).num_x as int),
            final(self).alive == old(self).alive,
            final(self).num_alive == old(self).num_alive,
            final(self).num_x == old(self).num_x,
            final(self).num_y == old(self).num_y,
            final(self).movement == old(self).movement,
            final(self).frame == old(self).frame,
            final(self).num_drops == old(self).num_drops,
            final(self).level == old(self).level,
    {
        if self.fire_column >= self.num_x - 1 {
            self.fire_column = 0;
        } else {
            self.fire_column = self.fire_column + 1;
        }
        let col = firing_column(self.fire_column);
        match self.get_lowest_in_column(col) {
            Some(row) => Some((col, row)),
            None => None,
        }
    }

    /// Fires the four shots of one step of the march: the cells that the
    /// shots leave from, in order, leaving out the shots whose column has no
    /// live enemy.
    pub fn fire_volley(&mut self) -> (r: Vec<(usize, usize)>)
        requires
            old(self).wf(),
            old(self).can_fire_volley(old(self).fire_column as int, 4),
        ensures
            r@ == old(self).volley_from(old(self).fire_column as int, 4),
            final(self).fire_column == old(self).fire_position_after(old(self).fire_column as int, 4),
            final(self).alive == old(self).alive,
            final(self).num_alive == old(self).num_alive,
            final(self).num_x == old(self).num_x,
            final(self).num_y == old(self).num_y,
            final(self).movement == old(self).movement,
            final(self).frame == old(self).frame,
            final(self).num_drops == old(self).num_drops,
            final(self).level == old(self).level,
    {
        let ghost start = *self;
        let mut ret: Vec<(usize, usize)> = Vec::new();
        let mut i: usize = 0;
        while i < 4
            invariant
                i <= 4,
                self.wf(),
                start.can_fire_volley(start.fire_column as int, 4),
                self.fire_column == start.fire_position_after(start.fire_column as int, i as nat),
                ret@ == start.volley_from(start.fire_column as int, i as nat),
                self.alive == start.alive,
                self.num_alive == start.num_alive,
                self.num_x == start.num_x,
                self.num_y == start.num_y,
                self.movement == start.movement,
                self.frame == start.frame,
                self.num_drops == start.num_drops,
                self.level == start.level,
            decreases 4 - i,
        {
            assert(start.can_fire_after(start.fire_position_after(start.fire_column as int, i as nat)));
            if let Some(cell) = self.next_spawn_cell() {
                ret.push(cell);
            }
            i = i + 1;
        }
        ret
    }

    fn last_alive(&self) -> (r: Option<usize>)
        ensures
            match r {
                Some(i) => last_true_below(self.alive@, self.alive@.len() as int) == Some(i as int),
                None => last_true_below(self.alive@, self.alive@.len() as int) is None,
            },
    {
        let mut k = self.alive.len();
        while k > 0
            invariant
                k <= self.alive@.len(),
                last_true_below(self.alive@, self.alive@.len() as int) == last_true_below(self.alive@, k as int),
            decreases k,
        {
            if self.alive[k - 1] {
                return Some(k - 1);
            }
            k = k - 1;
        }
        None
    }

    /// The column and row of the last live enemy of the grid, the one the
    /// swarm's advance is measured by, if any enemy is alive.
    pub fn get_lowest_alive_cell(&self) -> (r: Option<(usize, usize)>)
        requires
            self.wf(),
        ensures
            r == self.spec_lowest_alive(),
    {
        proof {
            lemma_last_true_below(self.alive@, self.alive@.len() as int);
        }
        match self.last_alive() {
            Some(i) => {
                proof {
                    assert(self.num_x > 0) by (nonlinear_arith)
                        requires
                            i < self.num_x * self.num_y,
                            self.num_y >= 0,
                            self.num_x >= 0,
                    ;
                }
                Some((i % self.num_x, i / self.num_x))
            },
            None => None,
        }
    }

    /// Kills the last live enemy of the grid and returns its column and
    /// row; with no enemy alive it does nothing.
    pub fn kill_last_alive(&mut self) -> (r: Option<(usize, usize)>)
        requires
            old(self).wf(),
        ensures
            final(self).wf(),
            r == old(self).spec_lowest_alive(),
            match last_true_below(old(self).alive@, old(self).alive@.len() as int) {
                Some(i) => final(self).alive@ == old(self).alive@.update(i, false)
                    && final(self).num_alive == old(self).num_alive - 1,
                None => final(self).alive@ == old(self).alive@ && final(self).num_alive == old(self).num_alive,
            },
            final(self).num_x == old(self).num_x,
            final(self).num_y == old(self).num_y,
            final(self).movement == old(self).movement,
            final(self).fire_column == old(self).fire_column,
            final(self).frame == old(self).frame,
            final(self).num_drops == old(self).num_drops,
            final(self).level == old(self).level,
    {
        let cell = self.get_lowest_alive_cell();
        proof {
            lemma_last_true_below(self.alive@, self.alive@.len() as int);
        }
        match self.last_alive() {
            Some(i) => {
                proof {
                    lemma_count_alive_kill(self.alive@, i as int);
                }
                self.alive[i] = false;
                self.num_alive = self.num_alive - 1;
            },
            None => {},
        }
        cell
    }

    /// Kills every live enemy, from the last cell of the grid to the first,
    /// and returns the cells killed in that order.
    pub fn kill_all(&mut self) -> (r: Vec<(usize, usize)>)
        requires
            old(self).wf(),
        ensures
            final(self).wf(),
            r@ == cells_desc(old(self).alive@, old(self).num_x as int, old(self).alive@.len() as int),
            final(self).alive@ == Seq::new(old(self).alive@.len(), |i: int| false),
            final(self).num_alive == 0,
            final(self).num_x == old(self).num_x,
            final(self).num_y == old(self).num_y,
            final(self).movement == old(self).movement,
            final(self).fire_column == old(self).fire_column,
            final(self).frame == old(self).frame,
            final(self).num_drops == old(self).num_drops,
            final(self).level == old(self).level,
    {
        let ghost orig = self.alive@;
        let ghost start = *self;
        let n = self.alive.len();
        let mut r: Vec<(usize, usize)> = Vec::new();
        let mut k: usize = n;
        assert(orig =~= orig.take(n as int) + Seq::new((n - n) as nat, |i: int| false));
        while k > 0
            invariant
                k <= n,
                n == orig.len(),
                orig == start.alive@,
                orig.len() == start.num_x * start.num_y,
                self.alive@ =~= orig.take(k as int) + Seq::new((n - k) as nat, |i: int| false),
                self.num_alive == count_alive(self.alive@),
                r@ + cells_desc(orig, start.num_x as int, k as int) == cells_desc(orig, start.num_x as int, n as int),
                self.num_x == start.num_x,
                self.num_y == start.num_y,
                self.movement == start.movement,
                self.fire_column == start.fire_column,
                self.frame == start.frame,
                self.num_drops == start.num_drops,
                self.level == start.level,
            decreases k,
        {
            let i = k - 1;
            assert(self.alive@[i as int] == orig[i as int]);
            let ghost before = self.alive@;
            if self.alive[i] {
                proof {
                    lemma_count_alive_kill(self.alive@, i as int);
                    assert(self.num_x > 0) by (nonlinear_arith)
                        requires
                            i < self.num_x * self.num_y,
                            self.num_y >= 0,
                            self.num_x >= 0,
                    ;
                }
                self.alive[i] = false;
                self.num_alive = self.num_alive - 1;
                let cell = (i % self.num_x, i / self.num_x);
                r.push(cell);
                proof {
                    assert(cells_desc(orig, start.num_x as int, k as int)
                        == seq![cell] + cells_desc(orig, start.num_x as int, i as int));
                    assert(r@ + cells_desc(orig, start.num_x as int, i as int)
                        =~= cells_desc(orig, start.num_x as int, n as int));
                }
            } else {
                assert(cells_desc(orig, start.num_x as int, k as int) == cells_desc(orig, start.num_x as int, i as int));
            }
            assert(self.alive@ =~= orig.take(i as int) + Seq::new((n - i) as nat, |j: int| false));
            k = i;
        }
        proof {
            assert(cells_desc(orig, start.num_x as int, 0) == Seq::<(usize, usize)>::empty());
            assert(r@ == r@ + Seq::<(usize, usize)>::empty());
            assert(self.alive@ =~= Seq::new(n as nat, |i: int| false));
            lemma_count_alive_none(self.alive@);
        }
        r
    }

    /// A shot of the player's lands over the enemy in `cell`, or over no
    /// enemy (`None`). A live enemy there dies, and the hit's points and the
    /// cell are returned: a bomb is worth 30, an ordinary shot the value of
    /// the enemy's row scaled by the level.
    ///
    /// The scaling is computed in single precision, which gives exactly the
    /// row value times three halves of the level up to `max_exact_level` of
    /// the row (372828 for the top row, 1118482 below it) and a rounded
    /// value above. An ordinary hit on a live enemy is taken only up to that
    /// level; a bomb, a miss and a dead cell at any level.
    pub fn check_hit(&mut self, cell: Option<(usize, usize)>, ability: Ability) -> (r: Option<(i32, (usize, usize))>)
        requires
            old(self).wf(),
            cell matches Some((x, y)) ==> cell_index(x as int, y as int, old(self).num_x as int) < old(self).alive@.len(),
            cell matches Some((x, y)) ==> (ability == Ability::Normal
                && old(self).alive@[cell_index(x as int, y as int, old(self).num_x as int)] ==> y < 5),
            cell matches Some((x, y)) ==> (ability == Ability::Normal
                && old(self).alive@[cell_index(x as int, y as int, old(self).num_x as int)]
                ==> old(self).level <= max_exact_level(y as int)),
        ensures
            final(self).wf(),
            final(self).alive@ == alive_after_hit(old(self).alive@, old(self).num_x as int, cell),
            r == hit_result(old(self).alive@, old(self).num_x as int, old(self).level as int, cell, ability),
            match cell {
                Some((x, y)) => {
                    let k = cell_index(x as int, y as int, old(self).num_x as int);
                    if old(self).alive@[k] {
                        &&& final(self).alive@ == old(self).alive@.update(k, false)
                        &&& final(self).num_alive == old(self).num_alive - 1
                        &&& r == Some((old(self).hit_points(y as int, ability) as i32, (x, y)))
                    } else {
                        &&& final(self).alive@ == old(self).alive@
                        &&& final(self).num_alive == old(self).num_alive
                        &&& r is None
                    }
                },
                None => final(self).alive@ == old(self).alive@ && final(self).num_alive == old(self).num_alive && r is None,
            },
            final(self).num_x == old(self).num_x,
            final(self).num_y == old(self).num_y,
            final(self).movement == old(self).movement,
            final(self).fire_column == old(self).fire_column,
            final(self).frame == old(self).frame,
            final(self).num_drops == old(self).num_drops,
            final(self).level == old(self).level,
    {
        match cell {
            Some((x, y)) => {
                let len = self.alive.len();
                let k = x + y * self.num_x;
                if self.alive[k] {
                    proof {
                        lemma_count_alive_kill(self.alive@, k as int);
                    }
                    self.alive[k] = false;
                    self.num_alive = self.num_alive - 1;
                    let points: i32 = if ability == Ability::Bomb {
                        30
                    } else {
                        let base: i32 = if y == 0 { 30 } else if y <= 2 { 20 } else { 10 };
                        Self::scale_points(base, self.level)
                    };
                    Some((points, (x, y)))
                } else {
                    None
                }
            },
            None => None,
        }
    }

    /// `base` scaled by the level as the scoring rule has it.
    fn scale_points(base: i32, level: usize) -> (p: i32)
        requires
            base == 30 || base == 20 || base == 10,
            level <= if base == 30 { MAX_EXACT_LEVEL_TOP_ROW } else { MAX_EXACT_LEVEL_LOWER_ROWS },
        ensures
            p == scaled_points(base as int, level as int),
    {
        if level >= 1 {
            let l = level as i32;
            assert(base * 3 * l <= 30 * 3 * 1118482) by (nonlinear_arith)
                requires
                    0 <= base <= 30,
                    0 <= l <= 1118482,
            ;
            assert(base * 3 * l >= 0) by (nonlinear_arith)
                requires
                    0 <= base,
                    0 <= l,
            ;
            base * 3 * l / 2
        } else {
            base
        }
    }
}

/// At the right edge the swarm stops, then drops exactly one row and heads
/// left; at the left edge likewise, heading right after the drop.
pub proof fn lemma_swarm_turns_at_edges(room: bool)
    ensures
        shift_of(Movement::RIGHT, false, room) is None,
        next_movement(Movement::RIGHT, false, room) == Movement::DOWN(true),
        shift_of(Movement::DOWN(true), room, room) == Some(Shift::Down),
        next_movement(Movement::DOWN(true), room, room) == Movement::LEFT,
        shift_of(Movement::LEFT, room, false) is None,
        next_movement(Movement::LEFT, room, false) == Movement::DOWN(false),
        shift_of(Movement::DOWN(false), room, room) == Some(Shift::Down),
        next_movement(Movement::DOWN(false), room, room) == Movement::RIGHT,
{
}

/// The swarm fires from the positions of its firing order in turn,
/// wrapping after `num_x` positions: `t` shots after position `fc` it is at
/// position `(fc + t) % num_x`, so every `num_x` shots it is back where it
/// started.
pub proof fn lemma_firing_order_cycles(s: Swarm, fc: int, t: nat)
    requires
        s.num_x >= 1,
        0 <= fc < s.num_x,
    ensures
        s.fire_position_after(fc, t) == (fc + t) % (s.num_x as int),
        s.fire_position_after(fc, s.num_x as nat) == fc,
{
    lemma_fire_position_mod(s, fc, t);
    lemma_firing_order_cycles_full(s, fc);
}

proof fn lemma_firing_order_cycles_full(s: Swarm, fc: int)
    requires
        s.num_x >= 1,
        0 <= fc < s.num_x,
    ensures
        s.fire_position_after(fc, s.num_x as nat) == fc,
{
    let n = s.num_x as int;
    assert forall|t: nat| t <= n implies #[trigger] s.fire_position_after(fc, t) == (fc + t) % n by {
        lemma_fire_position_mod(s, fc, t);
    }
    assert((fc + n) % n == fc) by (nonlinear_arith)
        requires n >= 1, 0 <= fc < n;
}

proof fn lemma_fire_position_mod(s: Swarm, fc: int, t: nat)
    requires
        s.num_x >= 1,
        0 <= fc < s.num_x,
    ensures
        s.fire_position_after(fc, t) == (fc + t) % (s.num_x as int),
    decreases t,
{
    let n = s.num_x as int;
    if t == 0 {
        assert(fc % n == fc) by (nonlinear_arith)
            requires n >= 1, 0 <= fc < n;
    } else {
        lemma_fire_position_mod(s, fc, (t - 1) as nat);
        let p = (fc + t - 1) % n;
        assert(0 <= p < n) by (nonlinear_arith)
            requires n >= 1, p == (fc + t - 1) % n;
        if p >= n - 1 {
            assert((fc + t) % n == 0) by (nonlinear_arith)
                requires n >= 1, p == (fc + t - 1) % n, p == n - 1, fc + t - 1 >= 0;
        } else {
            assert((fc + t) % n == p + 1) by (nonlinear_arith)
                requires n >= 1, p == (fc + t - 1) % n, 0 <= p < n - 1, fc + t - 1 >= 0;
        }
    }
}

/// A hit is never worth less than its base value: the level only ever
/// raises the points.
pub proof fn lemma_points_at_least_base(base: int, level: int)
    requires
        base >= 0,
    ensures
        scaled_points(base, level) >= base,
{
    if level >= 1 {
        assert(base * 3 * level / 2 >= base) by (nonlinear_arith)
            requires base >= 0, level >= 1;
    }
}

/// Killing off the swarm one enemy at a time ends: while an enemy is alive
/// the last one dies and the count of live enemies drops by one, and once
/// none is alive nothing is killed.
pub proof fn lemma_kill_last_alive_progress(s: Swarm)
    requires
        s.wf(),
    ensures
        s.num_alive > 0 <==> last_true_below(s.alive@, s.alive@.len() as int) is Some,
        s.num_alive > 0 <==> s.spec_lowest_alive() is Some,
{
    lemma_last_true_below(s.alive@, s.alive@.len() as int);
    match last_true_below(s.alive@, s.alive@.len() as int) {
        Some(i) => lemma_count_alive_positive(s.alive@, i),
        None => lemma_count_alive_none(s.alive@),
    }
}

/// An enemy already killed is not hit or scored again: after a shot over a
/// cell, a second shot over the same cell, of either kind, scores nothing
/// and leaves the grid as it is.
pub proof fn lemma_killed_enemy_not_hit_again(
    alive: Seq<bool>,
    num_x: int,
    level: int,
    cell: Option<(usize, usize)>,
    second: Ability,
)
    requires
        cell matches Some((x, y)) ==> 0 <= cell_index(x as int, y as int, num_x) < alive.len(),
    ensures
        hit_result(alive_after_hit(alive, num_x, cell), num_x, level, cell, second) is None,
        alive_after_hit(alive_after_hit(alive, num_x, cell), num_x, cell) == alive_after_hit(alive, num_x, cell),
{
}

/// The swarm marches on while it has room on the side it heads to, whatever
/// the room on the other side: heading right with room on the right it
/// moves right and keeps heading right, and heading left with room on the
/// left it moves left and keeps heading left. How it steps when heading one
/// way never depends on the room on the other side, and a drop is made
/// whatever the room on either side.
pub proof fn lemma_swarm_marches_while_room(r: bool, l: bool, r2: bool, l2: bool, right: bool)
    ensures
        shift_of(Movement::RIGHT, true, l) == Some(Shift::Right),
        next_movement(Movement::RIGHT, true, l) == Movement::RIGHT,
        shift_of(Movement::LEFT, r, true) == Some(Shift::Left),
        next_movement(Movement::LEFT, r, true) == Movement::LEFT,
        shift_of(Movement::RIGHT, r, l) == shift_of(Movement::RIGHT, r, l2),
        next_movement(Movement::RIGHT, r, l) == next_movement(Movement::RIGHT, r, l2),
        shift_of(Movement::LEFT, r, l) == shift_of(Movement::LEFT, r2, l),
        next_movement(Movement::LEFT, r, l) == next_movement(Movement::LEFT, r2, l),
        shift_of(Movement::DOWN(right), r, l) == Some(Shift::Down),
        next_movement(Movement::DOWN(right), r, l) == next_movement(Movement::DOWN(right), r2, l2),
{
}

/// Each shot of a volley is fired on its own: the shots of the first `t`
/// positions come first, in order, and the shot of position `t`, where its
/// column has a live enemy, comes right after them; a volley of `n` shots
/// never has more than `n`.
pub proof fn lemma_volley_fires_each_live_column(s: Swarm, fc: int, t: nat, n: nat)
    requires
        t < n,
    ensures
        s.volley_from(fc, t).len() <= t,
        s.volley_from(fc, n).len() <= n,
        s.volley_from(fc, n).take(s.volley_from(fc, t).len() as int) == s.volley_from(fc, t),
        s.spawn_after(s.fire_position_after(fc, t)) matches Some(c) ==>
            s.volley_from(fc, n).len() > s.volley_from(fc, t).len()
            && s.volley_from(fc, n)[s.volley_from(fc, t).len() as int] == c,
        s.spawn_after(s.fire_position_after(fc, t)) is None ==>
            s.volley_from(fc, t + 1) == s.volley_from(fc, t),
    decreases n,
{
    lemma_volley_prefix(s, fc, t, n);
    lemma_volley_prefix(s, fc, t + 1, n);
    lemma_volley_len(s, fc, n);
    lemma_volley_len(s, fc, t);
    assert(((t + 1) as nat - 1) as nat == t);
    let a = s.volley_from(fc, t);
    let b = s.volley_from(fc, (t + 1) as nat);
    let v = s.volley_from(fc, n);
    if let Some(c) = s.spawn_after(s.fire_position_after(fc, t)) {
        assert(b == a.push(c));
        assert(v.take(b.len() as int) == b);
        assert(v.take(b.len() as int)[a.len() as int] == v[a.len() as int]);
    }
}

proof fn lemma_volley_len(s: Swarm, fc: int, n: nat)
    ensures
        s.volley_from(fc, n).len() <= n,
    decreases n,
{
    if n > 0 {
        lemma_volley_len(s, fc, (n - 1) as nat);
    }
}

proof fn lemma_volley_prefix(s: Swarm, fc: int, t: nat, n: nat)
    requires
        t <= n,
    ensures
        s.volley_from(fc, t).len() <= s.volley_from(fc, n).len(),
        s.volley_from(fc, n).take(s.volley_from(fc, t).len() as int) == s.volley_from(fc, t),
    decreases n,
{
    if t == n {
        assert(s.volley_from(fc, n).take(s.volley_from(fc, n).len() as int) == s.volley_from(fc, n));
    } else {
        lemma_volley_prefix(s, fc, t, (n - 1) as nat);
        let p = s.volley_from(fc, (n - 1) as nat);
        let q = s.volley_from(fc, n);
        let k = s.volley_from(fc, t).len() as int;
        if let Some(c) = s.spawn_after(s.fire_position_after(fc, (n - 1) as nat)) {
            assert(q == p.push(c));
            assert(q.take(k) =~= p.take(k));
        }
    }
}

} // verus!
