use vstd::prelude::*;

verus! {

/// The state of one block of a shield. A full block takes two hits to clear.
#[derive(Copy, Clone, PartialEq, Eq, Structural, Debug)]
pub enum BlockState {
    Empty,
    Hit,
    Full,
}

/// What one more hit makes of a block: full becomes hit, hit becomes empty,
/// and an empty block stays empty.
pub open spec fn damaged(s: BlockState) -> BlockState {
    match s {
        BlockState::Full => BlockState::Hit,
        BlockState::Hit => BlockState::Empty,
        BlockState::Empty => BlockState::Empty,
    }
}

/// The number of blocks in `s` that are in state `which`.
pub open spec fn count_state(s: Seq<BlockState>, which: BlockState) -> nat
    decreases s.len(),
{
    if s.len() == 0 {
        0
    } else {
        count_state(s.drop_last(), which) + if s.last() == which { 1nat } else { 0nat }
    }
}

/// The number of blocks in `s` that are not empty.
pub open spec fn count_standing(s: Seq<BlockState>) -> nat
    decreases s.len(),
{
    if s.len() == 0 {
        0
    } else {
        count_standing(s.drop_last()) + if s.last() != BlockState::Empty { 1nat } else { 0nat }
    }
}

/// The index in the 5x5 grid of the block in column `i` and row `j`.
pub open spec fn block_index(i: int, j: int) -> int {
    i + j * 5
}

proof fn lemma_count_bound(s: Seq<BlockState>, which: BlockState)
    ensures
        count_state(s, which) <= s.len(),
        count_standing(s) <= s.len(),
    decreases s.len(),
{
    if s.len() > 0 {
        lemma_count_bound(s.drop_last(), which);
    }
}

/// A shield is a 5x5 grid of blocks, stored row by row. It remembers the
/// layout it was built with so that it can be rebuilt, and how many full
/// blocks that layout had. Where the shield stands on screen is kept by
/// the application.
pub struct Shield {
    pub b: [BlockState; 25],
    pub def: [BlockState; 25],
    pub num_full: usize,
}

impl Shield {
    /// Builds a shield with the given layout, counting its full blocks.
    pub fn new(block_state: [BlockState; 25]) -> (s: Shield)
        ensures
            s.b@ == block_state@,
            s.def@ == block_state@,
            s.num_full == count_state(block_state@, BlockState::Full),
    {
        let mut num_full: usize = 0;
        let mut k: usize = 0;
        while k < 25
            invariant
                k <= 25,
                block_state@.len() == 25,
                num_full == count_state(block_state@.take(k as int), BlockState::Full),
            decreases 25 - k,
        {
            proof {
                lemma_count_bound(block_state@.take(k as int), BlockState::Full);
                assert(block_state@.take(k + 1).drop_last() == block_state@.take(k as int));
            }
            if block_state[k] == BlockState::Full {
                num_full = num_full + 1;
            }
            k = k + 1;
        }
        assert(block_state@.take(25) == block_state@);
        Shield { b: block_state, def: block_state, num_full }
    }

    /// Rebuilds every block as it was when the shield was made.
    pub fn reset(&mut self)
        ensures
            final(self).b@ == old(self).def@,
            final(self).def@ == old(self).def@,
            final(self).num_full == old(self).num_full,
    {
        self.b = self.def;
    }

    /// The number of blocks that are not yet cleared.
    pub fn num_standing(&self) -> (n: usize)
        ensures
            n == count_standing(self.b@),
    {
        let mut n: usize = 0;
        let mut k: usize = 0;
        while k < 25
            invariant
                k <= 25,
                self.b@.len() == 25,
                n == count_standing(self.b@.take(k as int)),
            decreases 25 - k,
        {
            proof {
                lemma_count_bound(self.b@.take(k as int), BlockState::Full);
                assert(self.b@.take(k + 1).drop_last() == self.b@.take(k as int));
            }
            if self.b[k] != BlockState::Empty {
                n = n + 1;
            }
            k = k + 1;
        }
        assert(self.b@.take(25) == self.b@);
        n
    }

    /// Whether a bullet over block `(i, j)` of the grid hits it: it does
    /// when that block is not empty. `cell` is the block under the bullet,
    /// or `None` where the bullet is outside the shield.
    pub fn check_hit(&self, cell: Option<(usize, usize)>) -> (r: Option<(usize, usize)>)
        requires
            cell matches Some((i, j)) ==> block_index(i as int, j as int) < 25,
        ensures
            r == (match cell {
                Some((i, j)) => if self.b@[block_index(i as int, j as int)] != BlockState::Empty {
                    Some((i, j))
                } else {
                    None::<(usize, usize)>
                },
                None => None,
            }),
    {
        match cell {
            Some((i, j)) => {
                if self.b[i + j * 5] != BlockState::Empty {
                    Some((i, j))
                } else {
                    None
                }
            },
            None => None,
        }
    }

    /// Hits block `(i, j)` once and returns what is left of it.
    pub fn damage(&mut self, i: usize, j: usize) -> (r: BlockState)
        requires
            block_index(i as int, j as int) < 25,
        ensures
            final(self).b@ == old(self).b@.update(
                block_index(i as int, j as int),
                damaged(old(self).b@[block_index(i as int, j as int)]),
            ),
            final(self).def@ == old(self).def@,
            final(self).num_full == old(self).num_full,
            r == damaged(old(self).b@[block_index(i as int, j as int)]),
    {
        let k = i + j * 5;
        match self.b[k] {
            BlockState::Hit => {
                self.b[k] = BlockState::Empty;
            },
            BlockState::Full => {
                self.b[k] = BlockState::Hit;
            },
            _ => {},
        }
        self.b[k]
    }
}

/// A full block takes exactly two hits to clear: the first leaves it hit,
/// the second empty, and an empty block stays empty under further hits.
pub proof fn lemma_full_block_takes_two_hits()
    ensures
        damaged(BlockState::Full) == BlockState::Hit,
        damaged(damaged(BlockState::Full)) == BlockState::Empty,
        damaged(BlockState::Empty) == BlockState::Empty,
{
}

/// Shields only wear down: a hit on any block never raises the number of
/// blocks still standing, and lowers it by one exactly when it clears a
/// block.
pub proof fn lemma_damage_never_raises_standing(b: Seq<BlockState>, k: int)
    requires
        0 <= k < b.len(),
    ensures
        count_standing(b.update(k, damaged(b[k]))) <= count_standing(b),
        count_standing(b.update(k, damaged(b[k]))) + 1 == count_standing(b) <==> b[k] == BlockState::Hit,
    decreases b.len(),
{
    if k == b.len() - 1 {
        assert(b.update(k, damaged(b[k])).drop_last() == b.drop_last());
    } else {
        assert(b.update(k, damaged(b[k])).drop_last() == b.drop_last().update(k, damaged(b[k])));
        lemma_damage_never_raises_standing(b.drop_last(), k);
    }
}

/// A block that a bullet no longer hits stays that way until the shield
/// is rebuilt: damage leaves an empty block empty, so a later check over
/// it finds nothing.
pub proof fn lemma_cleared_block_stays_clear(b: Seq<BlockState>, k: int, k2: int)
    requires
        0 <= k < b.len(),
        0 <= k2 < b.len(),
        b[k] == BlockState::Empty,
    ensures
        b.update(k2, damaged(b[k2]))[k] == BlockState::Empty,
{
}

/// The block grids of `shields`, in order.
pub open spec fn grids(shields: Seq<Shield>) -> Seq<Seq<BlockState>> {
    shields.map_values(|sh: Shield| sh.b@)
}

/// The block grids after the hits of `hits` land one after the other; a
/// hit `(s, i, j)` lands on block `(i, j)` of shield `s`.
pub open spec fn grids_after(g: Seq<Seq<BlockState>>, hits: Seq<(usize, usize, usize)>) -> Seq<Seq<BlockState>>
    decreases hits.len(),
{
    if hits.len() == 0 {
        g
    } else {
        let before = grids_after(g, hits.drop_last());
        let (s, i, j) = hits.last();
        let k = block_index(i as int, j as int);
        before.update(s as int, before[s as int].update(k, damaged(before[s as int][k])))
    }
}

/// Every hit of `hits` lands on a shield of the `n` there are, inside its grid.
pub open spec fn hits_in_range(hits: Seq<(usize, usize, usize)>, n: int) -> bool {
    forall|k: int| 0 <= k < hits.len() ==> {
        let (s, i, j) = #[trigger] hits[k];
        s < n && block_index(i as int, j as int) < 25
    }
}

/// Lands a list of hits on the shields, one after the other, and returns,
/// for each hit in order, the shield it landed on, the index of the block
/// it hit in that shield's grid, and what is left of that block.
pub fn damage_shields(shields: &mut Vec<Shield>, hits: &Vec<(usize, usize, usize)>) -> (r: Vec<(usize, usize, BlockState)>)
    requires
        hits_in_range(hits@, old(shields)@.len() as int),
    ensures
        final(shields)@.len() == old(shields)@.len(),
        grids(final(shields)@) == grids_after(grids(old(shields)@), hits@),
        forall|s: int| 0 <= s < old(shields)@.len() ==>
            (#[trigger] final(shields)@[s]).def == old(shields)@[s].def && final(shields)@[s].num_full == old(shields)@[s].num_full,
        r@.len() == hits@.len(),
        forall|k: int| 0 <= k < hits@.len() ==> {
            let (s, i, j) = #[trigger] hits@[k];
            let bi = block_index(i as int, j as int);
            &&& r@[k].0 == s
            &&& r@[k].1 == bi
            &&& r@[k].2 == grids_after(grids(old(shields)@), hits@.take(k + 1))[s as int][bi]
        },
{
    let ghost g0 = grids(old(shields)@);
    let ghost start = old(shields)@;
    let mut r: Vec<(usize, usize, BlockState)> = Vec::new();
    let mut k: usize = 0;
    proof {
        assert(hits@.take(0) == Seq::<(usize, usize, usize)>::empty());
    }
    while k < hits.len()
        invariant
            k <= hits@.len(),
            hits_in_range(hits@, start.len() as int),
            shields@.len() == start.len(),
            g0 == grids(start),
            grids(shields@) == grids_after(g0, hits@.take(k as int)),
            forall|s: int| 0 <= s < start.len() ==>
                (#[trigger] shields@[s]).def == start[s].def && shields@[s].num_full == start[s].num_full,
            r@.len() == k,
            forall|m: int| 0 <= m < k ==> {
                let (s, i, j) = #[trigger] hits@[m];
                let bi = block_index(i as int, j as int);
                &&& r@[m].0 == s
                &&& r@[m].1 == bi
                &&& r@[m].2 == grids_after(g0, hits@.take(m + 1))[s as int][bi]
            },
        decreases hits@.len() - k,
    {
        let (s, i, j) = hits[k];
        assert(hits@[k as int] == (s, i, j));
        let ghost before = shields@;
        let mut sh = shields.remove(s);
        let state = sh.damage(i, j);
        shields.insert(s, sh);
        proof {
            let bi = block_index(i as int, j as int);
            assert(hits@.take(k + 1).drop_last() == hits@.take(k as int));
            assert(hits@.take(k + 1).last() == (s, i, j));
            assert(grids(before)[s as int] == before[s as int].b@);
            assert(shields@ == before.update(s as int, shields@[s as int]));
            assert(grids(shields@) =~= grids(before).update(s as int, grids(before)[s as int].update(bi, damaged(grids(before)[s as int][bi]))));
            assert forall|t: int| 0 <= t < start.len() implies
                (#[trigger] shields@[t]).def == start[t].def && shields@[t].num_full == start[t].num_full by {
                if t != s as int {
                    assert(shields@[t] == before[t]);
                }
            }
        }
        r.push((s, i + j * 5, state));
        k = k + 1;
    }
    assert(hits@.take(hits@.len() as int) == hits@);
    r
}

} // verus!
