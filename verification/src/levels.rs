//! The levels of a game: how large the maze of each is, and the store that
//! keeps each level once it has been generated.

use std::collections::HashMap;
use vstd::prelude::*;
use crate::block::Block;
use crate::error::Error;
use crate::grid::rows_of;
use crate::maze::is_maze;
use crate::maze_gen::generate_maze;

verus! {

/// The number of nodes, along each axis, of the maze of the level with this
/// id.
pub open spec fn node_count(level_id: u32) -> int {
    13 + 2 * level_id
}

/// The number of nodes, along each axis, of the maze of the level with this
/// id: 13 and two more for each level.
pub fn level_node_size(level_id: u32) -> (r: usize)
    requires
        node_count(level_id) <= usize::MAX,
    ensures
        r == node_count(level_id),
{
    13 + 2 * level_id as usize
}

/// A copy of a level grid.
fn copy_grid(level: &Vec<Vec<Block>>) -> (r: Vec<Vec<Block>>)
    ensures
        rows_of(r@) == rows_of(level@),
{
    let mut out: Vec<Vec<Block>> = Vec::new();
    let mut y: usize = 0;
    while y < level.len()
        invariant
            y <= level.len(),
            out.len() == y,
            forall|j: int| 0 <= j < y ==> (#[trigger] out[j])@ == level[j]@,
        decreases level.len() - y,
    {
        let line = &level[y];
        let mut row: Vec<Block> = Vec::new();
        let mut x: usize = 0;
        while x < line.len()
            invariant
                x <= line.len(),
                row@ == line@.subrange(0, x as int),
            decreases line.len() - x,
        {
            row.push(line[x]);
            assert(row@ =~= line@.subrange(0, x as int + 1));
            x += 1;
        }
        assert(row@ =~= line@);
        out.push(row);
        y += 1;
    }
    assert(rows_of(out@) =~= rows_of(level@));
    out
}

/// The levels generated so far, by id. A level, once generated, stays as it
/// is.
pub struct Levels {
    levels: HashMap<u32, Vec<Vec<Block>>>,
}

impl Levels {
    /// The grids of the levels generated so far, by id.
    pub closed spec fn view(&self) -> Map<u32, Seq<Seq<Block>>> {
        Map::new(|id: u32| self.levels@.contains_key(id), |id: u32| rows_of(self.levels@[id]@))
    }

    /// Each level in the store is a maze of the size that its id asks for.
    pub closed spec fn wf(&self) -> bool {
        forall|id: u32| #[trigger]
            self.levels@.contains_key(id) ==> is_maze(
                rows_of(self.levels@[id]@),
                node_count(id),
                node_count(id),
            )
    }

    /// A store without levels.
    pub fn new() -> (r: Levels)
        ensures
            r.wf(),
            r@ == Map::<u32, Seq<Seq<Block>>>::empty(),
    {
        let r = Levels { levels: HashMap::new() };
        assert(r@ =~= Map::<u32, Seq<Seq<Block>>>::empty());
        r
    }

    /// The grid of the level with this id: the one in the store, or, if the
    /// store has none, a maze generated now and kept from now on.
    pub fn get_level(&mut self, level_id: u32) -> (r: Result<Vec<Vec<Block>>, Error>)
        requires
            old(self).wf(),
            2 * node_count(level_id) + 1 <= usize::MAX,
        ensures
            final(self).wf(),
            r matches Ok(grid) && {
                &&& final(self)@ == old(self)@.insert(level_id, rows_of(grid@))
                &&& old(self)@.contains_key(level_id) ==> rows_of(grid@) == old(self)@[level_id]
                &&& is_maze(rows_of(grid@), node_count(level_id), node_count(level_id))
            },
    {
        if let Some(block) = self.levels.get(&level_id) {
            let r = copy_grid(block);
            assert(self@ =~= old(self)@.insert(level_id, rows_of(r@)));
            Ok(r)
        } else {
            let size = level_node_size(level_id);
            match generate_maze((size, size)) {
                Ok(grid) => {
                    let r = copy_grid(&grid);
                    self.levels.insert(level_id, grid);
                    assert(self@ =~= old(self)@.insert(level_id, rows_of(r@)));
                    Ok(r)
                },
                Err(e) => Err(e),
            }
        }
    }
}

} // verus!
