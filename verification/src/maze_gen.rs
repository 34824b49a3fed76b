//! The maze generator: a randomised depth-first walk over a grid of nodes
//! that carves corridors into a grid of `Dirt`.

use vstd::prelude::*;
use crate::block::Block;
use crate::chance::random_below;
use crate::carving::{
    can_go, carved, carving, extended, is_free, lemma_begin, lemma_carve, lemma_finish,
    is_node, lemma_open_dirs, lemma_retreat, open_dirs, target, top, visit, Dir, Free,
};
use crate::error::Error;
use crate::grid::{count_cells, has_shape, in_grid, rows_of, with_cell};
use crate::maze::{is_maze, node_cell, Cells};

verus! {

/// The index, along one axis of the block grid, of the cell that stands for
/// the node `value`.
pub fn node_to_block(value: usize) -> (r: usize)
    requires
        2 * value + 1 <= usize::MAX,
    ensures
        r == node_cell(value as int),
{
    value * 2 + 1
}

/// Replaces the cell `(i, j)` of a grid.
fn set_cell<T>(grid: &mut Vec<Vec<T>>, i: usize, j: usize, v: T)
    requires
        in_grid(rows_of(old(grid)@), i as int, j as int),
    ensures
        rows_of(final(grid)@) == with_cell(rows_of(old(grid)@), i as int, j as int, v),
{
    grid[i][j] = v;
    assert(rows_of(grid@) =~= with_cell(rows_of(old(grid)@), i as int, j as int, v));
}

/// A maze in the making: the block grid, which nodes are still to be
/// visited, and the trail of nodes from the start to the node that the walk
/// stands on. A node is named by its column and its row, as `(x, y)`; the
/// grids are kept row by row, so that the node stands at `[y][x]`.
pub struct Carver {
    blocks: Vec<Vec<Block>>,
    point_free: Vec<Vec<bool>>,
    position_stack: Vec<(usize, usize)>,
    node_size: (usize, usize),
    start: (usize, usize),
}

impl Carver {
    /// The block grid as carved so far.
    pub closed spec fn grid(&self) -> Cells {
        rows_of(self.blocks@)
    }

    /// For each node, whether the walk has not visited it yet.
    pub closed spec fn free(&self) -> Free {
        rows_of(self.point_free@)
    }

    /// The nodes from the start to the node that the walk stands on.
    pub closed spec fn trail(&self) -> Seq<(usize, usize)> {
        self.position_stack@
    }

    /// The number of nodes along each axis.
    pub closed spec fn node_size(&self) -> (usize, usize) {
        self.node_size
    }

    /// The node that the walk began at.
    pub closed spec fn start(&self) -> (usize, usize) {
        self.start
    }

    /// The maze is in a state that carving steps lead to and keep.
    pub closed spec fn wf(&self) -> bool {
        &&& 2 * self.node_size.0 + 1 <= usize::MAX
        &&& 2 * self.node_size.1 + 1 <= usize::MAX
        &&& carving(
            self.grid(),
            self.free(),
            self.trail(),
            self.node_size.0 as int,
            self.node_size.1 as int,
            (self.start.0 as int, self.start.1 as int),
        )
    }

    /// A bound on the number of steps that are left: two for each node not
    /// visited yet, to go there and to come back, and one for each node on
    /// the trail, to leave it.
    pub closed spec fn remaining(&self) -> nat {
        2 * count_cells(self.free(), is_free()) + self.trail().len()
    }

    /// A grid of `Dirt` for `node_size` nodes, with `PlayerStart` at the
    /// node `start`, which alone is visited and on the trail.
    pub fn new(node_size: (usize, usize), start: (usize, usize)) -> (c: Carver)
        requires
            node_size.0 >= 1,
            node_size.1 >= 1,
            2 * node_size.0 + 1 <= usize::MAX,
            2 * node_size.1 + 1 <= usize::MAX,
            start.0 < node_size.0,
            start.1 < node_size.1,
        ensures
            c.wf(),
            c.node_size() == node_size,
            c.start() == start,
            c.trail() == seq![start],
            has_shape(c.grid(), 2 * node_size.1 + 1, 2 * node_size.0 + 1),
            has_shape(c.free(), node_size.1 as int, node_size.0 as int),
            forall|i: int, j: int|
                in_grid(c.grid(), i, j) ==> #[trigger] c.grid()[i][j] == (if i == node_cell(
                    start.1 as int,
                ) && j == node_cell(start.0 as int) {
                    Block::PlayerStart
                } else {
                    Block::Dirt
                }),
            forall|i: int, j: int|
                in_grid(c.free(), i, j) ==> #[trigger] c.free()[i][j] == !(i == start.1 && j
                    == start.0),
    {
        let size_blocks = (node_size.0 * 2 + 1, node_size.1 * 2 + 1);
        let mut blocks = vec![vec![Block::Dirt; size_blocks.0]; size_blocks.1];
        let mut point_free = vec![vec![true; node_size.0]; node_size.1];
        let mut position_stack = Vec::new();
        let ghost g0 = rows_of(blocks@);
        let ghost free0 = rows_of(point_free@);
        position_stack.push(start);
        set_cell(&mut point_free, start.1, start.0, false);
        set_cell(&mut blocks, node_to_block(start.1), node_to_block(start.0), Block::PlayerStart);
        proof {
            lemma_begin(
                g0,
                free0,
                node_size.0 as int,
                node_size.1 as int,
                (start.0 as int, start.1 as int),
            );
            assert(position_stack@ =~= seq![start]);
        }
        Carver { blocks, point_free, position_stack, node_size, start }
    }

    /// Whether the walk has come back to the start and left it: the trail is
    /// empty and the maze is done.
    pub fn is_done(&self) -> (r: bool)
        ensures
            r == (self.trail().len() == 0),
    {
        self.position_stack.len() == 0
    }

    /// The steps from the node that the walk stands on to a node not visited
    /// yet, in the order `Down`, `Up`, `Left`, `Right`.
    pub fn open_directions(&self) -> (choices: Vec<Dir>)
        requires
            self.wf(),
            self.trail().len() > 0,
        ensures
            choices@ == open_dirs(self.free(), top(self.trail())),
    {
        let pos = self.position_stack[self.position_stack.len() - 1];
        proof {
            let n = self.position_stack@[self.position_stack.len() - 1];
            assert(is_node(self.free(), (n.0 as int, n.1 as int)));
            assert(self.free()[pos.1 as int].len() == self.node_size.0);
            if pos.1 > 0 {
                assert(self.free()[pos.1 - 1].len() == self.node_size.0);
            }
            if pos.1 + 1 < self.node_size.1 {
                assert(self.free()[pos.1 + 1].len() == self.node_size.0);
            }
        }
        let mut choices = Vec::<Dir>::new();
        if pos.1 > 0 && self.point_free[pos.1 - 1][pos.0] {
            choices.push(Dir::Down);
        }
        if pos.1 + 1 < self.node_size.1 && self.point_free[pos.1 + 1][pos.0] {
            choices.push(Dir::Up);
        }
        if pos.0 > 0 && self.point_free[pos.1][pos.0 - 1] {
            choices.push(Dir::Left);
        }
        if pos.0 + 1 < self.node_size.0 && self.point_free[pos.1][pos.0 + 1] {
            choices.push(Dir::Right);
        }
        assert(choices@ =~= open_dirs(self.free(), top(self.trail())));
        choices
    }

    /// Carves the step `dir` from the node that the walk stands on: the wall
    /// it goes through and the cell of the node it leads to become `Air`,
    /// and the walk stands on that node, now visited.
    pub fn carve(&mut self, dir: Dir)
        requires
            old(self).wf(),
            old(self).trail().len() > 0,
            can_go(old(self).free(), top(old(self).trail()), dir),
        ensures
            final(self).wf(),
            final(self).node_size() == old(self).node_size(),
            final(self).start() == old(self).start(),
            final(self).grid() == carved(old(self).grid(), top(old(self).trail()), dir),
            final(self).free() == visit(
                old(self).free(),
                target(top(old(self).trail()), dir),
            ),
            final(self).trail() == extended(
                old(self).trail(),
                target(top(old(self).trail()), dir),
            ),
            final(self).remaining() < old(self).remaining(),
    {
        let pos = self.position_stack[self.position_stack.len() - 1];
        proof {
            lemma_carve(
                self.grid(),
                self.free(),
                self.trail(),
                self.node_size.0 as int,
                self.node_size.1 as int,
                (self.start.0 as int, self.start.1 as int),
                dir,
            );
            let n = self.position_stack@[self.position_stack.len() - 1];
            assert(is_node(self.free(), (n.0 as int, n.1 as int)));
            assert(self.grid()[node_cell(pos.1 as int)].len() == 2 * self.node_size.0 + 1);
            assert(self.grid()[node_cell(pos.1 as int) - 1].len() == 2 * self.node_size.0 + 1);
            assert(self.grid()[node_cell(pos.1 as int) + 1].len() == 2 * self.node_size.0 + 1);
        }
        let node = match dir {
            Dir::Down => {
                let result_node = (pos.0, pos.1 - 1);
                set_cell(
                    &mut self.blocks,
                    node_to_block(result_node.1) + 1,
                    node_to_block(result_node.0),
                    Block::Air,
                );
                result_node
            },
            Dir::Up => {
                let result_node = (pos.0, pos.1 + 1);
                set_cell(
                    &mut self.blocks,
                    node_to_block(result_node.1) - 1,
                    node_to_block(result_node.0),
                    Block::Air,
                );
                result_node
            },
            Dir::Left => {
                let result_node = (pos.0 - 1, pos.1);
                set_cell(
                    &mut self.blocks,
                    node_to_block(result_node.1),
                    node_to_block(result_node.0) + 1,
                    Block::Air,
                );
                result_node
            },
            Dir::Right => {
                let result_node = (pos.0 + 1, pos.1);
                set_cell(
                    &mut self.blocks,
                    node_to_block(result_node.1),
                    node_to_block(result_node.0) - 1,
                    Block::Air,
                );
                result_node
            },
        };
        self.position_stack.push(node);
        set_cell(&mut self.point_free, node.1, node.0, false);
        set_cell(&mut self.blocks, node_to_block(node.1), node_to_block(node.0), Block::Air);
    }

    /// Steps back from the node that the walk stands on, from which no step
    /// leads to a node not visited yet.
    pub fn retreat(&mut self)
        requires
            old(self).wf(),
            old(self).trail().len() > 0,
            open_dirs(old(self).free(), top(old(self).trail())).len() == 0,
        ensures
            final(self).wf(),
            final(self).node_size() == old(self).node_size(),
            final(self).start() == old(self).start(),
            final(self).grid() == old(self).grid(),
            final(self).free() == old(self).free(),
            final(self).trail() == old(self).trail().drop_last(),
            final(self).remaining() < old(self).remaining(),
    {
        proof {
            lemma_open_dirs(self.free(), top(self.trail()));
            lemma_retreat(
                self.grid(),
                self.free(),
                self.trail(),
                self.node_size.0 as int,
                self.node_size.1 as int,
                (self.start.0 as int, self.start.1 as int),
            );
        }
        self.position_stack.pop();
    }

    /// The block grid as carved so far.
    pub fn blocks(&self) -> (g: &Vec<Vec<Block>>)
        ensures
            rows_of(g@) == self.grid(),
    {
        &self.blocks
    }

    /// The nodes from the start to the node that the walk stands on.
    pub fn position_stack(&self) -> (t: &Vec<(usize, usize)>)
        ensures
            t@ == self.trail(),
    {
        &self.position_stack
    }

    /// The finished maze.
    pub fn into_grid(self) -> (g: Vec<Vec<Block>>)
        requires
            self.wf(),
            self.trail().len() == 0,
        ensures
            rows_of(g@) == self.grid(),
            is_maze(rows_of(g@), self.node_size().0 as int, self.node_size().1 as int),
    {
        proof {
            assert(self.trail() =~= Seq::<(usize, usize)>::empty());
            lemma_finish(
                self.grid(),
                self.free(),
                self.node_size.0 as int,
                self.node_size.1 as int,
                (self.start.0 as int, self.start.1 as int),
            );
        }
        self.blocks
    }
}

/// Generates a maze over `node_size` nodes, `W` columns and `H` rows of
/// them: a grid of `2H+1` rows of `2W+1` blocks, walled in by `Dirt`, in which corridors of `Air` join the cells
/// of all nodes into a tree, with `PlayerStart` at the cell of one node
/// chosen at random. A request for no nodes along an axis is refused.
pub fn generate_maze(node_size: (usize, usize)) -> (r: Result<Vec<Vec<Block>>, Error>)
    requires
        2 * node_size.0 + 1 <= usize::MAX,
        2 * node_size.1 + 1 <= usize::MAX,
    ensures
        r.is_ok() == (node_size.0 >= 1 && node_size.1 >= 1),
        r matches Ok(g) ==> is_maze(rows_of(g@), node_size.0 as int, node_size.1 as int),
        r matches Err(e) ==> e == Error::InvalidMazeRequest,
{
    if node_size.0 == 0 || node_size.1 == 0 {
        return Err(Error::InvalidMazeRequest);
    }
    let node = (random_below(node_size.0), random_below(node_size.1));
    let mut carver = Carver::new(node_size, node);
    while !carver.is_done()
        invariant
            carver.wf(),
            carver.node_size() == node_size,
        decreases carver.remaining(),
    {
        let choices = carver.open_directions();
        proof {
            lemma_open_dirs(carver.free(), top(carver.trail()));
        }
        if choices.len() > 0 {
            let k = random_below(choices.len());
            let dir = choices[k];
            assert(open_dirs(carver.free(), top(carver.trail())).contains(dir));
            carver.carve(dir);
        } else {
            carver.retreat();
        }
    }
    Ok(carver.into_grid())
}

} // verus!
