//! The plan of a level's physics world: which bodies stand for the blocks of
//! a level grid, where the player's body starts, and which collider is the
//! exit.
//!
//! A level grid is read row by row: `level[y][x]` is the block in column `x`
//! of row `y`.

use vstd::prelude::*;
use crate::block::Block;
use crate::chance::random_below;
use crate::error::Error;
use crate::grid::{count_cells, count_in_row, count_in_rows, in_grid, lemma_count_none, rows_of};
use crate::maze::{is_maze, is_start, Cells};

verus! {

/// The length of a block's edge, in the units of the physics world.
pub const BLOCK_SIZE: usize = 32;

/// A body that does not move, with a square collider of one block, and the
/// block that it stands for.
#[derive(PartialEq, Eq, Structural, Clone, Copy, Debug)]
pub struct StaticBody {
    /// The body's position along the rows: the block's column times
    /// `BLOCK_SIZE`.
    pub x: usize,
    /// The body's position across the rows: the block's row times
    /// `BLOCK_SIZE`.
    pub y: usize,
    /// The block that the collider is tagged with.
    pub block: Block,
}

impl StaticBody {
    /// The column and the row of the block that the body stands for.
    pub fn tile(&self) -> (r: (usize, usize))
        ensures
            r.0 == self.x / BLOCK_SIZE,
            r.1 == self.y / BLOCK_SIZE,
    {
        (self.x / BLOCK_SIZE, self.y / BLOCK_SIZE)
    }
}

/// What a physics world is built from.
pub struct WorldPlan {
    /// One body for each block that is collided with, row by row.
    pub statics: Vec<StaticBody>,
    /// The position at which the player's body starts.
    pub player: (usize, usize),
    /// The index in `statics` of the exit's body, if the level has an exit.
    pub end_collider: Option<usize>,
    /// The number of columns and the number of rows of the level.
    pub level_size: (usize, usize),
}

/// The body that stands for the block in column `x` of row `y`.
pub open spec fn body_at(x: int, y: int, block: Block) -> StaticBody {
    StaticBody { x: (x * BLOCK_SIZE) as usize, y: (y * BLOCK_SIZE) as usize, block }
}

/// The bodies of the first `n` blocks of row `y`, in order.
pub open spec fn row_bodies(row: Seq<Block>, y: int, n: int) -> Seq<StaticBody>
    decreases n,
{
    if n <= 0 {
        Seq::empty()
    } else if row[n - 1].collides() {
        row_bodies(row, y, n - 1).push(body_at(n - 1, y, row[n - 1]))
    } else {
        row_bodies(row, y, n - 1)
    }
}

/// The bodies of the first `n` rows of `g`, row by row.
pub open spec fn grid_bodies(g: Cells, n: int) -> Seq<StaticBody>
    decreases n,
{
    if n <= 0 {
        Seq::empty()
    } else {
        grid_bodies(g, n - 1) + row_bodies(g[n - 1], n - 1, g[n - 1].len() as int)
    }
}

/// The bodies of the level `g`: one for each block that is collided with,
/// row by row.
pub open spec fn bodies_of(g: Cells) -> Seq<StaticBody> {
    grid_bodies(g, g.len() as int)
}

/// The block in column `i` of row `j` comes before the one in column `x` of
/// row `y` when the level is read row by row.
pub open spec fn before(j: int, i: int, y: int, x: int) -> bool {
    j < y || (j == y && i < x)
}

/// The block in column `x` of row `y` is the first `PlayerStart` of `g`.
pub open spec fn first_start(g: Cells, x: int, y: int) -> bool {
    &&& in_grid(g, y, x)
    &&& g[y][x] == Block::PlayerStart
    &&& forall|j: int, i: int|
        in_grid(g, j, i) && before(j, i, y, x) ==> #[trigger] g[j][i] != Block::PlayerStart
}

/// Some block of `g` is `b`.
pub open spec fn has_block(g: Cells, b: Block) -> bool {
    exists|j: int, i: int| in_grid(g, j, i) && #[trigger] g[j][i] == b
}

/// `k` is the index of the last exit among `bodies`, or there is none and
/// `k` is `None`.
pub open spec fn last_exit(bodies: Seq<StaticBody>, k: Option<usize>) -> bool {
    match k {
        Some(k) => {
            &&& k < bodies.len()
            &&& bodies[k as int].block == Block::PlayerEnd
            &&& forall|m: int| k < m < bodies.len() ==> (#[trigger] bodies[m]).block != Block::PlayerEnd
        },
        None => forall|m: int| 0 <= m < bodies.len() ==> (#[trigger] bodies[m]).block != Block::PlayerEnd,
    }
}

/// The number of columns of the last row of `g`, and the number of rows.
pub open spec fn size_of(g: Cells) -> (int, int) {
    (
        if g.len() == 0 {
            0
        } else {
            g[g.len() - 1].len() as int
        },
        g.len() as int,
    )
}

/// The plan `p` is that of the level `g`: its bodies are those of `g`, its
/// player starts at the first `PlayerStart`, and its exit is the last
/// `PlayerEnd`.
pub open spec fn plan_of(p: WorldPlan, g: Cells) -> bool {
    &&& p.statics@ == bodies_of(g)
    &&& last_exit(p.statics@, p.end_collider)
    &&& p.player.0 % BLOCK_SIZE == 0
    &&& p.player.1 % BLOCK_SIZE == 0
    &&& first_start(g, p.player.0 as int / BLOCK_SIZE as int, p.player.1 as int / BLOCK_SIZE as int)
    &&& p.level_size.0 == size_of(g).0
    &&& p.level_size.1 == size_of(g).1
}

/// The positions of the bodies of `g` fit the machine's integers.
pub open spec fn fits(g: Cells) -> bool {
    &&& g.len() * BLOCK_SIZE <= usize::MAX
    &&& forall|y: int| 0 <= y < g.len() ==> (#[trigger] g[y]).len() * BLOCK_SIZE <= usize::MAX
}

/// The block is `Dirt`.
pub open spec fn is_dirt() -> spec_fn(int, int, Block) -> bool {
    |i: int, j: int, b: Block| b == Block::Dirt
}

/// The block is `PlayerEnd`.
pub open spec fn is_end() -> spec_fn(int, int, Block) -> bool {
    |i: int, j: int, b: Block| b == Block::PlayerEnd
}

/// A body's block is one that is collided with.
pub proof fn lemma_row_bodies_solid(row: Seq<Block>, y: int, n: int)
    requires
        n <= row.len(),
    ensures
        forall|m: int|
            0 <= m < row_bodies(row, y, n).len() ==> (#[trigger] row_bodies(
                row,
                y,
                n,
            )[m]).block.collides(),
        row_bodies(row, y, n).len() == count_in_row(row, y, n, is_dirt()) + count_in_row(
            row,
            y,
            n,
            is_end(),
        ),
    decreases n,
{
    if n > 0 {
        lemma_row_bodies_solid(row, y, n - 1);
    }
}

/// There are as many bodies in the first `n` rows as there are `Dirt` and
/// `PlayerEnd` blocks, and each body's block is collided with.
pub proof fn lemma_grid_bodies_count(g: Cells, n: int)
    requires
        n <= g.len(),
    ensures
        grid_bodies(g, n).len() == count_in_rows(g, n, is_dirt()) + count_in_rows(g, n, is_end()),
        forall|m: int|
            0 <= m < grid_bodies(g, n).len() ==> (#[trigger] grid_bodies(g, n)[m]).block.collides(),
    decreases n,
{
    if n > 0 {
        lemma_grid_bodies_count(g, n - 1);
        lemma_row_bodies_solid(g[n - 1], n - 1, g[n - 1].len() as int);
    }
}

/// The plan of a level has one static body for each `Dirt` and each
/// `PlayerEnd` of the grid, however often it is built.
pub proof fn lemma_static_count(g: Cells)
    ensures
        bodies_of(g).len() == count_cells(g, is_dirt()) + count_cells(g, is_end()),
{
    lemma_grid_bodies_count(g, g.len() as int);
}

/// Each `PlayerEnd` among the first `n` blocks of a row has a body.
proof fn lemma_row_exit(row: Seq<Block>, y: int, n: int, x: int)
    requires
        0 <= x < n <= row.len(),
        row[x] == Block::PlayerEnd,
    ensures
        exists|m: int|
            0 <= m < row_bodies(row, y, n).len() && (#[trigger] row_bodies(row, y, n)[m]).block
                == Block::PlayerEnd,
    decreases n,
{
    let now = row_bodies(row, y, n);
    if x == n - 1 {
        assert(now[now.len() - 1].block == Block::PlayerEnd);
    } else {
        lemma_row_exit(row, y, n - 1, x);
        let was = row_bodies(row, y, n - 1);
        let m = choose|m: int| 0 <= m < was.len() && (#[trigger] was[m]).block == Block::PlayerEnd;
        assert(now[m] == was[m]);
    }
}

/// Each body of the first `n` blocks of a row stands for one of them.
proof fn lemma_row_body_source(row: Seq<Block>, y: int, n: int, m: int)
    requires
        n <= row.len(),
        0 <= m < row_bodies(row, y, n).len(),
    ensures
        exists|x: int| 0 <= x < n && #[trigger] row[x] == row_bodies(row, y, n)[m].block,
    decreases n,
{
    if n > 0 {
        let was = row_bodies(row, y, n - 1);
        if m < was.len() {
            lemma_row_body_source(row, y, n - 1, m);
            let x = choose|x: int| 0 <= x < n - 1 && #[trigger] row[x] == was[m].block;
            assert(row[x] == row_bodies(row, y, n)[m].block);
        } else {
            assert(row[n - 1] == row_bodies(row, y, n)[m].block);
        }
    }
}

/// Among the bodies of the first `n` rows there is an exit if and only if
/// one of the rows holds a `PlayerEnd`.
proof fn lemma_grid_exit(g: Cells, n: int)
    requires
        n <= g.len(),
    ensures
        (exists|m: int|
            0 <= m < grid_bodies(g, n).len() && (#[trigger] grid_bodies(g, n)[m]).block
                == Block::PlayerEnd) <==> (exists|j: int, i: int|
            in_grid(g, j, i) && j < n && #[trigger] g[j][i] == Block::PlayerEnd),
    decreases n,
{
    if n > 0 {
        lemma_grid_exit(g, n - 1);
        let was = grid_bodies(g, n - 1);
        let row = g[n - 1];
        let here = row_bodies(row, n - 1, row.len() as int);
        let now = grid_bodies(g, n);
        assert(now == was + here);
        if exists|m: int| 0 <= m < now.len() && (#[trigger] now[m]).block == Block::PlayerEnd {
            let m = choose|m: int| 0 <= m < now.len() && (#[trigger] now[m]).block == Block::PlayerEnd;
            if m < was.len() {
                assert(was[m] == now[m]);
                let (j, i) = choose|j: int, i: int|
                    in_grid(g, j, i) && j < n - 1 && #[trigger] g[j][i] == Block::PlayerEnd;
                assert(in_grid(g, j, i) && j < n && g[j][i] == Block::PlayerEnd);
            } else {
                assert(here[m - was.len()] == now[m]);
                lemma_row_body_source(row, n - 1, row.len() as int, m - was.len());
                let x = choose|x: int|
                    0 <= x < row.len() && #[trigger] row[x] == here[m - was.len()].block;
                assert(in_grid(g, n - 1, x) && g[n - 1][x] == Block::PlayerEnd);
            }
        }
        if exists|j: int, i: int|
            in_grid(g, j, i) && j < n && #[trigger] g[j][i] == Block::PlayerEnd {
            let (j, i) = choose|j: int, i: int|
                in_grid(g, j, i) && j < n && #[trigger] g[j][i] == Block::PlayerEnd;
            if j < n - 1 {
                let m = choose|m: int|
                    0 <= m < was.len() && (#[trigger] was[m]).block == Block::PlayerEnd;
                assert(now[m] == was[m]);
            } else {
                lemma_row_exit(row, n - 1, row.len() as int, i);
                let m = choose|m: int|
                    0 <= m < here.len() && (#[trigger] here[m]).block == Block::PlayerEnd;
                assert(now[was.len() + m] == here[m]);
            }
        }
    }
}

/// The bodies of a level hold an exit if and only if the level holds a
/// `PlayerEnd`.
proof fn lemma_exit_found(g: Cells, bodies: Seq<StaticBody>, k: Option<usize>)
    requires
        bodies == bodies_of(g),
        last_exit(bodies, k),
    ensures
        k is Some == has_block(g, Block::PlayerEnd),
{
    lemma_grid_exit(g, g.len() as int);
    if k is Some {
        assert(bodies[k->0 as int].block == Block::PlayerEnd);
    }
    if has_block(g, Block::PlayerEnd) {
        let (j, i) = choose|j: int, i: int| in_grid(g, j, i) && #[trigger] g[j][i] == Block::PlayerEnd;
        assert(in_grid(g, j, i) && j < g.len() && g[j][i] == Block::PlayerEnd);
    }
}

/// A maze can be planned without an exit: it holds a `PlayerStart` and no
/// `PlayerEnd`, and its plan has one static body for each `Dirt`.
pub proof fn lemma_maze_plan(g: Cells, w: int, h: int)
    requires
        is_maze(g, w, h),
    ensures
        has_block(g, Block::PlayerStart),
        !has_block(g, Block::PlayerEnd),
        bodies_of(g).len() == count_cells(g, is_dirt()),
{
    if !has_block(g, Block::PlayerStart) {
        assert forall|j: int, i: int| 0 <= j < g.len() && 0 <= i < g[j].len() implies !is_start()(
            j,
            i,
            #[trigger] g[j][i],
        ) by {
            if g[j][i] == Block::PlayerStart {
                assert(in_grid(g, j, i));
            }
        }
        lemma_count_none(g, g.len() as int, is_start());
    }
    assert forall|j: int, i: int| 0 <= j < g.len() && 0 <= i < g[j].len() implies !is_end()(
        j,
        i,
        #[trigger] g[j][i],
    ) by {
        assert(in_grid(g, j, i));
    }
    lemma_count_none(g, g.len() as int, is_end());
    lemma_static_count(g);
}

/// What reading a level row by row finds: its bodies, the position of the
/// first `PlayerStart` and the index of the last exit's body.
struct Survey {
    statics: Vec<StaticBody>,
    start: Option<(usize, usize)>,
    end: Option<usize>,
}

/// Reads the level row by row.
fn survey(level: &Vec<Vec<Block>>) -> (r: Survey)
    requires
        fits(rows_of(level@)),
    ensures
        r.statics@ == bodies_of(rows_of(level@)),
        last_exit(r.statics@, r.end),
        r.start is None ==> !has_block(rows_of(level@), Block::PlayerStart),
        r.start matches Some(p) ==> p.0 % BLOCK_SIZE == 0 && p.1 % BLOCK_SIZE == 0 && first_start(
            rows_of(level@),
            p.0 as int / BLOCK_SIZE as int,
            p.1 as int / BLOCK_SIZE as int,
        ),
{
    let ghost g = rows_of(level@);
    let mut statics: Vec<StaticBody> = Vec::new();
    let mut start: Option<(usize, usize)> = None;
    let mut end: Option<usize> = None;
    let mut y: usize = 0;
    while y < level.len()
        invariant
            g == rows_of(level@),
            fits(g),
            y <= level.len(),
            statics@ == grid_bodies(g, y as int),
            last_exit(statics@, end),
            start is None ==> forall|j: int, i: int|
                in_grid(g, j, i) && j < y ==> #[trigger] g[j][i] != Block::PlayerStart,
            start matches Some(p) ==> p.0 % BLOCK_SIZE == 0 && p.1 % BLOCK_SIZE == 0
                && first_start(g, p.0 as int / BLOCK_SIZE as int, p.1 as int / BLOCK_SIZE as int),
        decreases level.len() - y,
    {
        let line = &level[y];
        assert(line@ == g[y as int]);
        let mut x: usize = 0;
        while x < line.len()
            invariant
                g == rows_of(level@),
                fits(g),
                y < level.len(),
                line@ == g[y as int],
                x <= line.len(),
                statics@ == grid_bodies(g, y as int) + row_bodies(line@, y as int, x as int),
                last_exit(statics@, end),
                start is None ==> forall|j: int, i: int|
                    in_grid(g, j, i) && before(j, i, y as int, x as int) ==> #[trigger] g[j][i]
                        != Block::PlayerStart,
                start matches Some(p) ==> p.0 % BLOCK_SIZE == 0 && p.1 % BLOCK_SIZE == 0
                    && first_start(
                    g,
                    p.0 as int / BLOCK_SIZE as int,
                    p.1 as int / BLOCK_SIZE as int,
                ),
            decreases line.len() - x,
        {
            let block = line[x];
            proof {
                assert(g[y as int].len() * BLOCK_SIZE <= usize::MAX);
                assert(x * BLOCK_SIZE <= g[y as int].len() * BLOCK_SIZE) by (nonlinear_arith)
                    requires
                        x <= g[y as int].len(),
                ;
                assert(y * BLOCK_SIZE <= g.len() * BLOCK_SIZE) by (nonlinear_arith)
                    requires
                        y <= g.len(),
                ;
            }
            if block.is_colideable() {
                let body = StaticBody { x: x * BLOCK_SIZE, y: y * BLOCK_SIZE, block };
                assert(body == body_at(x as int, y as int, block));
                if block == Block::PlayerEnd {
                    end = Some(statics.len());
                }
                statics.push(body);
                assert(statics@ =~= grid_bodies(g, y as int) + row_bodies(
                    line@,
                    y as int,
                    x as int + 1,
                ));
            }
            if start.is_none() && block == Block::PlayerStart {
                start = Some((x * BLOCK_SIZE, y * BLOCK_SIZE));
                assert((x * BLOCK_SIZE) as int / BLOCK_SIZE as int == x);
                assert((y * BLOCK_SIZE) as int / BLOCK_SIZE as int == y);
            }
            x += 1;
        }
        y += 1;
    }
    proof {
        if start is None {
            assert forall|j: int, i: int| in_grid(g, j, i) implies #[trigger] g[j][i]
                != Block::PlayerStart by {}
        }
    }
    Survey { statics, start, end }
}

/// The number of columns of the last row of the level, and the number of
/// rows.
fn level_size(level: &Vec<Vec<Block>>) -> (r: (usize, usize))
    ensures
        r.0 == size_of(rows_of(level@)).0,
        r.1 == size_of(rows_of(level@)).1,
{
    let y_size = level.len();
    let x_size = if y_size == 0 {
        0
    } else {
        level[y_size - 1].len()
    };
    (x_size, y_size)
}

impl WorldPlan {
    /// Plans the physics world of a level: a static body for each `Dirt` and
    /// `PlayerEnd`, the player at the first `PlayerStart`, the exit at the
    /// last `PlayerEnd`. A level without a `PlayerStart` is refused, and so
    /// is one that has a `PlayerStart` and no `PlayerEnd`.
    pub fn build(level: &Vec<Vec<Block>>) -> (r: Result<WorldPlan, Error>)
        requires
            fits(rows_of(level@)),
        ensures
            r is Ok == (has_block(rows_of(level@), Block::PlayerStart) && has_block(
                rows_of(level@),
                Block::PlayerEnd,
            )),
            r matches Ok(p) ==> plan_of(p, rows_of(level@)) && p.end_collider is Some,
            r matches Err(e) ==> e == (if has_block(rows_of(level@), Block::PlayerStart) {
                Error::MissingPlayerEnd
            } else {
                Error::MissingPlayerStart
            }),
    {
        let ghost g = rows_of(level@);
        let found = survey(level);
        proof {
            lemma_exit_found(g, found.statics@, found.end);
            if found.start is Some {
                let p = found.start->0;
                assert(g[p.1 as int / BLOCK_SIZE as int][p.0 as int / BLOCK_SIZE as int]
                    == Block::PlayerStart);
            }
        }
        match found.start {
            None => Err(Error::MissingPlayerStart),
            Some(player) => match found.end {
                None => Err(Error::MissingPlayerEnd),
                Some(k) => Ok(
                    WorldPlan {
                        statics: found.statics,
                        player,
                        end_collider: Some(k),
                        level_size: level_size(level),
                    },
                ),
            },
        }
    }

    /// Stars for the level's sky: two for each static body, each at a place
    /// chosen by chance within the level, its far edges included.
    pub fn stars(&self) -> (r: Vec<(usize, usize)>)
        requires
            self.level_size.0 * BLOCK_SIZE < usize::MAX,
            self.level_size.1 * BLOCK_SIZE < usize::MAX,
        ensures
            r.len() == 2 * self.statics.len(),
            forall|k: int|
                0 <= k < r.len() ==> (#[trigger] r[k]).0 <= self.level_size.0 * BLOCK_SIZE && r[k].1
                    <= self.level_size.1 * BLOCK_SIZE,
    {
        let width = self.level_size.0 * BLOCK_SIZE;
        let height = self.level_size.1 * BLOCK_SIZE;
        let mut stars: Vec<(usize, usize)> = Vec::new();
        let mut k: usize = 0;
        while k < self.statics.len()
            invariant
                k <= self.statics.len(),
                width == self.level_size.0 * BLOCK_SIZE,
                height == self.level_size.1 * BLOCK_SIZE,
                width < usize::MAX,
                height < usize::MAX,
                stars.len() == 2 * k,
                forall|j: int|
                    0 <= j < stars.len() ==> (#[trigger] stars[j]).0 <= width && stars[j].1
                        <= height,
            decreases self.statics.len() - k,
        {
            stars.push((random_below(width + 1), random_below(height + 1)));
            stars.push((random_below(width + 1), random_below(height + 1)));
            k += 1;
        }
        stars
    }

    /// Plans the physics world of a level as `build` does, but takes a level
    /// without a `PlayerEnd`: its plan has no exit. A level without a
    /// `PlayerStart` is refused.
    pub fn build_lenient(level: &Vec<Vec<Block>>) -> (r: Result<WorldPlan, Error>)
        requires
            fits(rows_of(level@)),
        ensures
            r is Ok == has_block(rows_of(level@), Block::PlayerStart),
            r matches Ok(p) ==> plan_of(p, rows_of(level@)) && (p.end_collider is Some
                == has_block(rows_of(level@), Block::PlayerEnd)),
            r matches Err(e) ==> e == Error::MissingPlayerStart,
    {
        let ghost g = rows_of(level@);
        let found = survey(level);
        proof {
            lemma_exit_found(g, found.statics@, found.end);
            if found.start is Some {
                let p = found.start->0;
                assert(g[p.1 as int / BLOCK_SIZE as int][p.0 as int / BLOCK_SIZE as int]
                    == Block::PlayerStart);
            }
        }
        match found.start {
            None => Err(Error::MissingPlayerStart),
            Some(player) => Ok(
                WorldPlan {
                    statics: found.statics,
                    player,
                    end_collider: found.end,
                    level_size: level_size(level),
                },
            ),
        }
    }
}

} // verus!
