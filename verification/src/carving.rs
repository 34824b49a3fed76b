//! The state of a maze while it is carved, what holds of it between two
//! steps, and why each step keeps it so.

use vstd::prelude::*;
use crate::block::Block;
use crate::grid::{
    count_cells, has_shape, in_grid, lemma_count_all, lemma_count_cells_update, lemma_count_none,
    with_cell,
};
use crate::maze::{
    all_reach, carved_walls, connected, is_carved_wall, is_maze, is_start,
    lemma_all_reach_connects, lemma_connected_mono, lemma_connected_refl, lemma_connected_step,
    node_cell, open_at, Cells,
};

verus! {

/// A step from a node to one of its four neighbours. A node is named by its
/// column `x` and its row `y`, as `(x, y)`. `Down` leads to the node with
/// the next smaller `y`, `Left` to the one with the next smaller `x`.
#[derive(PartialEq, Eq, Structural, Clone, Copy, Debug)]
pub enum Dir {
    Down,
    Up,
    Left,
    Right,
}

impl Dir {
    /// What the step adds to a node's coordinates.
    pub open spec fn offset(self) -> (int, int) {
        match self {
            Dir::Down => (0, -1),
            Dir::Up => (0, 1),
            Dir::Left => (-1, 0),
            Dir::Right => (1, 0),
        }
    }
}

/// For each node, whether it has not been visited yet, row by row: the node
/// `(x, y)` stands at `[y][x]`.
pub type Free = Seq<Seq<bool>>;

/// The node `n` exists.
pub open spec fn is_node(free: Free, n: (int, int)) -> bool {
    in_grid(free, n.1, n.0)
}

/// The node `n` has not been visited yet.
pub open spec fn free_at(free: Free, n: (int, int)) -> bool {
    free[n.1][n.0]
}

/// The node that the step `d` from `pos` leads to.
pub open spec fn target(pos: (int, int), d: Dir) -> (int, int) {
    (pos.0 + d.offset().0, pos.1 + d.offset().1)
}

/// The cell of the wall that the step `d` from node `pos` goes through, as
/// row and column.
pub open spec fn wall_cell(pos: (int, int), d: Dir) -> (int, int) {
    (node_cell(pos.1) + d.offset().1, node_cell(pos.0) + d.offset().0)
}

/// The cell that stands for the node `n`, as row and column.
pub open spec fn cell_of(n: (int, int)) -> (int, int) {
    (node_cell(n.1), node_cell(n.0))
}

/// The step `d` from `pos` leads to a node that exists and is not visited.
pub open spec fn can_go(free: Free, pos: (int, int), d: Dir) -> bool {
    let t = target(pos, d);
    is_node(free, t) && free_at(free, t)
}

/// `d` alone if `b`, else nothing.
pub open spec fn keep(b: bool, d: Dir) -> Seq<Dir> {
    if b {
        seq![d]
    } else {
        Seq::empty()
    }
}

/// The steps from `pos` that lead to a node not visited yet, in the order
/// `Down`, `Up`, `Left`, `Right`.
pub open spec fn open_dirs(free: Free, pos: (int, int)) -> Seq<Dir> {
    keep(can_go(free, pos, Dir::Down), Dir::Down) + keep(can_go(free, pos, Dir::Up), Dir::Up)
        + keep(can_go(free, pos, Dir::Left), Dir::Left) + keep(
        can_go(free, pos, Dir::Right),
        Dir::Right,
    )
}

/// No step from the node leads to a node not visited yet.
pub open spec fn settled(free: Free, x: int, y: int) -> bool {
    forall|d: Dir| !can_go(free, (x, y), d)
}

/// The node `(x, y)` is on the trail.
pub open spec fn on_trail(trail: Seq<(usize, usize)>, x: int, y: int) -> bool {
    exists|k: int| 0 <= k < trail.len() && (#[trigger] trail[k]).0 == x && trail[k].1 == y
}

/// The node has not been visited yet.
pub open spec fn is_free() -> spec_fn(int, int, bool) -> bool {
    |i: int, j: int, b: bool| b
}

/// What holds of the cell in row `i` and column `j` while the maze is carved: a node's cell is
/// `Dirt` as long as the node is not visited, and `PlayerStart` only at the
/// start; a wall is open only between two visited nodes; the cells between
/// four nodes stay `Dirt`.
pub open spec fn cell_ok(g: Cells, free: Free, s: (int, int), i: int, j: int) -> bool {
    let b = g[i][j];
    &&& b != Block::PlayerEnd
    &&& (i % 2 == 0 && j % 2 == 0 ==> b == Block::Dirt)
    &&& (i % 2 == 1 && j % 2 == 1 ==> {
        &&& (b == Block::Dirt) == free[i / 2][j / 2]
        &&& (b == Block::PlayerStart) == (i == node_cell(s.1) && j == node_cell(s.0))
    })
    &&& (i % 2 == 0 && j % 2 == 1 ==> {
        &&& b != Block::PlayerStart
        &&& (b == Block::Air ==> 0 < i < g.len() - 1 && !free[i / 2 - 1][j / 2] && !free[i / 2][j
            / 2])
    })
    &&& (i % 2 == 1 && j % 2 == 0 ==> {
        &&& b != Block::PlayerStart
        &&& (b == Block::Air ==> 0 < j < g[i].len() - 1 && !free[i / 2][j / 2 - 1] && !free[i
            / 2][j / 2])
    })
}

/// Every cell of the grid is as `cell_ok` says.
pub open spec fn cells_ok(g: Cells, free: Free, s: (int, int)) -> bool {
    forall|i: int, j: int| in_grid(g, i, j) ==> #[trigger] cell_ok(g, free, s, i, j)
}

/// Every node on the trail exists and is visited.
pub open spec fn trail_ok(free: Free, trail: Seq<(usize, usize)>) -> bool {
    forall|k: int|
        0 <= k < trail.len() ==> {
            let n = #[trigger] trail[k];
            is_node(free, (n.0 as int, n.1 as int)) && !free_at(free, (n.0 as int, n.1 as int))
        }
}

/// Every visited node that is not on the trail is settled.
pub open spec fn rest_settled(free: Free, trail: Seq<(usize, usize)>) -> bool {
    forall|x: int, y: int|
        is_node(free, (x, y)) && !free_at(free, (x, y)) && !on_trail(trail, x, y)
            ==> #[trigger] settled(free, x, y)
}

/// What holds between two steps of carving a maze over `w` columns and `h`
/// rows of nodes from the node `s`: the grid has its shape, each cell is as `cell_ok` says,
/// the trail holds visited nodes and every other visited node is settled,
/// each open cell can be reached from the start, there is one `PlayerStart`,
/// and each node but the first was visited through one carved wall.
pub open spec fn carving(
    g: Cells,
    free: Free,
    trail: Seq<(usize, usize)>,
    w: int,
    h: int,
    s: (int, int),
) -> bool {
    &&& w >= 1
    &&& h >= 1
    &&& has_shape(g, 2 * h + 1, 2 * w + 1)
    &&& has_shape(free, h, w)
    &&& is_node(free, s)
    &&& !free_at(free, s)
    &&& cells_ok(g, free, s)
    &&& trail_ok(free, trail)
    &&& rest_settled(free, trail)
    &&& all_reach(g, cell_of(s))
    &&& count_cells(g, is_start()) == 1
    &&& carved_walls(g) + 1 + count_cells(free, is_free()) == w * h
}

/// The steps in `open_dirs` are those that can be gone.
pub proof fn lemma_open_dirs(free: Free, pos: (int, int))
    ensures
        forall|d: Dir| open_dirs(free, pos).contains(d) <==> can_go(free, pos, d),
        open_dirs(free, pos).len() == 0 <==> settled(free, pos.0, pos.1),
{
    let a = keep(can_go(free, pos, Dir::Down), Dir::Down);
    let b = keep(can_go(free, pos, Dir::Up), Dir::Up);
    let c = keep(can_go(free, pos, Dir::Left), Dir::Left);
    let e = keep(can_go(free, pos, Dir::Right), Dir::Right);
    let all = open_dirs(free, pos);
    assert(all == a + b + c + e);
    assert forall|d: Dir| all.contains(d) <==> can_go(free, pos, d) by {
        if all.contains(d) {
            let k = choose|k: int| 0 <= k < all.len() && all[k] == d;
            if k < a.len() {
                assert(all[k] == a[k]);
            } else if k < a.len() + b.len() {
                assert(all[k] == b[k - a.len()]);
            } else if k < a.len() + b.len() + c.len() {
                assert(all[k] == c[k - a.len() - b.len()]);
            } else {
                assert(all[k] == e[k - a.len() - b.len() - c.len()]);
            }
        }
        if can_go(free, pos, d) {
            match d {
                Dir::Down => {
                    assert(all[0] == d);
                },
                Dir::Up => {
                    assert(all[a.len() as int] == d);
                },
                Dir::Left => {
                    assert(all[(a.len() + b.len()) as int] == d);
                },
                Dir::Right => {
                    assert(all[(a.len() + b.len() + c.len()) as int] == d);
                },
            }
        }
    }
    if all.len() == 0 {
        assert forall|d: Dir| !can_go(free, pos, d) by {
            assert(!all.contains(d));
        }
    }
    if settled(free, pos.0, pos.1) {
        assert(!can_go(free, pos, Dir::Down));
        assert(!can_go(free, pos, Dir::Up));
        assert(!can_go(free, pos, Dir::Left));
        assert(!can_go(free, pos, Dir::Right));
    }
}

/// The grid after the step `d` from node `pos` has been carved: the wall it
/// goes through and the cell of the node it leads to are `Air`.
pub open spec fn carved(g: Cells, pos: (int, int), d: Dir) -> Cells {
    let wall = wall_cell(pos, d);
    let to = cell_of(target(pos, d));
    with_cell(with_cell(g, wall.0, wall.1, Block::Air), to.0, to.1, Block::Air)
}

/// The free nodes after the node `n` has been visited.
pub open spec fn visit(free: Free, n: (int, int)) -> Free {
    with_cell(free, n.1, n.0, false)
}

/// The last node of the trail.
pub open spec fn top(trail: Seq<(usize, usize)>) -> (int, int) {
    (trail[trail.len() - 1].0 as int, trail[trail.len() - 1].1 as int)
}

/// The trail with the node `n` put on it.
pub open spec fn extended(trail: Seq<(usize, usize)>, n: (int, int)) -> Seq<(usize, usize)> {
    trail.push((n.0 as usize, n.1 as usize))
}

/// Before a step is carved, the wall it goes through and the cell of the
/// node it leads to are `Dirt`, and the cell it leaves from is open.
proof fn lemma_before_step(
    g: Cells,
    free: Free,
    trail: Seq<(usize, usize)>,
    w: int,
    h: int,
    s: (int, int),
    d: Dir,
)
    requires
        carving(g, free, trail, w, h, s),
        trail.len() > 0,
        can_go(free, top(trail), d),
    ensures
        is_node(free, top(trail)),
        !free_at(free, top(trail)),
        in_grid(g, wall_cell(top(trail), d).0, wall_cell(top(trail), d).1),
        in_grid(g, cell_of(target(top(trail), d)).0, cell_of(target(top(trail), d)).1),
        g[wall_cell(top(trail), d).0][wall_cell(top(trail), d).1] == Block::Dirt,
        g[cell_of(target(top(trail), d)).0][cell_of(target(top(trail), d)).1] == Block::Dirt,
        open_at(g, cell_of(top(trail))),
        target(top(trail), d) != s,
{
    let pos = top(trail);
    let t = target(pos, d);
    let wall = wall_cell(pos, d);
    let to = cell_of(t);
    let from = cell_of(pos);
    assert(is_node(free, pos) && !free_at(free, pos)) by {
        let n = trail[trail.len() - 1];
        assert(is_node(free, (n.0 as int, n.1 as int)));
    }
    assert(free[pos.1].len() == w);
    assert(free[t.1].len() == w);
    assert(g[wall.0].len() == 2 * w + 1);
    assert(g[to.0].len() == 2 * w + 1);
    assert(g[from.0].len() == 2 * w + 1);
    assert(cell_ok(g, free, s, wall.0, wall.1));
    assert(cell_ok(g, free, s, to.0, to.1));
    assert(cell_ok(g, free, s, from.0, from.1));
}

/// Carving a step keeps every cell as `cell_ok` says.
proof fn lemma_carve_cells(
    g: Cells,
    free: Free,
    trail: Seq<(usize, usize)>,
    w: int,
    h: int,
    s: (int, int),
    d: Dir,
)
    requires
        carving(g, free, trail, w, h, s),
        trail.len() > 0,
        can_go(free, top(trail), d),
    ensures
        has_shape(carved(g, top(trail), d), 2 * h + 1, 2 * w + 1),
        has_shape(visit(free, target(top(trail), d)), h, w),
        cells_ok(carved(g, top(trail), d), visit(free, target(top(trail), d)), s),
{
    let pos = top(trail);
    let t = target(pos, d);
    let wall = wall_cell(pos, d);
    let to = cell_of(t);
    let g2 = carved(g, pos, d);
    let free2 = visit(free, t);
    lemma_before_step(g, free, trail, w, h, s, d);
    assert forall|i: int, j: int| in_grid(g2, i, j) implies #[trigger] cell_ok(
        g2,
        free2,
        s,
        i,
        j,
    ) by {
        assert(in_grid(g, i, j));
        assert(cell_ok(g, free, s, i, j));
        assert(g[i].len() == 2 * w + 1);
        if i / 2 < h {
            assert(free[i / 2].len() == w);
        }
        if i >= 2 {
            assert(free[i / 2 - 1].len() == w);
        }
        if i == wall.0 && j == wall.1 {
        } else if i == to.0 && j == to.1 {
        } else {
            assert(g2[i][j] == g[i][j]);
        }
    }
}

/// Carving a step keeps every open cell within reach of the start.
proof fn lemma_carve_reach(
    g: Cells,
    free: Free,
    trail: Seq<(usize, usize)>,
    w: int,
    h: int,
    s: (int, int),
    d: Dir,
)
    requires
        carving(g, free, trail, w, h, s),
        trail.len() > 0,
        can_go(free, top(trail), d),
    ensures
        all_reach(carved(g, top(trail), d), cell_of(s)),
{
    let pos = top(trail);
    let t = target(pos, d);
    let wall = wall_cell(pos, d);
    let to = cell_of(t);
    let from = cell_of(pos);
    let sc = cell_of(s);
    let g2 = carved(g, pos, d);
    lemma_before_step(g, free, trail, w, h, s, d);
    assert forall|c: (int, int)| open_at(g, c) implies open_at(g2, c) by {
        assert(g2[c.0][c.1] == g[c.0][c.1]);
    }
    assert(connected(g, sc, from));
    lemma_connected_mono(g, g2, sc, from);
    assert(open_at(g2, wall));
    assert(open_at(g2, to));
    lemma_connected_step(g2, sc, from, wall);
    lemma_connected_step(g2, sc, wall, to);
    assert forall|c: (int, int)| open_at(g2, c) implies #[trigger] connected(g2, sc, c) by {
        if c == wall {
        } else if c == to {
        } else {
            assert(g2[c.0][c.1] == g[c.0][c.1]);
            assert(open_at(g, c));
            assert(connected(g, sc, c));
            lemma_connected_mono(g, g2, sc, c);
        }
    }
}

/// Carving a step opens one wall, visits one node and makes no
/// `PlayerStart`.
proof fn lemma_carve_counts(
    g: Cells,
    free: Free,
    trail: Seq<(usize, usize)>,
    w: int,
    h: int,
    s: (int, int),
    d: Dir,
)
    requires
        carving(g, free, trail, w, h, s),
        trail.len() > 0,
        can_go(free, top(trail), d),
    ensures
        count_cells(carved(g, top(trail), d), is_start()) == 1,
        carved_walls(carved(g, top(trail), d)) == carved_walls(g) + 1,
        count_cells(visit(free, target(top(trail), d)), is_free()) + 1 == count_cells(
            free,
            is_free(),
        ),
{
    let pos = top(trail);
    let t = target(pos, d);
    let wall = wall_cell(pos, d);
    let to = cell_of(t);
    lemma_before_step(g, free, trail, w, h, s, d);
    let g1 = with_cell(g, wall.0, wall.1, Block::Air);
    assert(g1[to.0][to.1] == Block::Dirt);
    assert(in_grid(g1, to.0, to.1));
    lemma_count_cells_update(g, wall.0, wall.1, Block::Air, is_start());
    lemma_count_cells_update(g1, to.0, to.1, Block::Air, is_start());
    lemma_count_cells_update(g, wall.0, wall.1, Block::Air, is_carved_wall());
    lemma_count_cells_update(g1, to.0, to.1, Block::Air, is_carved_wall());
    lemma_count_cells_update(free, t.1, t.0, false, is_free());
    assert(wall.0 % 2 != wall.1 % 2);
    assert(to.0 % 2 == to.1 % 2);
}

/// Carving a step keeps the trail made of visited nodes, and the visited
/// nodes off the trail settled.
proof fn lemma_carve_trail(
    g: Cells,
    free: Free,
    trail: Seq<(usize, usize)>,
    w: int,
    h: int,
    s: (int, int),
    d: Dir,
)
    requires
        carving(g, free, trail, w, h, s),
        trail.len() > 0,
        can_go(free, top(trail), d),
        w <= usize::MAX,
        h <= usize::MAX,
    ensures
        trail_ok(visit(free, target(top(trail), d)), extended(trail, target(top(trail), d))),
        rest_settled(visit(free, target(top(trail), d)), extended(trail, target(top(trail), d))),
{
    let pos = top(trail);
    let t = target(pos, d);
    let free2 = visit(free, t);
    let trail2 = extended(trail, t);
    assert(free[t.1].len() == w);
    assert forall|k: int| 0 <= k < trail2.len() implies {
        let n = #[trigger] trail2[k];
        is_node(free2, (n.0 as int, n.1 as int)) && !free_at(free2, (n.0 as int, n.1 as int))
    } by {
        if k < trail.len() {
            let n = trail[k];
            assert(trail2[k] == n);
            assert(is_node(free, (n.0 as int, n.1 as int)));
        }
    }
    assert forall|x: int, y: int|
        is_node(free2, (x, y)) && !free_at(free2, (x, y)) && !on_trail(
            trail2,
            x,
            y,
        ) implies #[trigger] settled(free2, x, y) by {
        assert(trail2[trail.len() as int] == (t.0 as usize, t.1 as usize));
        assert(!(x == t.0 && y == t.1));
        assert(free2[y][x] == free[y][x]);
        if on_trail(trail, x, y) {
            let k = choose|k: int|
                0 <= k < trail.len() && (#[trigger] trail[k]).0 == x && trail[k].1 == y;
            assert(trail2[k] == trail[k]);
            assert(on_trail(trail2, x, y));
        }
        assert(settled(free, x, y));
        assert forall|e: Dir| !can_go(free2, (x, y), e) by {
            assert(!can_go(free, (x, y), e));
            let u = target((x, y), e);
            if is_node(free2, u) {
                assert(is_node(free, u));
            }
        }
    }
}

/// Carving a step from the last node of the trail to a node not visited yet
/// keeps the maze in the state that `carving` describes, and visits one
/// node.
pub proof fn lemma_carve(
    g: Cells,
    free: Free,
    trail: Seq<(usize, usize)>,
    w: int,
    h: int,
    s: (int, int),
    d: Dir,
)
    requires
        carving(g, free, trail, w, h, s),
        trail.len() > 0,
        can_go(free, top(trail), d),
        w <= usize::MAX,
        h <= usize::MAX,
    ensures
        carving(
            carved(g, top(trail), d),
            visit(free, target(top(trail), d)),
            extended(trail, target(top(trail), d)),
            w,
            h,
            s,
        ),
        count_cells(visit(free, target(top(trail), d)), is_free()) + 1 == count_cells(
            free,
            is_free(),
        ),
{
    lemma_before_step(g, free, trail, w, h, s, d);
    lemma_carve_cells(g, free, trail, w, h, s, d);
    lemma_carve_reach(g, free, trail, w, h, s, d);
    lemma_carve_counts(g, free, trail, w, h, s, d);
    lemma_carve_trail(g, free, trail, w, h, s, d);
    assert(free[s.1].len() == w);
}

/// Leaving the last node of the trail, once it is settled, keeps the maze in
/// the state that `carving` describes.
pub proof fn lemma_retreat(
    g: Cells,
    free: Free,
    trail: Seq<(usize, usize)>,
    w: int,
    h: int,
    s: (int, int),
)
    requires
        carving(g, free, trail, w, h, s),
        trail.len() > 0,
        settled(free, top(trail).0, top(trail).1),
    ensures
        carving(g, free, trail.drop_last(), w, h, s),
{
    let trail2 = trail.drop_last();
    assert forall|k: int| 0 <= k < trail2.len() implies {
        let n = #[trigger] trail2[k];
        is_node(free, (n.0 as int, n.1 as int)) && !free_at(free, (n.0 as int, n.1 as int))
    } by {
        let n = trail[k];
        assert(trail2[k] == n);
        assert(is_node(free, (n.0 as int, n.1 as int)));
    }
    assert forall|x: int, y: int|
        is_node(free, (x, y)) && !free_at(free, (x, y)) && !on_trail(
            trail2,
            x,
            y,
        ) implies #[trigger] settled(free, x, y) by {
        if on_trail(trail, x, y) {
            let k = choose|k: int|
                0 <= k < trail.len() && (#[trigger] trail[k]).0 == x && trail[k].1 == y;
            if k < trail2.len() {
                assert(trail2[k] == trail[k]);
                assert(on_trail(trail2, x, y));
            }
            assert(x == top(trail).0 && y == top(trail).1);
        }
    }
}

/// A grid of `Dirt` with `PlayerStart` at the cell of the node `s`, with
/// `s` the one visited node and alone on the trail, is in the state that
/// `carving` describes.
pub proof fn lemma_begin(g0: Cells, free0: Free, w: int, h: int, s: (int, int))
    requires
        w >= 1,
        h >= 1,
        has_shape(g0, 2 * h + 1, 2 * w + 1),
        has_shape(free0, h, w),
        forall|i: int, j: int| in_grid(g0, i, j) ==> #[trigger] g0[i][j] == Block::Dirt,
        forall|i: int, j: int| in_grid(free0, i, j) ==> #[trigger] free0[i][j],
        0 <= s.0 < w,
        0 <= s.1 < h,
        w <= usize::MAX,
        h <= usize::MAX,
    ensures
        carving(
            with_cell(g0, node_cell(s.1), node_cell(s.0), Block::PlayerStart),
            visit(free0, s),
            seq![(s.0 as usize, s.1 as usize)],
            w,
            h,
            s,
        ),
{
    let sc = cell_of(s);
    let g = with_cell(g0, sc.0, sc.1, Block::PlayerStart);
    let free = visit(free0, s);
    let trail = seq![(s.0 as usize, s.1 as usize)];
    assert(g0[sc.0].len() == 2 * w + 1);
    assert(free0[s.1].len() == w);
    assert(in_grid(g0, sc.0, sc.1));
    assert(in_grid(free0, s.1, s.0));
    assert forall|i: int, j: int| in_grid(g, i, j) implies #[trigger] cell_ok(g, free, s, i, j) by {
        assert(in_grid(g0, i, j));
        assert(g0[i][j] == Block::Dirt);
        assert(g0[i].len() == 2 * w + 1);
        if i % 2 == 1 && j % 2 == 1 {
            assert(free0[i / 2].len() == w);
            assert(in_grid(free0, i / 2, j / 2));
            assert(free0[i / 2][j / 2]);
        }
    }
    assert(trail[0] == (s.0 as usize, s.1 as usize));
    assert forall|x: int, y: int|
        is_node(free, (x, y)) && !free_at(free, (x, y)) && !on_trail(
            trail,
            x,
            y,
        ) implies #[trigger] settled(free, x, y) by {
        assert(in_grid(free0, y, x));
        assert(free0[y][x]);
        assert(x == s.0 && y == s.1);
        assert(trail[0].0 == x && trail[0].1 == y);
    }
    assert forall|c: (int, int)| open_at(g, c) implies #[trigger] connected(g, sc, c) by {
        assert(in_grid(g0, c.0, c.1));
        assert(g0[c.0][c.1] == Block::Dirt);
        assert(c == sc);
        lemma_connected_refl(g, sc);
    }
    assert(count_cells(g, is_start()) == 1) by {
        assert forall|i: int, j: int| 0 <= i < g0.len() && 0 <= j < g0[i].len() implies !is_start()(
            i,
            j,
            #[trigger] g0[i][j],
        ) by {
            assert(in_grid(g0, i, j));
        }
        lemma_count_none(g0, g0.len() as int, is_start());
        lemma_count_cells_update(g0, sc.0, sc.1, Block::PlayerStart, is_start());
    }
    assert(carved_walls(g) == 0) by {
        assert forall|i: int, j: int|
            0 <= i < g0.len() && 0 <= j < g0[i].len() implies !is_carved_wall()(
            i,
            j,
            #[trigger] g0[i][j],
        ) by {
            assert(in_grid(g0, i, j));
        }
        lemma_count_none(g0, g0.len() as int, is_carved_wall());
        lemma_count_cells_update(g0, sc.0, sc.1, Block::PlayerStart, is_carved_wall());
    }
    assert(count_cells(free, is_free()) + 1 == w * h) by {
        assert forall|i: int, j: int| 0 <= i < h && 0 <= j < w implies is_free()(
            i,
            j,
            #[trigger] free0[i][j],
        ) by {
            assert(free0[i].len() == w);
            assert(in_grid(free0, i, j));
        }
        lemma_count_all(free0, h, w, is_free());
        lemma_count_cells_update(free0, s.1, s.0, false, is_free());
        assert(h * w == w * h) by (nonlinear_arith);
    }
}

/// Where the start is visited and every visited node is settled, every node
/// is visited.
pub proof fn lemma_flood(free: Free, w: int, h: int, s: (int, int), x: int, y: int)
    requires
        has_shape(free, h, w),
        0 <= s.0 < w,
        0 <= s.1 < h,
        !free_at(free, s),
        forall|a: int, b: int|
            is_node(free, (a, b)) && !free_at(free, (a, b)) ==> #[trigger] settled(free, a, b),
        0 <= x < w,
        0 <= y < h,
    ensures
        !free_at(free, (x, y)),
    decreases (if x >= s.0 {
            x - s.0
        } else {
            s.0 - x
        }) + (if y >= s.1 {
            y - s.1
        } else {
            s.1 - y
        }),
{
    assert(free[y].len() == w);
    if x > s.0 {
        lemma_flood(free, w, h, s, x - 1, y);
        assert(settled(free, x - 1, y));
        assert(!can_go(free, (x - 1, y), Dir::Right));
    } else if x < s.0 {
        lemma_flood(free, w, h, s, x + 1, y);
        assert(settled(free, x + 1, y));
        assert(!can_go(free, (x + 1, y), Dir::Left));
    } else if y > s.1 {
        lemma_flood(free, w, h, s, x, y - 1);
        assert(free[y - 1].len() == w);
        assert(settled(free, x, y - 1));
        assert(!can_go(free, (x, y - 1), Dir::Up));
    } else if y < s.1 {
        lemma_flood(free, w, h, s, x, y + 1);
        assert(free[y + 1].len() == w);
        assert(settled(free, x, y + 1));
        assert(!can_go(free, (x, y + 1), Dir::Down));
    }
}

/// Once the trail is empty, the grid is a maze.
pub proof fn lemma_finish(g: Cells, free: Free, w: int, h: int, s: (int, int))
    requires
        carving(g, free, Seq::<(usize, usize)>::empty(), w, h, s),
    ensures
        is_maze(g, w, h),
        count_cells(free, is_free()) == 0,
{
    let none = Seq::<(usize, usize)>::empty();
    assert forall|a: int, b: int|
        is_node(free, (a, b)) && !free_at(free, (a, b)) implies #[trigger] settled(free, a, b) by {
        assert(!on_trail(none, a, b));
    }
    assert forall|i: int, j: int| 0 <= i < free.len() && 0 <= j < free[i].len() implies !is_free()(
        i,
        j,
        #[trigger] free[i][j],
    ) by {
        lemma_flood(free, w, h, s, j, i);
    }
    lemma_count_none(free, free.len() as int, is_free());
    assert forall|i: int, j: int|
        in_grid(g, i, j) && (i == 0 || i == g.len() - 1 || j == 0 || j == g[i].len() - 1)
        implies #[trigger] g[i][j] == Block::Dirt by {
        assert(cell_ok(g, free, s, i, j));
    }
    assert forall|i: int, j: int| in_grid(g, i, j) implies {
        let b = #[trigger] g[i][j];
        &&& b != Block::PlayerEnd
        &&& (i % 2 == 1 && j % 2 == 1 ==> b != Block::Dirt)
        &&& (i % 2 == 0 && j % 2 == 0 ==> b == Block::Dirt)
        &&& (i % 2 != j % 2 ==> b != Block::PlayerStart)
    } by {
        assert(cell_ok(g, free, s, i, j));
        assert(g[i].len() == 2 * w + 1);
        if i % 2 == 1 && j % 2 == 1 {
            lemma_flood(free, w, h, s, j / 2, i / 2);
        }
    }
    lemma_all_reach_connects(g, cell_of(s));
}

} // verus!
