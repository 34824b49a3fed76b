//! What it means for a block grid to be a maze: its corridors, the paths
//! through them, and the shape that a maze over a grid of nodes has.

use vstd::prelude::*;
use crate::block::Block;
use crate::grid::{count_cells, has_shape, in_grid};

verus! {

/// A block grid, as rows of cells: the cell in column `x` of row `y` stands
/// at `[y][x]`. A cell is named by its row and its column, in that order.
pub type Cells = Seq<Seq<Block>>;

/// The index, along one axis of the block grid, of the cell that stands for
/// node `n`.
pub open spec fn node_cell(n: int) -> int {
    2 * n + 1
}

/// The cell `c` lies in `g` and can be walked through.
pub open spec fn open_at(g: Cells, c: (int, int)) -> bool {
    &&& in_grid(g, c.0, c.1)
    &&& (g[c.0][c.1] == Block::Air || g[c.0][c.1] == Block::PlayerStart)
}

/// The cells `a` and `b` share an edge.
pub open spec fn adjacent(a: (int, int), b: (int, int)) -> bool {
    ||| (a.0 == b.0 && (a.1 == b.1 + 1 || a.1 + 1 == b.1))
    ||| (a.1 == b.1 && (a.0 == b.0 + 1 || a.0 + 1 == b.0))
}

/// `p` is a walk through `g`: a non-empty sequence of open cells, each
/// sharing an edge with the next.
pub open spec fn is_path(g: Cells, p: Seq<(int, int)>) -> bool {
    &&& p.len() >= 1
    &&& forall|k: int| 0 <= k < p.len() ==> open_at(g, #[trigger] p[k])
    &&& forall|k: int| 0 <= k < p.len() - 1 ==> adjacent(#[trigger] p[k], p[k + 1])
}

/// `p` is a walk through `g` from `a` to `b`.
pub open spec fn path_between(g: Cells, p: Seq<(int, int)>, a: (int, int), b: (int, int)) -> bool {
    is_path(g, p) && p[0] == a && p[p.len() - 1] == b
}

/// Some walk through `g` leads from `a` to `b`.
pub open spec fn connected(g: Cells, a: (int, int), b: (int, int)) -> bool {
    exists|p: Seq<(int, int)>| path_between(g, p, a, b)
}

/// Every open cell of `g` can be reached from `a`.
pub open spec fn all_reach(g: Cells, a: (int, int)) -> bool {
    forall|c: (int, int)| open_at(g, c) ==> #[trigger] connected(g, a, c)
}

/// The open cells of `g` form one connected component: a walk leads from
/// each to each.
pub open spec fn fully_connected(g: Cells) -> bool {
    forall|a: (int, int), b: (int, int)|
        open_at(g, a) && open_at(g, b) ==> #[trigger] connected(g, a, b)
}

/// The cell is `PlayerStart`.
pub open spec fn is_start() -> spec_fn(int, int, Block) -> bool {
    |i: int, j: int, b: Block| b == Block::PlayerStart
}

/// The cell lies between two nodes and has been carved open.
pub open spec fn is_carved_wall() -> spec_fn(int, int, Block) -> bool {
    |i: int, j: int, b: Block| i % 2 != j % 2 && b == Block::Air
}

/// The number of walls between nodes that have been carved open.
pub open spec fn carved_walls(g: Cells) -> nat {
    count_cells(g, is_carved_wall())
}

/// Every cell on the rim of `g` is `Dirt`.
pub open spec fn sealed(g: Cells) -> bool {
    forall|i: int, j: int|
        in_grid(g, i, j) && (i == 0 || i == g.len() - 1 || j == 0 || j == g[i].len() - 1)
            ==> #[trigger] g[i][j] == Block::Dirt
}

/// Every node's cell is open, every cell between four nodes is `Dirt`, every
/// other cell is `Dirt` or `Air`, and no cell is `PlayerEnd`.
pub open spec fn laid_out(g: Cells) -> bool {
    forall|i: int, j: int|
        in_grid(g, i, j) ==> {
            let b = #[trigger] g[i][j];
            &&& b != Block::PlayerEnd
            &&& (i % 2 == 1 && j % 2 == 1 ==> b != Block::Dirt)
            &&& (i % 2 == 0 && j % 2 == 0 ==> b == Block::Dirt)
            &&& (i % 2 != j % 2 ==> b != Block::PlayerStart)
        }
}

/// `g` is a maze over `w` columns and `h` rows of nodes: `2h+1` rows of
/// `2w+1` cells, sealed by `Dirt` all round, with one `PlayerStart`, with
/// each node's cell open (the node in column `x` and row `y` has its cell in
/// row `2y+1`, column `2x+1`), with one wall fewer carved than there are
/// nodes, and with a walk from each open cell to each other.
pub open spec fn is_maze(g: Cells, w: int, h: int) -> bool {
    &&& w >= 1
    &&& h >= 1
    &&& has_shape(g, 2 * h + 1, 2 * w + 1)
    &&& sealed(g)
    &&& laid_out(g)
    &&& count_cells(g, is_start()) == 1
    &&& carved_walls(g) == w * h - 1
    &&& fully_connected(g)
}

/// An open cell is connected to itself.
pub proof fn lemma_connected_refl(g: Cells, a: (int, int))
    requires
        open_at(g, a),
    ensures
        connected(g, a, a),
{
    assert(path_between(g, seq![a], a, a));
}

/// A walk can be taken one step further, to an open cell next to its end.
pub proof fn lemma_connected_step(g: Cells, a: (int, int), b: (int, int), c: (int, int))
    requires
        connected(g, a, b),
        open_at(g, c),
        adjacent(b, c),
    ensures
        connected(g, a, c),
{
    let p = choose|p: Seq<(int, int)>| path_between(g, p, a, b);
    let q = p.push(c);
    assert forall|k: int| 0 <= k < q.len() implies open_at(g, #[trigger] q[k]) by {
        if k < p.len() {
            assert(q[k] == p[k]);
        }
    }
    assert forall|k: int| 0 <= k < q.len() - 1 implies adjacent(#[trigger] q[k], q[k + 1]) by {
        assert(q[k] == p[k]);
        if k + 1 < p.len() {
            assert(q[k + 1] == p[k + 1]);
        }
    }
    assert(path_between(g, q, a, c));
}

/// A walk can be taken backwards.
pub proof fn lemma_connected_sym(g: Cells, a: (int, int), b: (int, int))
    requires
        connected(g, a, b),
    ensures
        connected(g, b, a),
{
    let p = choose|p: Seq<(int, int)>| path_between(g, p, a, b);
    let n = p.len() as int;
    let q = Seq::new(p.len(), |k: int| p[n - 1 - k]);
    assert forall|k: int| 0 <= k < q.len() implies open_at(g, #[trigger] q[k]) by {
        assert(q[k] == p[n - 1 - k]);
    }
    assert forall|k: int| 0 <= k < q.len() - 1 implies adjacent(#[trigger] q[k], q[k + 1]) by {
        assert(q[k] == p[n - 1 - k]);
        assert(q[k + 1] == p[n - 2 - k]);
        assert(adjacent(p[n - 2 - k], p[n - 2 - k + 1]));
    }
    assert(path_between(g, q, b, a));
}

/// Two walks that meet make one.
pub proof fn lemma_connected_trans(g: Cells, a: (int, int), b: (int, int), c: (int, int))
    requires
        connected(g, a, b),
        connected(g, b, c),
    ensures
        connected(g, a, c),
{
    let p = choose|p: Seq<(int, int)>| path_between(g, p, a, b);
    let r = choose|r: Seq<(int, int)>| path_between(g, r, b, c);
    let n = p.len() as int;
    // r's first cell is p's last: it is taken once.
    let q = p + r.subrange(1, r.len() as int);
    assert forall|k: int| 0 <= k < q.len() implies open_at(g, #[trigger] q[k]) by {
        if k < n {
            assert(q[k] == p[k]);
        } else {
            assert(q[k] == r[k - n + 1]);
        }
    }
    assert forall|k: int| 0 <= k < q.len() - 1 implies adjacent(#[trigger] q[k], q[k + 1]) by {
        if k + 1 < n {
            assert(q[k] == p[k]);
            assert(q[k + 1] == p[k + 1]);
        } else if k + 1 == n {
            assert(q[k] == p[k]);
            assert(q[k + 1] == r[1]);
            assert(adjacent(r[0int], r[0int + 1]));
        } else {
            assert(q[k] == r[k - n + 1]);
            assert(q[k + 1] == r[k - n + 1 + 1]);
        }
    }
    if r.len() == 1 {
        assert(q =~= p);
    } else {
        assert(q[q.len() - 1] == r[r.len() - 1]);
    }
    assert(path_between(g, q, a, c));
}

/// A walk stays a walk in a grid that has every open cell of the first still
/// open.
pub proof fn lemma_connected_mono(g: Cells, g2: Cells, a: (int, int), b: (int, int))
    requires
        connected(g, a, b),
        forall|c: (int, int)| open_at(g, c) ==> open_at(g2, c),
    ensures
        connected(g2, a, b),
{
    let p = choose|p: Seq<(int, int)>| path_between(g, p, a, b);
    assert(path_between(g2, p, a, b));
}

/// Where every open cell can be reached from one cell, the open cells are
/// connected among themselves.
pub proof fn lemma_all_reach_connects(g: Cells, s: (int, int))
    requires
        all_reach(g, s),
    ensures
        fully_connected(g),
{
    assert forall|a: (int, int), b: (int, int)| open_at(g, a) && open_at(g, b) implies #[trigger] connected(g, a, b) by {
        assert(connected(g, s, a));
        assert(connected(g, s, b));
        lemma_connected_sym(g, s, a);
        lemma_connected_trans(g, a, s, b);
    }
}

} // verus!
