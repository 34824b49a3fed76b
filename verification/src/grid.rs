//! Grids as sequences of rows, and counting the cells of a grid that meet a
//! condition.

use vstd::prelude::*;

verus! {

/// The rows of a vector of vectors, each as a sequence.
pub open spec fn rows_of<T>(v: Seq<Vec<T>>) -> Seq<Seq<T>> {
    Seq::new(v.len(), |i: int| v[i]@)
}

/// Every row of `g` has `cols` cells, and there are `rows` of them.
pub open spec fn has_shape<T>(g: Seq<Seq<T>>, rows: int, cols: int) -> bool {
    &&& g.len() == rows
    &&& forall|i: int| 0 <= i < rows ==> (#[trigger] g[i]).len() == cols
}

/// `(i, j)` names a cell of `g`: row `i` exists and has a cell `j`.
pub open spec fn in_grid<T>(g: Seq<Seq<T>>, i: int, j: int) -> bool {
    0 <= i < g.len() && 0 <= j < g[i].len()
}

/// `g` with the cell `(i, j)` replaced by `v`.
pub open spec fn with_cell<T>(g: Seq<Seq<T>>, i: int, j: int, v: T) -> Seq<Seq<T>> {
    g.update(i, g[i].update(j, v))
}

/// 1 if `b`, else 0.
pub open spec fn one_if(b: bool) -> nat {
    if b {
        1
    } else {
        0
    }
}

/// The number of cells among the first `n` of `row` that meet `f`; `f` is
/// given the row's index `i`, the cell's index and the cell.
pub open spec fn count_in_row<T>(row: Seq<T>, i: int, n: int, f: spec_fn(int, int, T) -> bool) -> nat
    decreases n,
{
    if n <= 0 {
        0
    } else {
        count_in_row(row, i, n - 1, f) + one_if(f(i, n - 1, row[n - 1]))
    }
}

/// The number of cells in the first `n` rows of `g` that meet `f`.
pub open spec fn count_in_rows<T>(g: Seq<Seq<T>>, n: int, f: spec_fn(int, int, T) -> bool) -> nat
    decreases n,
{
    if n <= 0 {
        0
    } else {
        count_in_rows(g, n - 1, f) + count_in_row(g[n - 1], n - 1, g[n - 1].len() as int, f)
    }
}

/// The number of cells of `g` that meet `f`.
pub open spec fn count_cells<T>(g: Seq<Seq<T>>, f: spec_fn(int, int, T) -> bool) -> nat {
    count_in_rows(g, g.len() as int, f)
}

/// Replacing cell `j` of a row changes the count of its first `n` cells by
/// what the old and the new cell contribute, if `j` is among them.
pub proof fn lemma_count_in_row_update<T>(
    row: Seq<T>,
    i: int,
    n: int,
    j: int,
    v: T,
    f: spec_fn(int, int, T) -> bool,
)
    requires
        0 <= j < row.len(),
        n <= row.len(),
    ensures
        j < n ==> count_in_row(row.update(j, v), i, n, f) + one_if(f(i, j, row[j]))
            == count_in_row(row, i, n, f) + one_if(f(i, j, v)),
        j >= n ==> count_in_row(row.update(j, v), i, n, f) == count_in_row(row, i, n, f),
    decreases n,
{
    if n > 0 {
        lemma_count_in_row_update(row, i, n - 1, j, v, f);
    }
}

/// Replacing the cell `(i, j)` of a grid changes the count over its first `n`
/// rows by what the old and the new cell contribute, if row `i` is among
/// them.
pub proof fn lemma_count_in_rows_update<T>(
    g: Seq<Seq<T>>,
    n: int,
    i: int,
    j: int,
    v: T,
    f: spec_fn(int, int, T) -> bool,
)
    requires
        in_grid(g, i, j),
        n <= g.len(),
    ensures
        i < n ==> count_in_rows(with_cell(g, i, j, v), n, f) + one_if(f(i, j, g[i][j]))
            == count_in_rows(g, n, f) + one_if(f(i, j, v)),
        i >= n ==> count_in_rows(with_cell(g, i, j, v), n, f) == count_in_rows(g, n, f),
    decreases n,
{
    if n > 0 {
        lemma_count_in_rows_update(g, n - 1, i, j, v, f);
        if i == n - 1 {
            lemma_count_in_row_update(g[i], i, g[i].len() as int, j, v, f);
        }
    }
}

/// Replacing one cell of a grid changes the count of the cells that meet `f`
/// by what the old and the new cell contribute.
pub proof fn lemma_count_cells_update<T>(
    g: Seq<Seq<T>>,
    i: int,
    j: int,
    v: T,
    f: spec_fn(int, int, T) -> bool,
)
    requires
        in_grid(g, i, j),
    ensures
        count_cells(with_cell(g, i, j, v), f) + one_if(f(i, j, g[i][j])) == count_cells(g, f)
            + one_if(f(i, j, v)),
{
    lemma_count_in_rows_update(g, g.len() as int, i, j, v, f);
}

/// Where no cell among the first `n` of a row meets `f`, the count is 0;
/// where all do, it is `n`.
pub proof fn lemma_count_in_row_uniform<T>(
    row: Seq<T>,
    i: int,
    n: int,
    f: spec_fn(int, int, T) -> bool,
)
    requires
        0 <= n <= row.len(),
    ensures
        (forall|j: int| 0 <= j < n ==> !f(i, j, #[trigger] row[j])) ==> count_in_row(row, i, n, f)
            == 0,
        (forall|j: int| 0 <= j < n ==> f(i, j, #[trigger] row[j])) ==> count_in_row(row, i, n, f)
            == n,
    decreases n,
{
    if n > 0 {
        lemma_count_in_row_uniform(row, i, n - 1, f);
    }
}

/// Where no cell in the first `n` rows of a grid meets `f`, the count is 0.
pub proof fn lemma_count_none<T>(g: Seq<Seq<T>>, n: int, f: spec_fn(int, int, T) -> bool)
    requires
        0 <= n <= g.len(),
        forall|i: int, j: int| 0 <= i < n && 0 <= j < g[i].len() ==> !f(i, j, #[trigger] g[i][j]),
    ensures
        count_in_rows(g, n, f) == 0,
    decreases n,
{
    if n > 0 {
        lemma_count_none(g, n - 1, f);
        let row = g[n - 1];
        assert forall|j: int| 0 <= j < row.len() implies !f(n - 1, j, #[trigger] row[j]) by {
            assert(!f(n - 1, j, g[n - 1][j]));
        }
        lemma_count_in_row_uniform(row, n - 1, row.len() as int, f);
    }
}

/// Where every cell in the first `n` rows of a grid meets `f`, and each row
/// has `cols` cells, the count is `n * cols`.
pub proof fn lemma_count_all<T>(
    g: Seq<Seq<T>>,
    n: int,
    cols: int,
    f: spec_fn(int, int, T) -> bool,
)
    requires
        0 <= n <= g.len(),
        forall|i: int| 0 <= i < n ==> (#[trigger] g[i]).len() == cols,
        forall|i: int, j: int| 0 <= i < n && 0 <= j < cols ==> f(i, j, #[trigger] g[i][j]),
    ensures
        count_in_rows(g, n, f) == n * cols,
    decreases n,
{
    if n > 0 {
        lemma_count_all(g, n - 1, cols, f);
        let row = g[n - 1];
        assert forall|j: int| 0 <= j < cols implies f(n - 1, j, #[trigger] row[j]) by {
            assert(f(n - 1, j, g[n - 1][j]));
        }
        lemma_count_in_row_uniform(row, n - 1, cols, f);
        assert(n * cols == (n - 1) * cols + cols) by (nonlinear_arith);
    } else {
        assert(n * cols == 0) by (nonlinear_arith)
            requires
                n == 0,
        ;
    }
}

} // verus!
