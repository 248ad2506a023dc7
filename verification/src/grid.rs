//! The integer side of choosing how many columns an automatic grid gets.
//!
//! A grid of `n` tiles can use any column count from 1 to `n`, except that
//! from four tiles on it never uses `n - 1` columns: that leaves a single
//! orphan tile alone on its last row (seven columns for eight tiles). Each
//! candidate comes with the rows it needs and the cells it leaves empty; the
//! choice among the candidates weighs their on-screen aspect ratio, which is
//! floating-point work done by the caller.
use vstd::prelude::*;

verus! {

/// One way to lay out a grid: its columns, the rows they need, and the cells
/// left empty in the last row.
#[derive(Clone, Copy, Debug, PartialEq, Eq, Structural)]
pub struct GridShape {
    /// The number of columns.
    pub num_columns: usize,
    /// The number of rows needed to hold all tiles.
    pub num_rows: usize,
    /// The cells of the grid that hold no tile.
    pub num_empty_cells: usize,
}

/// May a grid of `n` tiles use `num_columns` columns?
pub open spec fn is_column_candidate(n: int, num_columns: int) -> bool {
    1 <= num_columns <= n && !(4 <= n && num_columns == n - 1)
}

/// How many column counts a grid of `n` tiles may use.
pub open spec fn candidate_count(n: int) -> int {
    if n >= 4 {
        n - 1
    } else if n >= 0 {
        n
    } else {
        0
    }
}

/// The `i`-th column count (counting from 0, smallest first) that a grid of
/// `n` tiles may use.
pub open spec fn candidate_columns(n: int, i: int) -> int {
    if 4 <= n && i >= n - 2 {
        i + 2
    } else {
        i + 1
    }
}

/// `shape` lays out `n` tiles: the rows are the fewest that hold them in
/// `shape.num_columns` columns, and the empty cells are the rest.
pub open spec fn is_shape_for(n: int, shape: GridShape) -> bool {
    &&& shape.num_columns >= 1
    &&& shape.num_rows * shape.num_columns >= n
    &&& (shape.num_rows - 1) * shape.num_columns < n
    &&& shape.num_empty_cells == shape.num_columns * shape.num_rows - n
}

/// The shape of a grid of `n` tiles in `num_columns` columns.
pub fn grid_shape(n: usize, num_columns: usize) -> (shape: GridShape)
    requires
        num_columns >= 1,
    ensures
        shape.num_columns == num_columns,
        is_shape_for(n as int, shape),
        shape.num_empty_cells < num_columns,
{
    let full_rows = n / num_columns;
    let rest = n % num_columns;
    proof {
        lemma_div_mod(n as int, num_columns as int);
    }
    if rest == 0 {
        proof {
            assert((full_rows - 1) * num_columns == full_rows * num_columns - num_columns) by (nonlinear_arith);
            assert(num_columns * full_rows == full_rows * num_columns) by (nonlinear_arith);
        }
        GridShape { num_columns, num_rows: full_rows, num_empty_cells: 0 }
    } else {
        proof {
            assert((full_rows + 1) * num_columns == full_rows * num_columns + num_columns) by (nonlinear_arith);
            assert(num_columns * (full_rows + 1) == (full_rows + 1) * num_columns) by (nonlinear_arith);
            assert(full_rows * num_columns <= n);
            assert(full_rows < n) by (nonlinear_arith)
                requires
                    full_rows * num_columns <= n,
                    num_columns >= 1,
                    rest > 0,
                    n == full_rows * num_columns + rest,
            ;
        }
        GridShape { num_columns, num_rows: full_rows + 1, num_empty_cells: num_columns - rest }
    }
}

/// `n == (n / d) * d + n % d` and `0 <= n % d < d`.
proof fn lemma_div_mod(n: int, d: int)
    requires
        n >= 0,
        d >= 1,
    ensures
        n == (n / d) * d + n % d,
        0 <= n % d < d,
        n / d >= 0,
{
    assert(n == (n / d) * d + n % d && 0 <= n % d < d && n / d >= 0) by (nonlinear_arith)
        requires
            n >= 0,
            d >= 1,
    ;
}

/// Every shape a grid of `n` tiles may take, by increasing column count:
/// one per column count from 1 to `n`, except `n - 1` once `n` is four or
/// more.
pub fn grid_shape_candidates(n: usize) -> (shapes: Vec<GridShape>)
    ensures
        shapes@.len() == candidate_count(n as int),
        forall|i: int|
            0 <= i < shapes@.len() ==> (#[trigger] shapes@[i]).num_columns == candidate_columns(n as int, i)
                && is_shape_for(n as int, shapes@[i]),
{
    let mut shapes: Vec<GridShape> = Vec::new();
    let mut done: usize = 0;
    while done < n
        invariant
            done <= n,
            shapes@.len() == (if 4 <= n && done >= n - 1 {
                done - 1
            } else {
                done as int
            }),
            forall|i: int|
                0 <= i < shapes@.len() ==> (#[trigger] shapes@[i]).num_columns == candidate_columns(n as int, i)
                    && is_shape_for(n as int, shapes@[i]),
        decreases n - done,
    {
        let num_columns = done + 1;
        if !(4 <= n && num_columns == n - 1) {
            shapes.push(grid_shape(n, num_columns));
        }
        done = num_columns;
    }
    shapes
}

/// Every column count that a grid of `n` tiles may use occurs among its
/// candidate shapes, and nothing else does: in particular, from four tiles
/// on, never one column short of one row.
pub proof fn lemma_candidates_are_exactly_allowed(n: int)
    requires
        n >= 0,
    ensures
        forall|i: int| 0 <= i < candidate_count(n) ==> is_column_candidate(n, #[trigger] candidate_columns(n, i)),
        forall|c: int|
            is_column_candidate(n, c) ==> exists|i: int|
                0 <= i < candidate_count(n) && #[trigger] candidate_columns(n, i) == c,
        forall|i: int, j: int|
            0 <= i < j < candidate_count(n) ==> candidate_columns(n, i) < candidate_columns(n, j),
{
    assert forall|c: int| is_column_candidate(n, c) implies exists|i: int|
        0 <= i < candidate_count(n) && #[trigger] candidate_columns(n, i) == c by {
        if 4 <= n && c == n {
            assert(candidate_columns(n, n - 2) == c);
        } else {
            assert(candidate_columns(n, c - 1) == c);
        }
    }
}

/// The column counts a grid of `n` tiles may use, said without the helper
/// definitions: from four tiles on, the counts 1 to `n - 2` and then `n`,
/// skipping `n - 1` (so there are `n - 1` of them); below four tiles, every
/// count from 1 to `n`. The `i`-th candidate shape of `grid_shape_candidates(n)` has the
/// `i`-th of these counts.
pub proof fn lemma_one_short_is_skipped_from_four_on(n: int)
    requires
        n >= 0,
    ensures
        n >= 4 ==> candidate_count(n) == n - 1,
        n < 4 ==> candidate_count(n) == n,
        forall|i: int|
            0 <= i < candidate_count(n) ==> 1 <= #[trigger] candidate_columns(n, i) <= n && (n >= 4
                ==> candidate_columns(n, i) != n - 1),
        n >= 4 ==> forall|i: int| 0 <= i < n - 2 ==> #[trigger] candidate_columns(n, i) == i + 1,
        n >= 4 ==> candidate_columns(n, n - 2) == n,
        n < 4 ==> forall|i: int| 0 <= i < candidate_count(n) ==> #[trigger] candidate_columns(n, i) == i + 1,
{
}

/// A shape's rows are a ceiling division: every tile fits, and the last row
/// holds at least one tile, so fewer cells than a whole row stay empty.
pub proof fn lemma_shape_leaves_less_than_a_row_empty(n: int, shape: GridShape)
    requires
        n >= 0,
        is_shape_for(n, shape),
    ensures
        shape.num_empty_cells < shape.num_columns,
        n > 0 ==> shape.num_rows >= 1,
{
    assert(shape.num_columns * shape.num_rows == shape.num_rows * shape.num_columns) by (nonlinear_arith);
    assert((shape.num_rows - 1) * shape.num_columns == shape.num_rows * shape.num_columns - shape.num_columns)
        by (nonlinear_arith);
    if n > 0 && shape.num_rows == 0 {
        assert(shape.num_rows * shape.num_columns == 0) by (nonlinear_arith)
            requires
                shape.num_rows == 0,
        ;
    }
}

} // verus!
