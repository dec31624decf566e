use vstd::prelude::*;

verus! {

/// Errors surfaced by the checked entry points.
#[derive(Clone, Copy, Debug, PartialEq, Eq, Structural)]
pub enum LifeError {
    /// A grid or window dimension is zero.
    InvalidDimension,
    /// A grid whose rows do not all have the same length.
    ShapeMismatch,
}

/// A grid is well formed when it has at least one row, at least one column,
/// and every row has the same length (rectangular, no jagged rows).
pub open spec fn grid_wf(g: Seq<Seq<bool>>) -> bool {
    &&& g.len() > 0
    &&& g[0].len() > 0
    &&& forall|y: int| 0 <= y < g.len() ==> #[trigger] g[y].len() == g[0].len()
}

/// 1 for a live cell, 0 for a dead one.
pub open spec fn live(b: bool) -> int {
    if b {
        1
    } else {
        0
    }
}

/// Whether (y, x) lies on the grid and holds a live cell; coordinates off the
/// grid count as dead (boundary-clamped neighborhood, no wraparound).
pub open spec fn alive_at(g: Seq<Seq<bool>>, y: int, x: int) -> bool {
    0 <= y < g.len() && 0 <= x < g[y].len() && g[y][x]
}

/// Number of live cells among the up-to-8 Moore neighbors of (y, x).
pub open spec fn neighbor_count(g: Seq<Seq<bool>>, y: int, x: int) -> int {
    live(alive_at(g, y - 1, x - 1)) + live(alive_at(g, y - 1, x)) + live(
        alive_at(g, y - 1, x + 1),
    ) + live(alive_at(g, y, x - 1)) + live(alive_at(g, y, x + 1)) + live(
        alive_at(g, y + 1, x - 1),
    ) + live(alive_at(g, y + 1, x)) + live(alive_at(g, y + 1, x + 1))
}

/// The rule applied to one cell, kept as the original three-way branch:
/// exactly 3 live neighbors makes the cell alive, exactly 2 leaves it
/// unchanged, and any other count kills it.
pub open spec fn step_cell(g: Seq<Seq<bool>>, y: int, x: int) -> bool {
    if neighbor_count(g, y, x) == 3 {
        true
    } else if neighbor_count(g, y, x) == 2 {
        g[y][x]
    } else {
        false
    }
}

/// `gout` is the generation that follows `gin`: identical dimensions, and
/// every cell is the rule applied to `gin`.
pub open spec fn stepped(gin: Seq<Seq<bool>>, gout: Seq<Seq<bool>>) -> bool {
    &&& gout.len() == gin.len()
    &&& forall|y: int| 0 <= y < gin.len() ==> #[trigger] gout[y].len() == gin[y].len()
    &&& forall|y: int, x: int|
        0 <= y < gin.len() && 0 <= x < gin[y].len() ==> #[trigger] gout[y][x] == step_cell(
            gin,
            y,
            x,
        )
}

/// The deep view of a row of the grid is the row's own view.
pub proof fn lemma_row_view(grid: &Vec<Vec<bool>>, y: int)
    requires
        0 <= y < grid@.len(),
    ensures
        grid.deep_view()[y] == grid@[y]@,
{
    assert(grid.deep_view()[y] =~= grid@[y]@);
}

/// Runtime check for `grid_wf`, naming what is wrong: a grid with no row or
/// an empty first row is `InvalidDimension`, a jagged one is
/// `ShapeMismatch`.
pub fn check_shape(grid: &Vec<Vec<bool>>) -> (r: Result<(), LifeError>)
    ensures
        r is Ok <==> grid_wf(grid.deep_view()),
        r matches Err(e) ==> e == (if grid@.len() == 0 || grid.deep_view()[0].len() == 0 {
            LifeError::InvalidDimension
        } else {
            LifeError::ShapeMismatch
        }),
{
    if grid.len() == 0 {
        return Err(LifeError::InvalidDimension);
    }
    let width = grid[0].len();
    assert(width == grid.deep_view()[0].len()) by {
        assert(grid.deep_view()[0] =~= grid@[0]@);
    }
    if width == 0 {
        return Err(LifeError::InvalidDimension);
    }
    let mut y: usize = 1;
    while y < grid.len()
        invariant
            1 <= y <= grid.len(),
            grid.deep_view().len() == grid.len(),
            width == grid.deep_view()[0].len(),
            width > 0,
            forall|i: int| 0 <= i < y ==> #[trigger] grid.deep_view()[i].len() == width,
        decreases grid.len() - y,
    {
        if grid[y].len() != width {
            assert(grid.deep_view()[y as int].len() != width) by {
                assert(grid.deep_view()[y as int] =~= grid@[y as int]@);
            }
            return Err(LifeError::ShapeMismatch);
        }
        y += 1;
    }
    Ok(())
}

/// Runtime check for `grid_wf`: non-empty, non-empty first row, rectangular.
pub fn is_well_formed(grid: &Vec<Vec<bool>>) -> (r: bool)
    ensures
        r == grid_wf(grid.deep_view()),
{
    match check_shape(grid) {
        Ok(()) => true,
        Err(_) => false,
    }
}

} // verus!
