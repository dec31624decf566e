use vstd::prelude::*;

use crate::grid::{
    alive_at, check_shape, grid_wf, lemma_row_view, neighbor_count, step_cell, stepped, LifeError,
};

verus! {

/// Count the live cells among the up-to-8 neighbors of (y, x), clamped to the
/// grid boundary: neighbors outside the grid are not counted.
pub fn calculate_rule(grid: &Vec<Vec<bool>>, x: usize, y: usize) -> (r: i32)
    requires
        grid_wf(grid.deep_view()),
        y < grid@.len(),
        x < grid.deep_view()[y as int].len(),
    ensures
        r == neighbor_count(grid.deep_view(), y as int, x as int),
{
    let ghost g = grid.deep_view();
    proof {
        assert forall|i: int| 0 <= i < grid@.len() implies #[trigger] grid@[i]@.len() == g[i].len() by {
            lemma_row_view(grid, i);
        }
    }
    let height = grid.len();
    let width = grid[y].len();
    let mut count: i32 = 0;
    if y > 0 {
        if x > 0 && grid[y - 1][x - 1] {
            count += 1;
        }
        if grid[y - 1][x] {
            count += 1;
        }
        if x + 1 < width && grid[y - 1][x + 1] {
            count += 1;
        }
    }
    if x > 0 && grid[y][x - 1] {
        count += 1;
    }
    if x + 1 < width && grid[y][x + 1] {
        count += 1;
    }
    if y + 1 < height {
        if x > 0 && grid[y + 1][x - 1] {
            count += 1;
        }
        if grid[y + 1][x] {
            count += 1;
        }
        if x + 1 < width && grid[y + 1][x + 1] {
            count += 1;
        }
    }
    proof {
        assert forall|yi: int, xi: int|
            0 <= yi < g.len() && 0 <= xi < g[yi].len() implies #[trigger] g[yi][xi] == grid@[yi]@[xi] by {
            lemma_row_view(grid, yi);
        }
    }
    count
}

/// Produce the next generation: every cell of the result is the rule applied
/// to the input generation, read as a frozen snapshot. Dimensions are
/// preserved exactly.
pub fn run_simulation_step(grid: Vec<Vec<bool>>) -> (out: Vec<Vec<bool>>)
    requires
        grid_wf(grid.deep_view()),
    ensures
        stepped(grid.deep_view(), out.deep_view()),
        grid_wf(out.deep_view()),
{
    let ghost g = grid.deep_view();
    let mut out: Vec<Vec<bool>> = Vec::new();
    let mut y: usize = 0;
    while y < grid.len()
        invariant
            grid_wf(g),
            g == grid.deep_view(),
            g.len() == grid@.len(),
            y <= grid@.len(),
            out.deep_view().len() == y,
            forall|i: int| 0 <= i < y ==> #[trigger] out.deep_view()[i].len() == g[i].len(),
            forall|i: int, j: int|
                0 <= i < y && 0 <= j < g[i].len() ==> #[trigger] out.deep_view()[i][j]
                    == step_cell(g, i, j),
        decreases grid@.len() - y,
    {
        proof {
            lemma_row_view(&grid, y as int);
        }
        let width = grid[y].len();
        let mut row: Vec<bool> = Vec::new();
        let mut x: usize = 0;
        while x < width
            invariant
                grid_wf(g),
                g == grid.deep_view(),
                g.len() == grid@.len(),
                y < grid@.len(),
                width == g[y as int].len(),
                width == grid@[y as int]@.len(),
                x <= width,
                row@.len() == x,
                forall|j: int| 0 <= j < x ==> #[trigger] row@[j] == step_cell(g, y as int, j),
            decreases width - x,
        {
            let n = calculate_rule(&grid, x, y);
            let cell = if n == 3 {
                true
            } else if n == 2 {
                grid[y][x]
            } else {
                false
            };
            proof {
                lemma_row_view(&grid, y as int);
                assert(cell == step_cell(g, y as int, x as int));
            }
            row.push(cell);
            x += 1;
        }
        let ghost old_out = out.deep_view();
        out.push(row);
        proof {
            assert(out.deep_view() =~~= old_out.push(row@));
        }
        y += 1;
    }
    out
}

/// Checked entry point for the step: refuses a degenerate grid with
/// `InvalidDimension` and a jagged one with `ShapeMismatch`, and otherwise
/// returns the next generation.
pub fn try_simulation_step(grid: Vec<Vec<bool>>) -> (r: Result<Vec<Vec<bool>>, LifeError>)
    ensures
        r is Err <==> !grid_wf(grid.deep_view()),
        r matches Err(e) ==> e == (if grid@.len() == 0 || grid.deep_view()[0].len() == 0 {
            LifeError::InvalidDimension
        } else {
            LifeError::ShapeMismatch
        }),
        r matches Ok(out) ==> stepped(grid.deep_view(), out.deep_view()) && grid_wf(
            out.deep_view(),
        ),
{
    match check_shape(&grid) {
        Ok(()) => Ok(run_simulation_step(grid)),
        Err(e) => Err(e),
    }
}

/// A neighbor count is always between 0 and 8, so the counts that are
/// neither 2 nor 3 are exactly {0, 1, 4, 5, 6, 7, 8}.
pub proof fn lemma_neighbor_count_range(g: Seq<Seq<bool>>, y: int, x: int)
    ensures
        0 <= neighbor_count(g, y, x) <= 8,
{
}

/// Any cell with exactly 3 live neighbors is alive in the next generation,
/// whatever its state was.
pub proof fn lemma_three_neighbors_births(gin: Seq<Seq<bool>>, gout: Seq<Seq<bool>>, y: int, x: int)
    requires
        stepped(gin, gout),
        0 <= y < gin.len(),
        0 <= x < gin[y].len(),
        neighbor_count(gin, y, x) == 3,
    ensures
        gout[y][x],
{
}

/// Any cell with exactly 2 live neighbors keeps its state across a step.
pub proof fn lemma_two_neighbors_keeps_state(
    gin: Seq<Seq<bool>>,
    gout: Seq<Seq<bool>>,
    y: int,
    x: int,
)
    requires
        stepped(gin, gout),
        0 <= y < gin.len(),
        0 <= x < gin[y].len(),
        neighbor_count(gin, y, x) == 2,
    ensures
        gout[y][x] == gin[y][x],
{
}

/// Any cell whose neighbor count is not 2 and not 3 (so 0, 1, 4, 5, 6, 7 or
/// 8) is dead in the next generation.
pub proof fn lemma_other_counts_kill(gin: Seq<Seq<bool>>, gout: Seq<Seq<bool>>, y: int, x: int)
    requires
        stepped(gin, gout),
        0 <= y < gin.len(),
        0 <= x < gin[y].len(),
        neighbor_count(gin, y, x) != 2,
        neighbor_count(gin, y, x) != 3,
    ensures
        !gout[y][x],
{
}

/// Exactly the four cells of the 2x2 block whose top-left corner is (r, c)
/// are alive; every other cell of the grid is dead.
pub open spec fn only_block_alive(g: Seq<Seq<bool>>, r: int, c: int) -> bool {
    forall|y: int, x: int|
        0 <= y < g.len() && 0 <= x < g[y].len() ==> ((#[trigger] g[y][x]) <==> (r <= y <= r + 1
            && c <= x <= c + 1))
}

/// A 2x2 all-alive block with every other cell dead is a still life: one
/// step reproduces the grid exactly, so any number of steps leaves it
/// unchanged.
#[verifier::rlimit(30)]
pub proof fn lemma_block_still_life(gin: Seq<Seq<bool>>, gout: Seq<Seq<bool>>, r: int, c: int)
    requires
        grid_wf(gin),
        stepped(gin, gout),
        0 <= r,
        r + 1 < gin.len(),
        0 <= c,
        c + 1 < gin[0].len(),
        only_block_alive(gin, r, c),
    ensures
        gout == gin,
{
    assert forall|y: int, x: int|
        0 <= y < gin.len() && 0 <= x < gin[y].len() implies #[trigger] gout[y][x] == gin[y][x] by {
        assert forall|yi: int, xi: int| alive_at(gin, yi, xi) <==> (0 <= yi < gin.len() && 0 <= xi
            < gin[0].len() && r <= yi <= r + 1 && c <= xi <= c + 1) by {
            if 0 <= yi < gin.len() {
                assert(gin[yi].len() == gin[0].len());
            }
        }
        assert(gout[y][x] == step_cell(gin, y, x));
    }
    assert forall|y: int| 0 <= y < gin.len() implies gout[y] =~= gin[y] by {
        assert(gout[y].len() == gin[y].len());
    }
    assert(gout =~~= gin);
}

/// A grid with no live cell stays all dead: no spontaneous generation.
pub proof fn lemma_all_dead_stays_dead(gin: Seq<Seq<bool>>, gout: Seq<Seq<bool>>)
    requires
        stepped(gin, gout),
        forall|y: int, x: int| 0 <= y < gin.len() && 0 <= x < gin[y].len() ==> !(#[trigger] gin[y][x]),
    ensures
        forall|y: int, x: int| 0 <= y < gout.len() && 0 <= x < gout[y].len() ==> !(#[trigger] gout[y][x]),
{
    assert forall|y: int, x: int|
        0 <= y < gout.len() && 0 <= x < gout[y].len() implies !(#[trigger] gout[y][x]) by {
        assert forall|yi: int, xi: int| !alive_at(gin, yi, xi) by {
            if 0 <= yi < gin.len() && 0 <= xi < gin[yi].len() {
                assert(!gin[yi][xi]);
            }
        }
        assert(neighbor_count(gin, y, x) == 0);
        assert(gout[y][x] == step_cell(gin, y, x));
    }
}

} // verus!
