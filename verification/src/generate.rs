use vstd::prelude::*;

use rand::{Rng, SeedableRng};
use rand_chacha::ChaCha8Rng;

use vstd::arithmetic::mul::lemma_mul_nonnegative;

use crate::grid::{grid_wf, LifeError};

verus! {

#[verifier::external_type_specification]
#[verifier::external_body]
pub struct ExChaCha8Rng(ChaCha8Rng);

/// The n-th boolean drawn from a ChaCha8 generator seeded from `seed`: a
/// pure function of the seed and of the draw's position, since building the
/// generator from a 64-bit seed is deterministic and every draw reads the
/// next word of its deterministic stream.
pub uninterp spec fn chacha_bool(seed: u64, n: nat) -> bool;

/// A seeded deterministic boolean source: a ChaCha8 generator, the seed it
/// was built from, and (ghost) how many booleans it has yielded so far.
struct SeededRng {
    inner: ChaCha8Rng,
    seed: u64,
    drawn: Ghost<nat>,
}

/// Relies on rand_chacha's ChaCha8Rng::seed_from_u64: it expands the 64-bit
/// seed into the generator's key deterministically, so the fresh generator
/// sits at position 0 of the stream that `chacha_bool(seed, _)` names.
#[verifier::external_body]
fn chacha_from_seed(seed: u64) -> (r: ChaCha8Rng) {
    ChaCha8Rng::seed_from_u64(seed)
}

/// Build a boolean source from a seed. The `seed` and `drawn` fields record
/// how `inner` was built and how many draws it has served; this module keeps
/// them in sync, which is what the contract of `draw_bool` rests on.
fn rng_from_seed(seed: u64) -> (r: SeededRng)
    ensures
        r.seed == seed,
        r.drawn@ == 0,
{
    SeededRng { inner: chacha_from_seed(seed), seed, drawn: Ghost(0) }
}

/// Relies on rand's Rng::gen::<bool>, which compares the generator's next
/// output word against zero: a pure function of the generator state, so the
/// call returns position `drawn` of the seed's stream and advances the
/// position by one.
#[verifier::external_body]
fn draw_bool(r: &mut SeededRng) -> (b: bool)
    ensures
        final(r).seed == old(r).seed,
        final(r).drawn@ == old(r).drawn@ + 1,
        b == chacha_bool(old(r).seed, old(r).drawn@),
{
    r.inner.gen()
}

/// The grid that the seeded generator produces: `h` rows of `w` cells,
/// filled in row-major order (all of row 0, then all of row 1, ...), cell
/// (y, x) holding draw number `y * w + x` of the seed's stream.
pub open spec fn generated_grid(gr: Seq<Seq<bool>>, w: nat, h: nat, seed: u64) -> bool {
    &&& gr.len() == h
    &&& forall|y: int| 0 <= y < h ==> (#[trigger] gr[y].len()) == w
    &&& forall|y: int, x: int|
        0 <= y < h && 0 <= x < w ==> (#[trigger] gr[y][x]) == chacha_bool(
            seed,
            (y * w + x) as nat,
        )
}

/// Produce the initial grid: `height` rows of `width` cells, each cell an
/// independent draw from a ChaCha8 generator seeded with `seed`, drawn in
/// row-major order. A zero dimension is refused with `InvalidDimension`.
pub fn generate_grid(width: usize, height: usize, seed: u64) -> (r: Result<
    Vec<Vec<bool>>,
    LifeError,
>)
    ensures
        r is Err <==> (width == 0 || height == 0),
        r matches Err(e) ==> e == LifeError::InvalidDimension,
        r matches Ok(gr) ==> generated_grid(gr.deep_view(), width as nat, height as nat, seed)
            && grid_wf(gr.deep_view()),
{
    broadcast use lemma_mul_nonnegative;

    if width == 0 || height == 0 {
        return Err(LifeError::InvalidDimension);
    }
    let mut rng = rng_from_seed(seed);
    let mut grid: Vec<Vec<bool>> = Vec::new();
    let mut y: usize = 0;
    while y < height
        invariant
            rng.seed == seed,
            rng.drawn@ == y * width,
            0 <= y <= height,
            width > 0,
            height > 0,
            grid.deep_view().len() == y,
            forall|i: int| 0 <= i < y ==> (#[trigger] grid.deep_view()[i].len()) == width,
            forall|i: int, j: int|
                0 <= i < y && 0 <= j < width ==> (#[trigger] grid.deep_view()[i][j])
                    == chacha_bool(seed, (i * width + j) as nat),
        decreases height - y,
    {
        let mut row: Vec<bool> = Vec::new();
        let mut x: usize = 0;
        while x < width
            invariant
                rng.seed == seed,
                rng.drawn@ == y * width + x,
                y < height,
                0 <= x <= width,
                width > 0,
                row@.len() == x,
                forall|j: int|
                    0 <= j < x ==> (#[trigger] row@[j]) == chacha_bool(
                        seed,
                        (y * width + j) as nat,
                    ),
            decreases width - x,
        {
            let b = draw_bool(&mut rng);
            row.push(b);
            x += 1;
        }
        let ghost old_grid = grid.deep_view();
        grid.push(row);
        proof {
            assert(grid.deep_view() =~~= old_grid.push(row@));
            assert((y as int + 1) * (width as int) == y as int * width as int + width as int)
                by (nonlinear_arith);
        }
        y += 1;
    }
    Ok(grid)
}

/// Determinism: two grids generated from the same width, height and seed are
/// equal, cell for cell.
pub proof fn lemma_generate_deterministic(
    g1: Seq<Seq<bool>>,
    g2: Seq<Seq<bool>>,
    w: nat,
    h: nat,
    seed: u64,
)
    requires
        generated_grid(g1, w, h, seed),
        generated_grid(g2, w, h, seed),
    ensures
        g1 == g2,
{
    assert forall|y: int| 0 <= y < h implies g1[y] =~= g2[y] by {
        assert(g1[y].len() == w);
        assert(g2[y].len() == w);
        assert forall|x: int| 0 <= x < w implies g1[y][x] == g2[y][x] by {
            assert(g1[y][x] == chacha_bool(seed, (y * w + x) as nat));
            assert(g2[y][x] == chacha_bool(seed, (y * w + x) as nat));
        }
    }
    assert(g1 =~~= g2);
}

} // verus!
