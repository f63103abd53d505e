//! The eight data masks, and the choice among them.
use crate::layout::{is_data_module, is_function};
use crate::penalty::{calc_penalty, penalty};
use crate::utils::{dark, grid, grid_of, in_grid, is_grid, lemma_dark_is_grid, lemma_grid_cells, lemma_grid_injective, set_module, Pixels};
use vstd::prelude::*;

verus! {

/// Whether mask `mask_id` inverts the module in column `x` of row `y`, were
/// it a data module.
pub open spec fn mask_bit(mask_id: int, x: int, y: int) -> bool {
    if mask_id == 0 {
        (x + y) % 2 == 0
    } else if mask_id == 1 {
        y % 2 == 0
    } else if mask_id == 2 {
        x % 3 == 0
    } else if mask_id == 3 {
        (x + y) % 3 == 0
    } else if mask_id == 4 {
        (y / 2 + x / 3) % 2 == 0
    } else if mask_id == 5 {
        (x * y) % 2 + (x * y) % 3 == 0
    } else if mask_id == 6 {
        ((x * y) % 2 + (x * y) % 3) % 2 == 0
    } else {
        ((x + y) % 2 + (x * y) % 3) % 2 == 0
    }
}

/// The grid `g` under mask `mask_id`: the data modules that the mask
/// selects are inverted, every other module is as in `g`.
pub open spec fn masked(g: Seq<Seq<bool>>, mask_id: int) -> Seq<Seq<bool>> {
    grid_of(|x: int, y: int| g[y][x] != (is_data_module(x, y) && mask_bit(mask_id, x, y)))
}

/// Whether `mask_id` is the mask to choose for `g`: none of the eight masks
/// gives a lower penalty, and every mask before it gives a higher one.
pub open spec fn is_best_mask(g: Seq<Seq<bool>>, mask_id: int) -> bool {
    &&& 0 <= mask_id < 8
    &&& forall|k: int|
        0 <= k < 8 ==> penalty(masked(g, mask_id)) <= #[trigger] penalty(masked(g, k))
    &&& forall|k: int|
        0 <= k < mask_id ==> penalty(masked(g, mask_id)) < #[trigger] penalty(masked(g, k))
}

/// The mask to choose for `g`.
pub open spec fn best_mask(g: Seq<Seq<bool>>) -> int {
    choose|mask_id: int| is_best_mask(g, mask_id)
}

/// A grid has one best mask and no more: the choice does not depend on
/// anything but the grid.
pub proof fn lemma_best_mask_unique(g: Seq<Seq<bool>>, a: int, b: int)
    requires
        is_best_mask(g, a),
        is_best_mask(g, b),
    ensures
        a == b,
        a == best_mask(g),
{
    if a < b {
        assert(penalty(masked(g, b)) < penalty(masked(g, a)));
        assert(penalty(masked(g, a)) <= penalty(masked(g, b)));
    }
    if b < a {
        assert(penalty(masked(g, a)) < penalty(masked(g, b)));
        assert(penalty(masked(g, b)) <= penalty(masked(g, a)));
    }
    let c = best_mask(g);
    if c < a {
        assert(penalty(masked(g, a)) < penalty(masked(g, c)));
        assert(penalty(masked(g, c)) <= penalty(masked(g, a)));
    }
    if a < c {
        assert(penalty(masked(g, c)) < penalty(masked(g, a)));
        assert(penalty(masked(g, a)) <= penalty(masked(g, c)));
    }
}

/// The first of the masks below `n` that has the lowest penalty among them.
proof fn lemma_first_minimum(g: Seq<Seq<bool>>, n: int) -> (k: int)
    requires
        1 <= n <= 8,
    ensures
        0 <= k < n,
        forall|j: int| 0 <= j < n ==> penalty(masked(g, k)) <= #[trigger] penalty(masked(g, j)),
        forall|j: int| 0 <= j < k ==> penalty(masked(g, k)) < #[trigger] penalty(masked(g, j)),
    decreases n,
{
    if n == 1 {
        0
    } else {
        let before = lemma_first_minimum(g, n - 1);
        if penalty(masked(g, n - 1)) < penalty(masked(g, before)) {
            n - 1
        } else {
            before
        }
    }
}

/// Every grid has a best mask.
pub proof fn lemma_best_mask_exists(g: Seq<Seq<bool>>)
    ensures
        is_best_mask(g, best_mask(g)),
{
    let k = lemma_first_minimum(g, 8);
    assert(is_best_mask(g, k));
}

/// Whether `chosen` is what choosing the mask for `g` gives: the number of
/// the best mask, and `g` under that mask.
pub open spec fn is_selection_of(g: Seq<Seq<bool>>, chosen: (usize, Pixels)) -> bool {
    is_best_mask(g, chosen.0 as int) && grid(chosen.1) == masked(g, chosen.0 as int)
}

/// Choosing the mask for one grid twice gives the same mask and the same
/// masked grid.
pub proof fn lemma_selection_deterministic(
    g: Seq<Seq<bool>>,
    first: (usize, Pixels),
    second: (usize, Pixels),
)
    requires
        is_selection_of(g, first),
        is_selection_of(g, second),
    ensures
        first == second,
{
    lemma_best_mask_unique(g, first.0 as int, second.0 as int);
    lemma_grid_injective(first.1, second.1);
}

/// A mask applied twice gives the grid back.
pub proof fn lemma_mask_twice(g: Seq<Seq<bool>>, mask_id: int)
    requires
        is_grid(g),
    ensures
        masked(masked(g, mask_id), mask_id) == g,
{
    let once = masked(g, mask_id);
    let twice = masked(once, mask_id);
    assert forall|y: int| 0 <= y < 37 implies twice[y] == g[y] by {
        assert(twice[y] =~= g[y]);
    }
    assert(twice =~= g);
}

/// A mask leaves the function modules as they are.
pub proof fn lemma_mask_keeps_function_modules(g: Seq<Seq<bool>>, mask_id: int, x: int, y: int)
    requires
        in_grid(x, y),
        !is_data_module(x, y),
    ensures
        masked(g, mask_id)[y][x] == g[y][x],
{
}

fn mask_at(mask_id: usize, x: usize, y: usize) -> (inverts: bool)
    requires
        mask_id < 8,
        x < 37,
        y < 37,
    ensures
        inverts == mask_bit(mask_id as int, x as int, y as int),
{
    assert(x * y <= 36 * 36) by (nonlinear_arith)
        requires
            x <= 36,
            y <= 36,
    ;
    if mask_id == 0 {
        (x + y) % 2 == 0
    } else if mask_id == 1 {
        y % 2 == 0
    } else if mask_id == 2 {
        x % 3 == 0
    } else if mask_id == 3 {
        (x + y) % 3 == 0
    } else if mask_id == 4 {
        (y / 2 + x / 3) % 2 == 0
    } else if mask_id == 5 {
        (x * y) % 2 + (x * y) % 3 == 0
    } else if mask_id == 6 {
        ((x * y) % 2 + (x * y) % 3) % 2 == 0
    } else {
        ((x + y) % 2 + (x * y) % 3) % 2 == 0
    }
}

/// Whether `(x, y)` comes before `(at_x, at_y)` when the grid is read row by
/// row.
spec fn read_before(x: int, y: int, at_x: int, at_y: int) -> bool {
    y < at_y || (y == at_y && x < at_x)
}

/// Applies mask `mask_id` to the grid.
pub fn set_mask(pixels: Pixels, mask_id: usize) -> (out: Pixels)
    requires
        mask_id < 8,
    ensures
        grid(out) == masked(grid(pixels), mask_id as int),
{
    let mut out: Pixels = pixels;
    for y in 0..37usize
        invariant
            mask_id < 8,
            forall|cx: int, cy: int|
                in_grid(cx, cy) ==> #[trigger] dark(out, cx, cy) == (dark(pixels, cx, cy) != (
                read_before(cx, cy, 0, y as int) && is_data_module(cx, cy) && mask_bit(
                    mask_id as int,
                    cx,
                    cy,
                ))),
    {
        for x in 0..37usize
            invariant
                mask_id < 8,
                y < 37,
                forall|cx: int, cy: int|
                    in_grid(cx, cy) ==> #[trigger] dark(out, cx, cy) == (dark(pixels, cx, cy) != (
                    read_before(cx, cy, x as int, y as int) && is_data_module(cx, cy) && mask_bit(
                        mask_id as int,
                        cx,
                        cy,
                    ))),
        {
            if !is_function(x, y) && mask_at(mask_id, x, y) {
                let inverted: bool = !pixels[y][x];
                set_module(&mut out, x, y, inverted);
            }
        }
    }
    proof {
        let g = grid(pixels);
        let k = mask_id as int;
        lemma_dark_is_grid(pixels);
        lemma_grid_cells(
            out,
            |x: int, y: int| g[y][x] != (is_data_module(x, y) && mask_bit(k, x, y)),
        );
    }
    out
}

/// Chooses the mask for a grid: applies each of the eight masks, scores the
/// results, and returns the number of the mask with the lowest penalty, the
/// first of them where several are equal, together with the grid under that
/// mask.
pub fn select_mask(pixels: Pixels) -> (chosen: (usize, Pixels))
    ensures
        is_selection_of(grid(pixels), chosen),
        chosen.0 < 8,
        chosen.0 == best_mask(grid(pixels)),
{
    let mut best: usize = 0;
    let mut best_grid: Pixels = set_mask(pixels, 0);
    let mut best_penalty: usize = calc_penalty(best_grid);
    for k in 1..8usize
        invariant
            best < k,
            grid(best_grid) == masked(grid(pixels), best as int),
            best_penalty == penalty(masked(grid(pixels), best as int)),
            forall|j: int|
                0 <= j < k ==> best_penalty <= #[trigger] penalty(masked(grid(pixels), j)),
            forall|j: int|
                0 <= j < best ==> best_penalty < #[trigger] penalty(masked(grid(pixels), j)),
    {
        let candidate: Pixels = set_mask(pixels, k);
        let candidate_penalty: usize = calc_penalty(candidate);
        if candidate_penalty < best_penalty {
            best = k;
            best_grid = candidate;
            best_penalty = candidate_penalty;
        }
    }
    proof {
        lemma_best_mask_unique(grid(pixels), best as int, best as int);
    }
    (best, best_grid)
}

} // verus!
