//! The function patterns of the symbol: finder patterns, timing patterns,
//! the alignment pattern and the dark module.
use crate::layout::is_function_module;
use crate::utils::{blank_grid, dark, grid, grid_of, in_grid, lemma_dark_is_grid, lemma_grid_cells, lemma_grid_injective, set_module, Pixels, PIXELS};
use vstd::prelude::*;

verus! {

/// Whether the module at offset `(dx, dy)` from the top left corner of a
/// finder pattern is one of its dark modules: the outer ring of the 7 by 7
/// square, or its 3 by 3 core.
pub open spec fn finder_dark(dx: int, dy: int) -> bool {
    &&& 0 <= dx <= 6
    &&& 0 <= dy <= 6
    &&& (dx == 0 || dx == 6 || dy == 0 || dy == 6 || (2 <= dx <= 4 && 2 <= dy <= 4))
}

/// Whether `(x, y)` is a dark module of the alignment pattern: the ring of
/// the 5 by 5 square centred on `(30, 30)`, or its centre.
pub open spec fn alignment_dark(x: int, y: int) -> bool {
    &&& 28 <= x <= 32
    &&& 28 <= y <= 32
    &&& (x == 28 || x == 32 || y == 28 || y == 32 || (x == 30 && y == 30))
}

/// Whether `(x, y)` is a dark module of a timing pattern: every second
/// module of row 6 and of column 6 between the finder patterns.
pub open spec fn timing_dark(x: int, y: int) -> bool {
    ||| (y == 6 && 8 <= x <= 28 && x % 2 == 0)
    ||| (x == 6 && 8 <= y <= 28 && y % 2 == 0)
}

/// Whether `(x, y)` is a dark module of the function patterns.
pub open spec fn structural_dark(x: int, y: int) -> bool {
    ||| finder_dark(x, y)
    ||| finder_dark(x - 30, y)
    ||| finder_dark(x, y - 30)
    ||| alignment_dark(x, y)
    ||| timing_dark(x, y)
    ||| (x == 8 && y == 29)
}

/// The grid `g` with the dark modules of the function patterns laid over it.
pub open spec fn with_structure(g: Seq<Seq<bool>>) -> Seq<Seq<bool>> {
    grid_of(|x: int, y: int| g[y][x] || structural_dark(x, y))
}

/// The function patterns lie on function modules only.
pub proof fn lemma_structure_on_function_modules(x: int, y: int)
    requires
        structural_dark(x, y),
    ensures
        in_grid(x, y),
        is_function_module(x, y),
{
}

/// Laying the function patterns over a grid a second time changes nothing.
pub proof fn lemma_structure_idempotent(g: Seq<Seq<bool>>)
    ensures
        with_structure(with_structure(g)) == with_structure(g),
{
    let once = with_structure(g);
    let twice = with_structure(once);
    assert forall|y: int| 0 <= y < 37 implies twice[y] == once[y] by {
        assert(twice[y] =~= once[y]);
    }
    assert(twice =~= once);
}

/// The function patterns on a light grid are made of the fixed geometry
/// alone: a module is dark where the patterns are, and nowhere else.
pub proof fn lemma_structure_of_blank()
    ensures
        with_structure(blank_grid()) == grid_of(|x: int, y: int| structural_dark(x, y)),
{
    let s = with_structure(blank_grid());
    let t = grid_of(|x: int, y: int| structural_dark(x, y));
    assert forall|y: int| 0 <= y < 37 implies s[y] == t[y] by {
        assert(s[y] =~= t[y]);
    }
    assert(s =~= t);
}

/// Laying the function patterns on two fresh grids gives the same grid
/// twice, and laying them on the result once more leaves it as it is.
pub proof fn lemma_fresh_structure_repeats(
    first: Pixels,
    second: Pixels,
    again: Pixels,
)
    requires
        grid(first) == with_structure(blank_grid()),
        grid(second) == with_structure(blank_grid()),
        grid(again) == with_structure(grid(first)),
    ensures
        first == second,
        again == first,
{
    lemma_structure_idempotent(blank_grid());
    lemma_grid_injective(first, second);
    lemma_grid_injective(again, first);
}

/// The modules that the first pass has darkened after `i` rounds: the top
/// and bottom edges of the three finder patterns.
spec fn edges_done(i: int, x: int, y: int) -> bool {
    ||| ((y == 0 || y == 6) && (0 <= x < i || 36 - i < x <= 36))
    ||| ((y == 30 || y == 36) && 0 <= x < i)
}

/// The modules that the second pass has darkened after `i` rounds: the side
/// edges of the finder patterns and the ring of the alignment pattern.
spec fn sides_done(i: int, x: int, y: int) -> bool {
    ||| (1 <= y < 1 + i && (x == 0 || x == 6 || x == 30 || x == 36))
    ||| (31 <= y < 31 + i && (x == 0 || x == 6))
    ||| (y == 28 && 28 <= x < 28 + i)
    ||| (x == 28 && 28 <= y < 28 + i)
    ||| (y == 32 && 32 - i < x <= 32)
    ||| (x == 32 && 32 - i < y <= 32)
}

/// The modules of the timing patterns at places below `i`.
spec fn timing_done(i: int, x: int, y: int) -> bool {
    ||| (y == 6 && 8 <= x < i && x % 2 == 0)
    ||| (x == 6 && 8 <= y < i && y % 2 == 0)
}

/// The modules of the finder cores in the first `i` columns of each core,
/// and in column `i` the first `j` rows.
spec fn cores_done(i: int, j: int, x: int, y: int) -> bool {
    ||| (2 <= y <= 4 && (2 <= x < 2 + i || 32 <= x < 32 + i))
    ||| (32 <= y <= 34 && 2 <= x < 2 + i)
    ||| (2 <= y < 2 + j && (x == 2 + i || x == 32 + i))
    ||| (32 <= y < 32 + j && x == 2 + i)
}

/// Lays the dark modules of the function patterns over the grid: three
/// finder patterns, two timing patterns, the alignment pattern and the dark
/// module. Modules that are dark already stay dark; the light modules of the
/// patterns are not written.
pub fn set_finder_patterns(pixels: &mut Pixels)
    ensures
        grid(*final(pixels)) == with_structure(grid(*old(pixels))),
{
    for i in 0..7usize
        invariant
            forall|x: int, y: int|
                in_grid(x, y) ==> #[trigger] dark(*pixels, x, y) == (dark(*old(pixels), x, y)
                    || edges_done(i as int, x, y)),
    {
        set_module(pixels, i, 0, true);
        set_module(pixels, PIXELS - 1 - i, 0, true);
        set_module(pixels, i, 6, true);
        set_module(pixels, PIXELS - 1 - i, 6, true);
        set_module(pixels, i, PIXELS - 7, true);
        set_module(pixels, i, PIXELS - 1, true);
    }
    for i in 0..5usize
        invariant
            forall|x: int, y: int|
                in_grid(x, y) ==> #[trigger] dark(*pixels, x, y) == (dark(*old(pixels), x, y)
                    || edges_done(7, x, y) || sides_done(i as int, x, y)),
    {
        set_module(pixels, 0, 1 + i, true);
        set_module(pixels, 6, 1 + i, true);
        set_module(pixels, PIXELS - 7, 1 + i, true);
        set_module(pixels, PIXELS - 1, 1 + i, true);
        set_module(pixels, 0, 31 + i, true);
        set_module(pixels, 6, 31 + i, true);
        set_module(pixels, 28 + i, 28, true);
        set_module(pixels, 28, 28 + i, true);
        set_module(pixels, 32 - i, 32, true);
        set_module(pixels, 32, 32 - i, true);
    }
    for i in 8..29usize
        invariant
            forall|x: int, y: int|
                in_grid(x, y) ==> #[trigger] dark(*pixels, x, y) == (dark(*old(pixels), x, y)
                    || edges_done(7, x, y) || sides_done(5, x, y) || timing_done(i as int, x, y)),
    {
        if i % 2 == 0 {
            set_module(pixels, 6, i, true);
            set_module(pixels, i, 6, true);
        }
    }
    for i in 0..3usize
        invariant
            forall|x: int, y: int|
                in_grid(x, y) ==> #[trigger] dark(*pixels, x, y) == (dark(*old(pixels), x, y)
                    || edges_done(7, x, y) || sides_done(5, x, y) || timing_done(29, x, y)
                    || cores_done(i as int, 0, x, y)),
    {
        for j in 0..3usize
            invariant
                i < 3,
                forall|x: int, y: int|
                    in_grid(x, y) ==> #[trigger] dark(*pixels, x, y) == (dark(*old(pixels), x, y)
                        || edges_done(7, x, y) || sides_done(5, x, y) || timing_done(29, x, y)
                        || cores_done(i as int, j as int, x, y)),
        {
            set_module(pixels, 2 + i, 2 + j, true);
            set_module(pixels, 32 + i, 2 + j, true);
            set_module(pixels, 2 + i, 32 + j, true);
        }
    }
    set_module(pixels, 8, 29, true);
    set_module(pixels, PIXELS - 7, PIXELS - 7, true);
    proof {
        let before = grid(*old(pixels));
        lemma_dark_is_grid(*old(pixels));
        lemma_grid_cells(*pixels, |x: int, y: int| before[y][x] || structural_dark(x, y));
    }
}

} // verus!
