//! Placement of the codeword bits on the data modules.
use crate::utils::{dark, grid, grid_of, in_grid, lemma_dark_is_grid, lemma_grid_cells, set_module, Pixels};
use vstd::prelude::*;

verus! {

/// The last of the first `n` places of `order` that names the module
/// `(x, y)`; -1 where none of them does.
pub open spec fn last_write(order: Seq<(usize, usize)>, n: int, x: int, y: int) -> int
    decreases n,
{
    if n <= 0 {
        -1
    } else if order[n - 1].0 == x && order[n - 1].1 == y {
        n - 1
    } else {
        last_write(order, n - 1, x, y)
    }
}

/// The grid `g` after `bits[i]` has been written to the module `order[i]`
/// for every `i` in turn: a module that `order` names holds the bit of the
/// last place that names it, every other module is that of `g`.
pub open spec fn placed(g: Seq<Seq<bool>>, bits: Seq<bool>, order: Seq<(usize, usize)>) -> Seq<
    Seq<bool>,
> {
    grid_of(
        |x: int, y: int|
            if last_write(order, order.len() as int, x, y) >= 0 {
                bits[last_write(order, order.len() as int, x, y)]
            } else {
                g[y][x]
            },
    )
}

/// `last_write` is a place below `n` that names the module, with no later
/// such place below `n`; it is -1 exactly where no place below `n` names it.
pub proof fn lemma_last_write(order: Seq<(usize, usize)>, n: int, x: int, y: int)
    requires
        0 <= n <= order.len(),
    ensures
        -1 <= last_write(order, n, x, y) < n,
        last_write(order, n, x, y) >= 0 ==> order[last_write(order, n, x, y)] == (
            x as usize,
            y as usize,
        ) && 0 <= x && 0 <= y,
        last_write(order, n, x, y) == -1 ==> forall|i: int|
            0 <= i < n ==> !(order[i].0 == x && order[i].1 == y),
        forall|i: int|
            last_write(order, n, x, y) < i < n ==> !(order[i].0 == x && order[i].1 == y),
    decreases n,
{
    if n > 0 {
        lemma_last_write(order, n - 1, x, y);
    }
}

/// Where no module is named twice, every bit is found on the module that its
/// place names, and the modules that are not named are untouched.
pub proof fn lemma_placed_without_duplicates(
    g: Seq<Seq<bool>>,
    bits: Seq<bool>,
    order: Seq<(usize, usize)>,
)
    requires
        order.no_duplicates(),
        forall|i: int| 0 <= i < order.len() ==> in_grid(order[i].0 as int, order[i].1 as int),
    ensures
        forall|i: int|
            0 <= i < order.len() ==> placed(g, bits, order)[#[trigger] order[i].1 as int][order[i].0 as int]
                == bits[i],
        forall|x: int, y: int|
            in_grid(x, y) && !order.contains((x as usize, y as usize)) ==> #[trigger] placed(
                g,
                bits,
                order,
            )[y][x] == g[y][x],
{
    let n = order.len() as int;
    assert forall|i: int| 0 <= i < n implies placed(
        g,
        bits,
        order,
    )[#[trigger] order[i].1 as int][order[i].0 as int] == bits[i] by {
        let x = order[i].0 as int;
        let y = order[i].1 as int;
        lemma_last_write(order, n, x, y);
        let k = last_write(order, n, x, y);
        assert(k >= 0);
        assert(order[k] == order[i]);
    }
    assert forall|x: int, y: int|
        in_grid(x, y) && !order.contains((x as usize, y as usize)) implies #[trigger] placed(
        g,
        bits,
        order,
    )[y][x] == g[y][x] by {
        lemma_last_write(order, n, x, y);
        let k = last_write(order, n, x, y);
        if k >= 0 {
            assert(order[k] == (x as usize, y as usize));
        }
    }
}

/// Writes `bits[i]` to the module `order[i]`, for every `i` in turn.
pub fn place_data(pixels: &mut Pixels, bits: &Vec<bool>, order: &Vec<(usize, usize)>)
    requires
        bits.len() == order.len(),
        forall|i: int| 0 <= i < order.len() ==> in_grid(order[i].0 as int, order[i].1 as int),
    ensures
        grid(*final(pixels)) == placed(grid(*old(pixels)), bits@, order@),
{
    let n: usize = order.len();
    for i in 0..n
        invariant
            n == order.len(),
            bits.len() == order.len(),
            forall|k: int| 0 <= k < order.len() ==> in_grid(order[k].0 as int, order[k].1 as int),
            forall|x: int, y: int|
                in_grid(x, y) ==> #[trigger] dark(*pixels, x, y) == (if last_write(
                    order@,
                    i as int,
                    x,
                    y,
                ) >= 0 {
                    bits@[last_write(order@, i as int, x, y)]
                } else {
                    dark(*old(pixels), x, y)
                }),
    {
        let c = order[i];
        set_module(pixels, c.0, c.1, bits[i]);
    }
    proof {
        let before = grid(*old(pixels));
        let b = bits@;
        let o = order@;
        lemma_dark_is_grid(*old(pixels));
        lemma_grid_cells(
            *pixels,
            |x: int, y: int|
                if last_write(o, o.len() as int, x, y) >= 0 {
                    b[last_write(o, o.len() as int, x, y)]
                } else {
                    before[y][x]
                },
        );
    }
}

} // verus!
