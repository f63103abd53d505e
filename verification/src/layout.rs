//! Geometry of the version 5 symbol: which modules are function modules, and
//! the order in which the data modules receive the codeword bits.
use crate::utils::in_grid;
use vstd::prelude::*;

verus! {

/// Number of data modules of the symbol: 134 codewords of eight bits, and
/// seven remainder bits.
pub const DATA_MODULES: usize = 1079;

/// Whether `(x, y)` belongs to a function pattern: the three finder patterns
/// with their separators and the format information beside them, the two
/// timing patterns, or the alignment pattern.
pub open spec fn is_function_module(x: int, y: int) -> bool {
    ||| (x <= 8 && y <= 8)
    ||| (x >= 29 && y <= 8)
    ||| (x <= 8 && y >= 29)
    ||| x == 6
    ||| y == 6
    ||| (28 <= x <= 32 && 28 <= y <= 32)
}

/// Whether `(x, y)` is a module of the grid that carries a codeword bit.
pub open spec fn is_data_module(x: int, y: int) -> bool {
    in_grid(x, y) && !is_function_module(x, y)
}

/// Tells whether a module of the grid belongs to a function pattern.
pub fn is_function(x: usize, y: usize) -> (r: bool)
    ensures
        r == is_function_module(x as int, y as int),
{
    (x <= 8 && y <= 8) || (x >= 29 && y <= 8) || (x <= 8 && y >= 29) || x == 6 || y == 6 || (28
        <= x && x <= 32 && 28 <= y && y <= 32)
}

/// The `i`-th module on the placement path, function modules included. The
/// path runs through pairs of columns from the right edge to the left,
/// upwards in the first pair and then alternating, takes the right module of
/// each row first, and passes over the column of the vertical timing pattern.
pub open spec fn zigzag(i: int) -> (usize, usize) {
    let pair = i / 74;
    let step = (i % 74) / 2;
    let right = if pair < 15 {
        36 - 2 * pair
    } else {
        35 - 2 * pair
    };
    let y = if pair % 2 == 0 {
        36 - step
    } else {
        step
    };
    ((right - i % 2) as usize, y as usize)
}

/// The place of a module on the placement path.
pub open spec fn zigzag_index(x: int, y: int) -> int {
    let pair = if x > 6 {
        (36 - x) / 2
    } else {
        15 + (5 - x) / 2
    };
    let side = if x > 6 {
        (36 - x) % 2
    } else {
        (5 - x) % 2
    };
    let step = if pair % 2 == 0 {
        36 - y
    } else {
        y
    };
    74 * pair + 2 * step + side
}

/// Whether the `i`-th module on the path is a data module.
pub open spec fn carries_data(i: int) -> bool {
    !is_function_module(zigzag(i).0 as int, zigzag(i).1 as int)
}

/// The data modules among the first `n` modules of the path, in path order.
pub open spec fn placement_prefix(n: nat) -> Seq<(usize, usize)>
    decreases n,
{
    if n == 0 {
        Seq::empty()
    } else if carries_data(n - 1) {
        placement_prefix((n - 1) as nat).push(zigzag(n - 1))
    } else {
        placement_prefix((n - 1) as nat)
    }
}

/// The placement order: every data module, in the order of the path.
pub open spec fn placement() -> Seq<(usize, usize)> {
    placement_prefix(1332)
}

/// The path stays on the grid, never enters column 6, and `zigzag_index`
/// finds every module of the path again.
pub proof fn lemma_zigzag_index(i: int)
    requires
        0 <= i < 1332,
    ensures
        zigzag(i).0 < 37,
        zigzag(i).1 < 37,
        zigzag(i).0 != 6,
        zigzag_index(zigzag(i).0 as int, zigzag(i).1 as int) == i,
{
}

/// The path reaches every module of the grid outside column 6, at the
/// place that `zigzag_index` gives.
pub proof fn lemma_index_zigzag(x: int, y: int)
    requires
        in_grid(x, y),
        x != 6,
    ensures
        0 <= zigzag_index(x, y) < 1332,
        zigzag(zigzag_index(x, y)) == (x as usize, y as usize),
{
}

/// Whether `c` is a data module that the path reaches within its first `n`
/// modules.
pub open spec fn placed_before(c: (usize, usize), n: int) -> bool {
    &&& is_data_module(c.0 as int, c.1 as int)
    &&& zigzag_index(c.0 as int, c.1 as int) < n
}

proof fn lemma_push_contains<A>(s: Seq<A>, a: A, c: A)
    ensures
        s.push(a).contains(c) <==> s.contains(c) || c == a,
{
    if s.contains(c) {
        let i = choose|i: int| 0 <= i < s.len() && s[i] == c;
        assert(s.push(a)[i] == c);
    }
    if c == a {
        assert(s.push(a)[s.len() as int] == c);
    }
}

/// The data modules among the first `n` modules of the path are the data
/// modules whose place on the path is below `n`.
pub proof fn lemma_prefix_contains(n: nat, c: (usize, usize))
    requires
        n <= 1332,
    ensures
        placement_prefix(n).contains(c) <==> placed_before(c, n as int),
    decreases n,
{
    if n == 0 {
        if in_grid(c.0 as int, c.1 as int) && c.0 != 6 {
            lemma_index_zigzag(c.0 as int, c.1 as int);
        }
    } else {
        lemma_prefix_contains((n - 1) as nat, c);
        lemma_zigzag_index(n - 1);
        if in_grid(c.0 as int, c.1 as int) && c.0 != 6 {
            lemma_index_zigzag(c.0 as int, c.1 as int);
        }
        if carries_data(n - 1) {
            lemma_push_contains(placement_prefix((n - 1) as nat), zigzag(n - 1), c);
        }
    }
}

/// No module occurs twice among the data modules of the path.
pub proof fn lemma_prefix_no_duplicates(n: nat)
    requires
        n <= 1332,
    ensures
        placement_prefix(n).no_duplicates(),
    decreases n,
{
    if n > 0 {
        lemma_prefix_no_duplicates((n - 1) as nat);
        if carries_data(n - 1) {
            let prev = placement_prefix((n - 1) as nat);
            let z = zigzag(n - 1);
            lemma_prefix_contains((n - 1) as nat, z);
            lemma_zigzag_index(n - 1);
            assert(!prev.contains(z));
            assert forall|i: int, j: int|
                0 <= i < prev.len() + 1 && 0 <= j < prev.len() + 1 && i != j implies prev.push(
                z,
            )[i] != prev.push(z)[j] by {
                if i < prev.len() {
                    assert(prev.contains(prev[i]));
                }
                if j < prev.len() {
                    assert(prev.contains(prev[j]));
                }
            }
        }
    }
}

/// Length of the placement order over a stretch of whole rows of one column
/// pair in which the right module of every row is a data module or none is,
/// and likewise the left.
proof fn lemma_run(lo: int, hi: int, right: bool, left: bool)
    requires
        0 <= lo <= hi,
        lo % 2 == 0,
        hi % 2 == 0,
        forall|i: int|
            lo <= i < hi ==> #[trigger] carries_data(i) == (if i % 2 == 0 {
                right
            } else {
                left
            }),
    ensures
        placement_prefix(hi as nat).len() == placement_prefix(lo as nat).len() + (if right {
            (hi - lo) / 2
        } else {
            0
        }) + (if left {
            (hi - lo) / 2
        } else {
            0
        }),
    decreases hi - lo,
{
    if lo < hi {
        lemma_run(lo, hi - 2, right, left);
        assert(carries_data(hi - 1) == left);
        assert(carries_data(hi - 2) == right);
        assert(placement_prefix((hi - 1) as nat).len() == placement_prefix((hi - 2) as nat).len()
            + if right {
            1int
        } else {
            0int
        });
    }
}

proof fn lemma_pairs_right_edge()
    ensures
        placement_prefix(148).len() == 112,
{
    lemma_run(0, 56, true, true);
    lemma_run(56, 74, false, false);
    lemma_run(74, 92, false, false);
    lemma_run(92, 148, true, true);
}

proof fn lemma_pairs_beside_alignment()
    ensures
        placement_prefix(296).len() == placement_prefix(148).len() + 92,
{
    lemma_run(148, 156, true, true);
    lemma_run(156, 166, false, false);
    lemma_run(166, 204, true, true);
    lemma_run(204, 222, false, false);
    lemma_run(222, 240, false, false);
    lemma_run(240, 278, true, true);
    lemma_run(278, 288, false, false);
    lemma_run(288, 296, true, true);
}

proof fn lemma_pair_left_of_alignment()
    ensures
        placement_prefix(370).len() == placement_prefix(296).len() + 67,
{
    lemma_run(296, 304, true, true);
    lemma_run(304, 314, false, true);
    lemma_run(314, 356, true, true);
    lemma_run(356, 358, false, false);
    lemma_run(358, 370, true, true);
}

proof fn lemma_pair_full_height(pair: int)
    requires
        5 <= pair <= 13,
    ensures
        placement_prefix((74 * pair + 74) as nat).len() == placement_prefix(
            (74 * pair) as nat,
        ).len() + 72,
{
    let base = 74 * pair;
    if pair % 2 == 0 {
        lemma_run(base, base + 60, true, true);
        lemma_run(base + 60, base + 62, false, false);
        lemma_run(base + 62, base + 74, true, true);
    } else {
        lemma_run(base, base + 12, true, true);
        lemma_run(base + 12, base + 14, false, false);
        lemma_run(base + 14, base + 74, true, true);
    }
}

proof fn lemma_pairs_full_height()
    ensures
        placement_prefix(1036).len() == placement_prefix(370).len() + 648,
{
    lemma_pair_full_height(5);
    lemma_pair_full_height(6);
    lemma_pair_full_height(7);
    lemma_pair_full_height(8);
    lemma_pair_full_height(9);
    lemma_pair_full_height(10);
    lemma_pair_full_height(11);
    lemma_pair_full_height(12);
    lemma_pair_full_height(13);
}

proof fn lemma_pairs_left_edge()
    ensures
        placement_prefix(1332).len() == placement_prefix(1036).len() + 160,
{
    lemma_run(1036, 1052, false, false);
    lemma_run(1052, 1092, true, true);
    lemma_run(1092, 1110, false, false);
    lemma_run(1110, 1128, false, false);
    lemma_run(1128, 1168, true, true);
    lemma_run(1168, 1184, false, false);
    lemma_run(1184, 1200, false, false);
    lemma_run(1200, 1240, true, true);
    lemma_run(1240, 1258, false, false);
    lemma_run(1258, 1276, false, false);
    lemma_run(1276, 1316, true, true);
    lemma_run(1316, 1332, false, false);
}

/// The placement order holds every data module of the grid exactly once, and
/// nothing else; there are 1079 of them.
pub proof fn lemma_placement_is_exact()
    ensures
        placement().len() == DATA_MODULES,
        placement().no_duplicates(),
        forall|c: (usize, usize)| #[trigger]
            placement().contains(c) <==> is_data_module(c.0 as int, c.1 as int),
{
    lemma_pairs_right_edge();
    lemma_pairs_beside_alignment();
    lemma_pair_left_of_alignment();
    lemma_pairs_full_height();
    lemma_pairs_left_edge();
    lemma_prefix_no_duplicates(1332);
    assert forall|c: (usize, usize)| #[trigger]
        placement().contains(c) <==> is_data_module(c.0 as int, c.1 as int) by {
        lemma_prefix_contains(1332, c);
        if is_data_module(c.0 as int, c.1 as int) {
            lemma_index_zigzag(c.0 as int, c.1 as int);
        }
    }
}

/// Computes the placement order.
pub fn placement_order() -> (order: Vec<(usize, usize)>)
    ensures
        order@ == placement(),
        order.len() == DATA_MODULES,
{
    let mut order: Vec<(usize, usize)> = Vec::new();
    let mut pair: usize = 0;
    while pair < 18
        invariant
            pair <= 18,
            order@ == placement_prefix((74 * pair) as nat),
        decreases 18 - pair,
    {
        let right: usize = if pair < 15 {
            36 - 2 * pair
        } else {
            35 - 2 * pair
        };
        let mut step: usize = 0;
        while step < 37
            invariant
                pair < 18,
                step <= 37,
                right == if pair < 15 {
                    36 - 2 * pair
                } else {
                    35 - 2 * pair
                },
                order@ == placement_prefix((74 * pair + 2 * step) as nat),
            decreases 37 - step,
        {
            let y: usize = if pair % 2 == 0 {
                36 - step
            } else {
                step
            };
            let ghost i: int = 74 * pair + 2 * step;
            assert(zigzag(i) == (right, y));
            assert(zigzag(i + 1) == ((right - 1) as usize, y));
            if !is_function(right, y) {
                order.push((right, y));
            }
            assert(order@ == placement_prefix((i + 1) as nat));
            if !is_function(right - 1, y) {
                order.push((right - 1, y));
            }
            assert(order@ == placement_prefix((i + 2) as nat));
            step += 1;
        }
        pair += 1;
    }
    proof {
        lemma_placement_is_exact();
    }
    order
}

} // verus!
