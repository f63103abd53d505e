//! The penalty score of a grid: the measure by which the mask is chosen.
//! Lower is better.
use crate::utils::{grid, grid_of, lemma_grid_cells, Pixels, PIXELS};
use vstd::prelude::*;

verus! {

/// The grid `g` with rows and columns exchanged.
pub open spec fn transposed(g: Seq<Seq<bool>>) -> Seq<Seq<bool>> {
    grid_of(|x: int, y: int| g[x][y])
}

/// The lengths of the maximal runs of equal modules in `line`, in order.
pub open spec fn run_lengths(line: Seq<bool>) -> Seq<nat>
    decreases line.len(),
{
    if line.len() == 0 {
        Seq::empty()
    } else if line.len() == 1 {
        seq![1nat]
    } else {
        let before = run_lengths(line.drop_last());
        if line[line.len() - 1] == line[line.len() - 2] {
            before.update(before.len() - 1, before.last() + 1)
        } else {
            before.push(1nat)
        }
    }
}

/// What a run of `length` equal modules costs: nothing below five modules,
/// and two less than its length from there on.
pub open spec fn run_score(length: nat) -> nat {
    if length >= 5 {
        (length - 2) as nat
    } else {
        0
    }
}

/// The sum of the costs of runs of the given lengths.
pub open spec fn sum_scores(runs: Seq<nat>) -> nat
    decreases runs.len(),
{
    if runs.len() == 0 {
        0
    } else {
        sum_scores(runs.drop_last()) + run_score(runs.last())
    }
}

/// The run penalty of one line.
pub open spec fn line_run_score(line: Seq<bool>) -> nat {
    sum_scores(run_lengths(line))
}

/// The run penalty of the first `n` rows of `g`.
pub open spec fn run_penalty_rows(g: Seq<Seq<bool>>, n: nat) -> nat
    decreases n,
{
    if n == 0 {
        0
    } else {
        run_penalty_rows(g, (n - 1) as nat) + line_run_score(g[n - 1])
    }
}

/// Whether the four modules of the 2 by 2 block with top left corner
/// `(x, y)` are equal.
pub open spec fn is_box(g: Seq<Seq<bool>>, x: int, y: int) -> bool {
    g[y][x] == g[y][x + 1] && g[y][x + 1] == g[y + 1][x] && g[y + 1][x] == g[y + 1][x + 1]
}

/// The number of blocks of four equal modules among the first `n` corners,
/// counted down the columns from left to right.
pub open spec fn boxes_before(g: Seq<Seq<bool>>, n: nat) -> nat
    decreases n,
{
    if n == 0 {
        0
    } else {
        boxes_before(g, (n - 1) as nat) + if is_box(g, (n - 1) / 36, (n - 1) % 36) {
            1nat
        } else {
            0nat
        }
    }
}

/// The first pattern that looks like a finder pattern with its separator:
/// dark, light, three dark, light, dark, four light.
pub open spec fn finder_then_light() -> Seq<bool> {
    seq![true, false, true, true, true, false, true, false, false, false, false]
}

/// The second such pattern: the first one reversed.
pub open spec fn light_then_finder() -> Seq<bool> {
    seq![false, false, false, false, true, false, true, true, true, false, true]
}

/// Whether `pattern` stands in `line` at offset `at`.
pub open spec fn occurs_at(line: Seq<bool>, pattern: Seq<bool>, at: int) -> bool {
    &&& 0 <= at
    &&& at + pattern.len() <= line.len()
    &&& forall|k: int| 0 <= k < pattern.len() ==> line[at + k] == pattern[k]
}

/// Whether `pattern` stands somewhere in `line`.
pub open spec fn contains_pattern(line: Seq<bool>, pattern: Seq<bool>) -> bool {
    exists|at: int| occurs_at(line, pattern, at)
}

/// Whether `line` holds one of the two patterns that look like a finder
/// pattern.
pub open spec fn looks_like_finder(line: Seq<bool>) -> bool {
    contains_pattern(line, finder_then_light()) || contains_pattern(line, light_then_finder())
}

/// The number of rows among the first `n` of `g` that hold a pattern which
/// looks like a finder pattern.
pub open spec fn finder_rows(g: Seq<Seq<bool>>, n: nat) -> nat
    decreases n,
{
    if n == 0 {
        0
    } else {
        finder_rows(g, (n - 1) as nat) + if looks_like_finder(g[n - 1]) {
            1nat
        } else {
            0nat
        }
    }
}

/// The number of dark modules among the first `n` of `g`, counted along the
/// rows from the top.
pub open spec fn darks_before(g: Seq<Seq<bool>>, n: nat) -> nat
    decreases n,
{
    if n == 0 {
        0
    } else {
        darks_before(g, (n - 1) as nat) + if g[(n - 1) / 37][(n - 1) % 37] {
            1nat
        } else {
            0nat
        }
    }
}

/// The distance of `v` from 50.
pub open spec fn off_balance(v: int) -> int {
    if v >= 50 {
        v - 50
    } else {
        50 - v
    }
}

/// The penalty for a grid with `darks` dark modules out of 1369. The share
/// of dark modules is cut to a whole number before it is turned into a
/// percentage, so the percentage is 0 unless every module is dark.
pub open spec fn dark_score(darks: nat) -> nat {
    let percent: int = (darks as int / 1369) * 100;
    let lower = off_balance((percent / 5) * 5);
    let upper = off_balance((percent / 5 + 1) * 5);
    (10 * if lower <= upper {
        lower
    } else {
        upper
    }) as nat
}

/// Penalty for runs of five or more equal modules in the rows of `g`.
pub open spec fn horiz_run_score(g: Seq<Seq<bool>>) -> nat {
    run_penalty_rows(g, 37)
}

/// Penalty for runs of five or more equal modules in the columns of `g`.
pub open spec fn vert_run_score(g: Seq<Seq<bool>>) -> nat {
    run_penalty_rows(transposed(g), 37)
}

/// Penalty for blocks of four equal modules: three for each, overlapping
/// blocks counted each by itself.
pub open spec fn box_score(g: Seq<Seq<bool>>) -> nat {
    3 * boxes_before(g, 1296)
}

/// Penalty for patterns that look like a finder pattern: forty for every
/// row and every column that holds one.
pub open spec fn finder_score(g: Seq<Seq<bool>>) -> nat {
    40 * (finder_rows(g, 37) + finder_rows(transposed(g), 37))
}

/// Penalty for the share of dark modules.
pub open spec fn dark_ratio_score(g: Seq<Seq<bool>>) -> nat {
    dark_score(darks_before(g, 1369))
}

/// The penalty score of a grid: the sum of its five parts.
pub open spec fn penalty(g: Seq<Seq<bool>>) -> nat {
    horiz_run_score(g) + vert_run_score(g) + box_score(g) + finder_score(g) + dark_ratio_score(g)
}

/// The parts of a penalty score.
#[derive(Debug)]
pub struct Penalty {
    pub horiz_run_penalty: usize,
    pub vert_run_penalty: usize,
    pub box_penalty: usize,
    pub finder_penalty: usize,
    pub dark_penalty: usize,
}

impl Penalty {
    /// The sum of the parts, as a number.
    pub open spec fn total(self) -> int {
        self.box_penalty + self.dark_penalty + self.finder_penalty + self.horiz_run_penalty
            + self.vert_run_penalty
    }

    /// Whether these are the parts of the penalty score of `g`.
    pub open spec fn is_score_of(self, g: Seq<Seq<bool>>) -> bool {
        &&& self.horiz_run_penalty == horiz_run_score(g)
        &&& self.vert_run_penalty == vert_run_score(g)
        &&& self.box_penalty == box_score(g)
        &&& self.finder_penalty == finder_score(g)
        &&& self.dark_penalty == dark_ratio_score(g)
    }

    /// Adds the parts up.
    pub fn finalize(self) -> (sum: usize)
        requires
            self.total() <= usize::MAX,
        ensures
            sum == self.total(),
    {
        self.box_penalty + self.dark_penalty + self.finder_penalty + self.horiz_run_penalty
            + self.vert_run_penalty
    }
}

/// Exchanges rows and columns.
pub fn rotate(pixels: Pixels) -> (out: Pixels)
    ensures
        grid(out) == transposed(grid(pixels)),
{
    let mut out_pixels: Pixels = [[false; PIXELS]; PIXELS];
    for i in 0..PIXELS
        invariant
            forall|a: int, b: int| 0 <= a < i && 0 <= b < 37 ==> out_pixels[a][b] == pixels[b][a],
    {
        for j in 0..PIXELS
            invariant
                i < 37,
                forall|a: int, b: int|
                    0 <= a < i && 0 <= b < 37 ==> out_pixels[a][b] == pixels[b][a],
                forall|b: int| 0 <= b < j ==> out_pixels[i as int][b] == pixels[b][i as int],
        {
            out_pixels[i][j] = pixels[j][i];
        }
    }
    proof {
        let g = grid(pixels);
        lemma_grid_cells(out_pixels, |x: int, y: int| g[x][y]);
    }
    out_pixels
}

fn run_cost(length: usize) -> (cost: usize)
    ensures
        cost == run_score(length as nat),
        cost <= length,
{
    if length >= 5 {
        length - 2
    } else {
        0
    }
}

/// The run penalty of one line.
pub fn line_run_penalty(line: &[bool; 37]) -> (score: usize)
    ensures
        score == line_run_score(line@),
        score <= 37,
{
    let mut total: usize = 0;
    let mut current: usize = 1;
    let mut i: usize = 1;
    assert(line@.take(1).drop_last() =~= Seq::<bool>::empty());
    assert(run_lengths(line@.take(1)) =~= seq![1nat]);
    assert(run_lengths(line@.take(1)).drop_last() =~= Seq::<nat>::empty());
    while i < 37
        invariant
            1 <= i <= 37,
            run_lengths(line@.take(i as int)).len() >= 1,
            current == run_lengths(line@.take(i as int)).last(),
            total == sum_scores(run_lengths(line@.take(i as int)).drop_last()),
            total + current <= i,
            current >= 1,
        decreases 37 - i,
    {
        proof {
            let next = line@.take(i + 1);
            let before = run_lengths(line@.take(i as int));
            assert(next.drop_last() =~= line@.take(i as int));
            if next[i as int] == next[i - 1] {
                assert(run_lengths(next) == before.update(before.len() - 1, before.last() + 1));
                assert(run_lengths(next).drop_last() =~= before.drop_last());
            } else {
                assert(run_lengths(next) == before.push(1nat));
                assert(run_lengths(next).drop_last() =~= before);
            }
        }
        if line[i] == line[i - 1] {
            current += 1;
        } else {
            total += run_cost(current);
            current = 1;
        }
        i += 1;
    }
    assert(line@.take(37) =~= line@);
    total + run_cost(current)
}

fn matches_at(line: &[bool; 37], pattern: &[bool; 11], at: usize) -> (found: bool)
    requires
        at + 11 <= 37,
    ensures
        found == occurs_at(line@, pattern@, at as int),
{
    let mut k: usize = 0;
    while k < 11
        invariant
            k <= 11,
            at + 11 <= 37,
            forall|j: int| 0 <= j < k ==> line@[at + j] == pattern@[j],
        decreases 11 - k,
    {
        if line[at + k] != pattern[k] {
            return false;
        }
        k += 1;
    }
    true
}

fn holds_pattern(line: &[bool; 37], pattern: &[bool; 11]) -> (found: bool)
    ensures
        found == contains_pattern(line@, pattern@),
{
    let mut at: usize = 0;
    while at <= 26
        invariant
            at <= 27,
            forall|a: int| 0 <= a < at ==> !occurs_at(line@, pattern@, a),
        decreases 27 - at,
    {
        if matches_at(line, pattern, at) {
            return true;
        }
        at += 1;
    }
    false
}

/// Tells whether a line holds a pattern that looks like a finder pattern.
pub fn line_looks_like_finder(line: &[bool; 37]) -> (found: bool)
    ensures
        found == looks_like_finder(line@),
{
    let first: [bool; 11] = [true, false, true, true, true, false, true, false, false, false, false];
    let second: [bool; 11] = [false, false, false, false, true, false, true, true, true, false, true];
    assert(first@ =~= finder_then_light());
    assert(second@ =~= light_then_finder());
    holds_pattern(line, &first) || holds_pattern(line, &second)
}

fn rows_run_penalty(pixels: &Pixels) -> (score: usize)
    ensures
        score == run_penalty_rows(grid(*pixels), 37),
        score <= 37 * 37,
{
    let mut total: usize = 0;
    for y in 0..37usize
        invariant
            total == run_penalty_rows(grid(*pixels), y as nat),
            total <= 37 * y,
    {
        assert(grid(*pixels)[y as int] == pixels[y as int]@);
        total += line_run_penalty(&pixels[y]);
    }
    total
}

fn rows_like_finder(pixels: &Pixels) -> (count: usize)
    ensures
        count == finder_rows(grid(*pixels), 37),
        count <= 37,
{
    let mut count: usize = 0;
    for y in 0..37usize
        invariant
            count == finder_rows(grid(*pixels), y as nat),
            count <= y,
    {
        assert(grid(*pixels)[y as int] == pixels[y as int]@);
        if line_looks_like_finder(&pixels[y]) {
            count += 1;
        }
    }
    count
}

fn count_boxes(pixels: &Pixels) -> (count: usize)
    ensures
        count == boxes_before(grid(*pixels), 1296),
        count <= 1296,
{
    let mut count: usize = 0;
    for x in 0..36usize
        invariant
            count == boxes_before(grid(*pixels), (36 * x) as nat),
            count <= 36 * x,
    {
        for y in 0..36usize
            invariant
                x < 36,
                count == boxes_before(grid(*pixels), (36 * x + y) as nat),
                count <= 36 * x + y,
        {
            let ghost n: int = 36 * x + y;
            assert(n / 36 == x && n % 36 == y);
            if pixels[y][x] == pixels[y][x + 1] && pixels[y][x + 1] == pixels[y + 1][x] && pixels[y
                + 1][x] == pixels[y + 1][x + 1] {
                count += 1;
            }
            assert(count == boxes_before(grid(*pixels), (n + 1) as nat));
        }
    }
    count
}

fn count_dark(pixels: &Pixels) -> (count: usize)
    ensures
        count == darks_before(grid(*pixels), 1369),
        count <= 1369,
{
    let mut count: usize = 0;
    for y in 0..37usize
        invariant
            count == darks_before(grid(*pixels), (37 * y) as nat),
            count <= 37 * y,
    {
        for x in 0..37usize
            invariant
                y < 37,
                count == darks_before(grid(*pixels), (37 * y + x) as nat),
                count <= 37 * y + x,
        {
            let ghost n: int = 37 * y + x;
            assert(n / 37 == y && n % 37 == x);
            if pixels[y][x] {
                count += 1;
            }
            assert(count == darks_before(grid(*pixels), (n + 1) as nat));
        }
    }
    count
}

fn dark_cost(darks: usize) -> (cost: usize)
    requires
        darks <= 1369,
    ensures
        cost == dark_score(darks as nat),
        cost <= 500,
{
    let percent: usize = (darks / 1369) * 100;
    let below: usize = (percent / 5) * 5;
    let above: usize = (percent / 5 + 1) * 5;
    let lower: usize = if below >= 50 {
        below - 50
    } else {
        50 - below
    };
    let upper: usize = if above >= 50 {
        above - 50
    } else {
        50 - above
    };
    if lower <= upper {
        10 * lower
    } else {
        10 * upper
    }
}

/// Scores a grid, part by part.
pub fn penalty_parts(pixels: Pixels) -> (parts: Penalty)
    ensures
        parts.is_score_of(grid(pixels)),
        parts.total() == penalty(grid(pixels)),
        parts.total() <= 12000,
{
    let columns = rotate(pixels);
    let horiz: usize = rows_run_penalty(&pixels);
    let vert: usize = rows_run_penalty(&columns);
    let boxes: usize = count_boxes(&pixels);
    let finders: usize = rows_like_finder(&pixels) + rows_like_finder(&columns);
    let darks: usize = count_dark(&pixels);
    Penalty {
        horiz_run_penalty: horiz,
        vert_run_penalty: vert,
        box_penalty: 3 * boxes,
        finder_penalty: 40 * finders,
        dark_penalty: dark_cost(darks),
    }
}

/// The penalty score of a grid.
pub fn calc_penalty(pixels: Pixels) -> (score: usize)
    ensures
        score == penalty(grid(pixels)),
        score <= 12000,
{
    let parts = penalty_parts(pixels);
    parts.finalize()
}

} // verus!
