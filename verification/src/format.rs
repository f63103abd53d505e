//! Format information: the 15 bits that name the error correction level and
//! the mask, written twice beside the finder patterns.
use crate::utils::{bits_of, dark, grid, grid_of, in_grid, lemma_bits_of_len, lemma_dark_is_grid, lemma_grid_cells, push_bits, set_module, Pixels};
use vstd::prelude::*;

verus! {

/// The format information for error correction level L and mask `mask_id`,
/// as a number of 15 bits: five data bits, ten check bits, and the fixed
/// pattern of the standard laid over them.
pub open spec fn format_word(mask_id: int) -> nat {
    if mask_id == 0 {
        0x77c4
    } else if mask_id == 1 {
        0x72f3
    } else if mask_id == 2 {
        0x7daa
    } else if mask_id == 3 {
        0x789d
    } else if mask_id == 4 {
        0x662f
    } else if mask_id == 5 {
        0x6318
    } else if mask_id == 6 {
        0x6c41
    } else {
        0x6976
    }
}

/// The format information for mask `mask_id` as 15 bits, most significant
/// first.
pub open spec fn format_bits(mask_id: int) -> Seq<bool> {
    bits_of(format_word(mask_id), 15)
}

/// Where the `i`-th format bit stands in the first copy: along row 8 and
/// then up column 8, around the top left finder pattern, passing over the
/// timing patterns.
pub open spec fn format_pos_1(i: int) -> (int, int) {
    if i <= 5 {
        (i, 8)
    } else if i == 6 {
        (7, 8)
    } else if i == 7 {
        (8, 8)
    } else if i == 8 {
        (8, 7)
    } else {
        (8, 14 - i)
    }
}

/// Where the `i`-th format bit stands in the second copy: up column 8 beside
/// the bottom left finder pattern, then along row 8 below the top right one.
pub open spec fn format_pos_2(i: int) -> (int, int) {
    if i <= 6 {
        (8, 36 - i)
    } else {
        (22 + i, 8)
    }
}

/// Which format bit the module `(x, y)` holds, in either copy; -1 where it
/// holds none.
pub open spec fn format_index(x: int, y: int) -> int {
    if y == 8 && 0 <= x <= 5 {
        x
    } else if y == 8 && x == 7 {
        6
    } else if y == 8 && x == 8 {
        7
    } else if x == 8 && y == 7 {
        8
    } else if x == 8 && 0 <= y <= 5 {
        14 - y
    } else if x == 8 && 30 <= y <= 36 {
        36 - y
    } else if y == 8 && 29 <= x <= 36 {
        x - 22
    } else {
        -1
    }
}

/// The grid `g` with both copies of the format information for mask
/// `mask_id` written into it.
pub open spec fn with_format(g: Seq<Seq<bool>>, mask_id: int) -> Seq<Seq<bool>> {
    grid_of(
        |x: int, y: int|
            if format_index(x, y) >= 0 {
                format_bits(mask_id)[format_index(x, y)]
            } else {
                g[y][x]
            },
    )
}

/// The two copies of the format information occupy 30 different modules, and
/// `format_index` tells for each of them which bit it holds.
pub proof fn lemma_format_positions(i: int)
    requires
        0 <= i < 15,
    ensures
        in_grid(format_pos_1(i).0, format_pos_1(i).1),
        in_grid(format_pos_2(i).0, format_pos_2(i).1),
        format_pos_1(i) != format_pos_2(i),
        format_index(format_pos_1(i).0, format_pos_1(i).1) == i,
        format_index(format_pos_2(i).0, format_pos_2(i).1) == i,
        forall|x: int, y: int|
            format_index(x, y) == i ==> (x, y) == format_pos_1(i) || (x, y) == format_pos_2(i),
{
}

fn first_position(i: usize) -> (c: (usize, usize))
    requires
        i < 15,
    ensures
        (c.0 as int, c.1 as int) == format_pos_1(i as int),
{
    if i <= 5 {
        (i, 8)
    } else if i == 6 {
        (7, 8)
    } else if i == 7 {
        (8, 8)
    } else if i == 8 {
        (8, 7)
    } else {
        (8, 14 - i)
    }
}

fn second_position(i: usize) -> (c: (usize, usize))
    requires
        i < 15,
    ensures
        (c.0 as int, c.1 as int) == format_pos_2(i as int),
{
    if i <= 6 {
        (8, 36 - i)
    } else {
        (22 + i, 8)
    }
}

fn format_table(mask_id: usize) -> (word: usize)
    requires
        mask_id < 8,
    ensures
        word == format_word(mask_id as int),
{
    if mask_id == 0 {
        0x77c4
    } else if mask_id == 1 {
        0x72f3
    } else if mask_id == 2 {
        0x7daa
    } else if mask_id == 3 {
        0x789d
    } else if mask_id == 4 {
        0x662f
    } else if mask_id == 5 {
        0x6318
    } else if mask_id == 6 {
        0x6c41
    } else {
        0x6976
    }
}

/// Writes the format information for mask `mask_id` into the grid, twice.
/// Every other module stays as it is, and after the call the two copies
/// agree bit for bit.
pub fn set_format_bits(pixels: &mut Pixels, mask_id: usize)
    requires
        mask_id < 8,
    ensures
        grid(*final(pixels)) == with_format(grid(*old(pixels)), mask_id as int),
        forall|i: int|
            #![trigger format_pos_1(i)]
            #![trigger format_pos_2(i)]
            0 <= i < 15 ==> dark(*final(pixels), format_pos_1(i).0, format_pos_1(i).1)
                == format_bits(mask_id as int)[i] && dark(
                *final(pixels),
                format_pos_2(i).0,
                format_pos_2(i).1,
            ) == format_bits(mask_id as int)[i],
{
    let mut bits: Vec<bool> = Vec::new();
    push_bits(&mut bits, format_table(mask_id), 15);
    proof {
        lemma_bits_of_len(format_word(mask_id as int), 15);
        assert(bits@ =~= format_bits(mask_id as int));
    }
    for i in 0..15usize
        invariant
            bits@ == format_bits(mask_id as int),
            bits@.len() == 15,
            forall|x: int, y: int|
                in_grid(x, y) ==> #[trigger] dark(*pixels, x, y) == (if 0 <= format_index(x, y)
                    < i {
                    bits@[format_index(x, y)]
                } else {
                    dark(*old(pixels), x, y)
                }),
    {
        proof {
            lemma_format_positions(i as int);
        }
        let first = first_position(i);
        let second = second_position(i);
        set_module(pixels, first.0, first.1, bits[i]);
        set_module(pixels, second.0, second.1, bits[i]);
    }
    proof {
        let before = grid(*old(pixels));
        let k = mask_id as int;
        lemma_dark_is_grid(*old(pixels));
        lemma_grid_cells(
            *pixels,
            |x: int, y: int|
                if format_index(x, y) >= 0 {
                    format_bits(k)[format_index(x, y)]
                } else {
                    before[y][x]
                },
        );
        assert forall|i: int| 0 <= i < 15 implies dark(
            *pixels,
            format_pos_1(i).0,
            format_pos_1(i).1,
        ) == format_bits(k)[i] && dark(*pixels, format_pos_2(i).0, format_pos_2(i).1)
            == format_bits(k)[i] by {
            lemma_format_positions(i);
        }
    }
}

} // verus!
