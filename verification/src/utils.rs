//! Shared definitions: the module grid, and conversions between numbers,
//! bits and bytes. Bits are ordered most significant first throughout.
use vstd::arithmetic::power2::{lemma2_to64, lemma_pow2_strictly_increases, lemma_pow2_unfold, pow2};
use vstd::prelude::*;

verus! {

/// Side length of the symbol, in modules.
pub const PIXELS: usize = 37;

/// The module grid. `pixels[y][x]` is the module in row `y` and column `x`;
/// `true` is a dark module.
pub type Pixels = [[bool; PIXELS]; PIXELS];

/// The grid as a sequence of 37 rows of 37 modules each: the model that the
/// contracts of this crate speak of.
pub open spec fn grid(p: Pixels) -> Seq<Seq<bool>> {
    Seq::new(37, |y: int| p[y]@)
}

/// Whether `(x, y)` names a module of the grid.
pub open spec fn in_grid(x: int, y: int) -> bool {
    0 <= x < 37 && 0 <= y < 37
}

/// Whether `g` has the shape of a grid: 37 rows of 37 modules.
pub open spec fn is_grid(g: Seq<Seq<bool>>) -> bool {
    g.len() == 37 && forall|y: int| 0 <= y < 37 ==> (#[trigger] g[y]).len() == 37
}

/// The module in column `x` of row `y`: `true` where it is dark.
pub open spec fn dark(p: Pixels, x: int, y: int) -> bool {
    p[y][x]
}

/// The grid whose module in column `x` of row `y` is `f(x, y)`.
pub open spec fn grid_of(f: spec_fn(int, int) -> bool) -> Seq<Seq<bool>> {
    Seq::new(37, |y: int| Seq::new(37, |x: int| f(x, y)))
}

/// A grid value is described by its modules.
pub proof fn lemma_grid_cells(p: Pixels, f: spec_fn(int, int) -> bool)
    requires
        forall|x: int, y: int| in_grid(x, y) ==> #[trigger] dark(p, x, y) == f(x, y),
    ensures
        grid(p) == grid_of(f),
{
    assert forall|y: int| 0 <= y < 37 implies grid(p)[y] == grid_of(f)[y] by {
        assert forall|x: int| 0 <= x < 37 implies grid(p)[y][x] == grid_of(f)[y][x] by {
            assert(dark(p, x, y) == f(x, y));
        }
        assert(grid(p)[y] =~= grid_of(f)[y]);
    }
    assert(grid(p) =~= grid_of(f));
}

/// The modules of a grid value are those of its model.
pub proof fn lemma_dark_is_grid(p: Pixels)
    ensures
        forall|x: int, y: int| in_grid(x, y) ==> #[trigger] dark(p, x, y) == grid(p)[y][x],
{
}

/// The grid with every module light.
pub open spec fn blank_grid() -> Seq<Seq<bool>> {
    grid_of(|x: int, y: int| false)
}

/// A grid with every module light.
pub fn blank() -> (p: Pixels)
    ensures
        grid(p) == blank_grid(),
{
    let p: Pixels = [[false; PIXELS]; PIXELS];
    proof {
        lemma_grid_cells(p, |x: int, y: int| false);
    }
    p
}

/// Sets one module of the grid and leaves the others as they are.
pub fn set_module(pixels: &mut Pixels, x: usize, y: usize, value: bool)
    requires
        x < 37,
        y < 37,
    ensures
        forall|cx: int, cy: int|
            in_grid(cx, cy) ==> #[trigger] dark(*final(pixels), cx, cy) == (if cx == x && cy == y {
                value
            } else {
                dark(*old(pixels), cx, cy)
            }),
{
    pixels[y][x] = value;
}

/// Two grids with the same modules are the same grid.
pub proof fn lemma_grid_injective(a: Pixels, b: Pixels)
    requires
        grid(a) == grid(b),
    ensures
        a == b,
{
    assert forall|y: int| 0 <= y < 37 implies a[y] == b[y] by {
        assert(grid(a)[y] == grid(b)[y]);
        assert(a[y]@ == b[y]@);
        assert(a[y] =~= b[y]);
    }
    assert(a =~= b);
}

/// The `width` low bits of `value`, most significant first.
pub open spec fn bits_of(value: nat, width: nat) -> Seq<bool>
    decreases width,
{
    if width == 0 {
        Seq::empty()
    } else {
        bits_of(value / 2, (width - 1) as nat).push(value % 2 == 1)
    }
}

/// The number that a bit sequence spells, most significant bit first.
pub open spec fn bits_value(bits: Seq<bool>) -> nat
    decreases bits.len(),
{
    if bits.len() == 0 {
        0
    } else {
        2 * bits_value(bits.drop_last()) + if bits.last() {
            1nat
        } else {
            0nat
        }
    }
}

/// The bytes spelled by consecutive groups of eight bits; bits left over at
/// the end, fewer than eight, are not part of any byte.
pub open spec fn pack_bytes(bits: Seq<bool>) -> Seq<u8> {
    Seq::new(bits.len() / 8, |i: int| bits_value(bits.subrange(8 * i, 8 * i + 8)) as u8)
}

/// The bits of a byte sequence: eight per byte, in order.
pub open spec fn unpack_bytes(bytes: Seq<u8>) -> Seq<bool> {
    Seq::new(8 * bytes.len(), |i: int| bits_of(bytes[i / 8] as nat, 8)[i % 8])
}

/// A number spelled in `width` bits has `width` bits.
pub proof fn lemma_bits_of_len(value: nat, width: nat)
    ensures
        bits_of(value, width).len() == width,
    decreases width,
{
    if width > 0 {
        lemma_bits_of_len(value / 2, (width - 1) as nat);
    }
}

/// What `n` bits spell is below the `n`-th power of two.
pub proof fn lemma_bits_value_bound(bits: Seq<bool>)
    ensures
        bits_value(bits) < pow2(bits.len()),
    decreases bits.len(),
{
    if bits.len() == 0 {
        lemma2_to64();
    } else {
        lemma_bits_value_bound(bits.drop_last());
        lemma_pow2_unfold(bits.len());
    }
}

/// Reading back the bits of a number gives the number, as far as the width
/// holds it.
pub proof fn lemma_bits_value_of(value: nat, width: nat)
    ensures
        bits_value(bits_of(value, width)) == value % pow2(width),
    decreases width,
{
    if width == 0 {
        lemma2_to64();
    } else {
        let rest = bits_of(value / 2, (width - 1) as nat);
        lemma_bits_value_of(value / 2, (width - 1) as nat);
        lemma_pow2_unfold(width);
        assert(bits_of(value, width).drop_last() =~= rest);
        let p = pow2((width - 1) as nat);
        vstd::arithmetic::power2::lemma_pow2_pos((width - 1) as nat);
        let q = (value / 2) / p;
        let r = (value / 2) % p;
        vstd::arithmetic::div_mod::lemma_fundamental_div_mod((value / 2) as int, p as int);
        assert(value / 2 == p * q + r);
        assert(value == (2 * p) * q + (2 * r + value % 2)) by (nonlinear_arith)
            requires
                value / 2 == p * q + r,
                value == 2 * (value / 2) + value % 2,
        ;
        vstd::arithmetic::div_mod::lemma_fundamental_div_mod_converse(
            value as int,
            (2 * p) as int,
            q as int,
            (2 * r + value % 2) as int,
        );
    }
}

/// Spelling bytes out as bits and grouping the bits into bytes again gives
/// the bytes back.
pub proof fn lemma_pack_unpack(bytes: Seq<u8>)
    ensures
        pack_bytes(unpack_bytes(bytes)) == bytes,
{
    let bits = unpack_bytes(bytes);
    assert forall|i: int| 0 <= i < bytes.len() implies pack_bytes(bits)[i] == bytes[i] by {
        let byte = bytes[i] as nat;
        lemma_bits_of_len(byte, 8);
        assert forall|k: int| 0 <= k < 8 implies bits.subrange(8 * i, 8 * i + 8)[k] == bits_of(
            byte,
            8,
        )[k] by {
            assert((8 * i + k) / 8 == i);
            assert((8 * i + k) % 8 == k);
        }
        assert(bits.subrange(8 * i, 8 * i + 8) =~= bits_of(byte, 8));
        lemma_bits_value_of(byte, 8);
        lemma2_to64();
    }
    assert(pack_bytes(bits) =~= bytes);
}

/// Appends the `width` low bits of `value` to `out`, most significant first.
pub fn push_bits(out: &mut Vec<bool>, value: usize, width: usize)
    ensures
        final(out)@ == old(out)@ + bits_of(value as nat, width as nat),
    decreases width,
{
    if width > 0 {
        push_bits(out, value / 2, width - 1);
        out.push(value % 2 == 1);
        assert(out@ =~= old(out)@ + bits_of(value as nat, width as nat));
    } else {
        assert(out@ =~= old(out)@ + bits_of(value as nat, width as nat));
    }
}

/// Groups bits into bytes, eight at a time.
pub fn bits_to_bytes(bits: &Vec<bool>) -> (bytes: Vec<u8>)
    ensures
        bytes@ == pack_bytes(bits@),
{
    let n: usize = bits.len() / 8;
    let mut bytes: Vec<u8> = Vec::new();
    let mut i: usize = 0;
    while i < n
        invariant
            i <= n,
            n == bits.len() / 8,
            bytes@.len() == i,
            forall|k: int| 0 <= k < i ==> bytes@[k] == pack_bytes(bits@)[k],
        decreases n - i,
    {
        let mut acc: usize = 0;
        let mut j: usize = 0;
        while j < 8
            invariant
                j <= 8,
                i < n,
                n == bits.len() / 8,
                acc as nat == bits_value(bits@.subrange(8 * i, 8 * i + j)),
            decreases 8 - j,
        {
            proof {
                let next = bits@.subrange(8 * i, 8 * i + j + 1);
                assert(next.drop_last() =~= bits@.subrange(8 * i, 8 * i + j));
                lemma_bits_value_bound(next.drop_last());
                lemma_pow2_strictly_increases(j as nat, 8);
                lemma2_to64();
            }
            acc = 2 * acc + if bits[8 * i + j] {
                1
            } else {
                0
            };
            j += 1;
        }
        proof {
            lemma_bits_value_bound(bits@.subrange(8 * i, 8 * i + 8));
            lemma2_to64();
        }
        bytes.push(acc as u8);
        i += 1;
    }
    assert(bytes@ =~= pack_bytes(bits@));
    bytes
}

/// Spells bytes out as bits, eight per byte.
pub fn bytes_to_bits(bytes: &Vec<u8>) -> (bits: Vec<bool>)
    ensures
        bits@ == unpack_bytes(bytes@),
{
    let mut bits: Vec<bool> = Vec::new();
    let mut i: usize = 0;
    while i < bytes.len()
        invariant
            i <= bytes.len(),
            bits@.len() == 8 * i,
            forall|k: int| 0 <= k < 8 * i ==> bits@[k] == bits_of(bytes@[k / 8] as nat, 8)[k % 8],
        decreases bytes.len() - i,
    {
        let ghost before = bits@;
        push_bits(&mut bits, bytes[i] as usize, 8);
        proof {
            lemma_bits_of_len(bytes@[i as int] as nat, 8);
            assert forall|k: int| 0 <= k < 8 * (i + 1) implies bits@[k] == bits_of(
                bytes@[k / 8] as nat,
                8,
            )[k % 8] by {
                if k >= 8 * i {
                    assert(k / 8 == i);
                    assert(k % 8 == k - 8 * i);
                } else {
                    assert(bits@[k] == before[k]);
                }
            }
        }
        i += 1;
    }
    assert(bits@ =~= unpack_bytes(bytes@));
    bits
}

} // verus!
