//! The encoder: from a text to the finished symbol.
use crate::ecc::{reed_solomon_encode, reed_solomon_parity};
use crate::format::{format_bits, format_index, format_pos_1, format_pos_2, lemma_format_positions, set_format_bits, with_format};
use crate::layout::{is_data_module, is_function_module, lemma_placement_is_exact, placement, placement_order, DATA_MODULES};
use crate::mask::{best_mask, mask_bit, masked, select_mask};
use crate::place::{lemma_placed_without_duplicates, place_data, placed};
use crate::stream::{bit_stream, build_bit_stream, rejection, EncodeError};
use crate::structure::{set_finder_patterns, structural_dark, with_structure};
use crate::utils::{bits_to_bytes, blank, blank_grid, bytes_to_bits, grid, in_grid, is_grid, pack_bytes, unpack_bytes, Pixels};
use vstd::prelude::*;

verus! {

/// Number of error correction codewords of the symbol.
pub const ECC_CODEWORDS: usize = 26;

/// Number of codewords of the symbol: 108 of data and 26 of error
/// correction.
pub const CODEWORDS: usize = 134;

/// The bits that go on the data modules: the codewords, and seven zero bits
/// for the modules that are left over.
pub open spec fn symbol_bits(codewords: Seq<u8>) -> Seq<bool> {
    unpack_bytes(codewords) + Seq::new(7, |i: int| false)
}

/// The symbol for `codewords` before masking: the function patterns on a
/// light grid, and the bits on the data modules in placement order.
pub open spec fn unmasked_symbol(codewords: Seq<u8>) -> Seq<Seq<bool>> {
    placed(with_structure(blank_grid()), symbol_bits(codewords), placement())
}

/// The mask chosen for `codewords`: the best mask of the unmasked symbol.
pub open spec fn symbol_mask(codewords: Seq<u8>) -> int {
    best_mask(unmasked_symbol(codewords))
}

/// The finished symbol for `codewords`: the unmasked symbol under its best
/// mask, with the format information of that mask written into it.
pub open spec fn symbol(codewords: Seq<u8>) -> Seq<Seq<bool>> {
    with_format(masked(unmasked_symbol(codewords), symbol_mask(codewords)), symbol_mask(codewords))
}

/// The data codewords of `text`: its bit stream, byte by byte.
pub open spec fn data_codewords(text: Seq<char>) -> Seq<u8> {
    pack_bytes(bit_stream(text))
}

/// All codewords of `text`: the data codewords, followed by their 26 error
/// correction codewords.
pub open spec fn codewords_of(text: Seq<char>) -> Seq<u8> {
    data_codewords(text) + reed_solomon_parity(data_codewords(text), 26)
}

/// The error with which `text` is refused, if it is: a character outside
/// the alphanumeric set, more than 255 characters, or, for a text of 155 to
/// 255 characters, more codewords than the symbol holds.
pub open spec fn encode_error(text: Seq<char>) -> Option<EncodeError> {
    if rejection(text) is Some {
        rejection(text)
    } else if text.len() > 154 {
        Some(EncodeError::ConfigurationMismatch)
    } else {
        None
    }
}

/// Whether `outcome` is what encoding `text` gives: the error where the
/// text is refused, and otherwise the symbol of its codewords.
pub open spec fn is_encoding_of(text: Seq<char>, outcome: Result<Pixels, EncodeError>) -> bool {
    match outcome {
        Ok(pixels) => encode_error(text) is None && grid(pixels) == symbol(codewords_of(text)),
        Err(e) => encode_error(text) == Some(e),
    }
}

/// Module by module, what the finished symbol for 134 codewords holds. The
/// thirty modules of the format information hold its bits, the same in both
/// copies. Every other function module is dark where the function patterns
/// are. The data module at place `i` of the placement order holds bit `i` of
/// the codewords, inverted where the mask selects the module.
pub proof fn lemma_symbol_anatomy(codewords: Seq<u8>)
    requires
        codewords.len() == 134,
    ensures
        is_grid(symbol(codewords)),
        forall|i: int|
            #![trigger format_pos_1(i)]
            #![trigger format_pos_2(i)]
            0 <= i < 15 ==> symbol(codewords)[format_pos_1(i).1][format_pos_1(i).0] == format_bits(
                symbol_mask(codewords),
            )[i] && symbol(codewords)[format_pos_2(i).1][format_pos_2(i).0] == format_bits(
                symbol_mask(codewords),
            )[i],
        forall|x: int, y: int|
            in_grid(x, y) && is_function_module(x, y) && format_index(x, y) < 0 ==> #[trigger] symbol(
                codewords,
            )[y][x] == structural_dark(x, y),
        forall|i: int|
            0 <= i < 1079 ==> symbol(codewords)[#[trigger] placement()[i].1 as int][placement()[i].0 as int]
                == (symbol_bits(codewords)[i] != mask_bit(
                symbol_mask(codewords),
                placement()[i].0 as int,
                placement()[i].1 as int,
            )),
{
    let s = symbol(codewords);
    let k = symbol_mask(codewords);
    let base = with_structure(blank_grid());
    let bits = symbol_bits(codewords);
    let plain = unmasked_symbol(codewords);
    lemma_placement_is_exact();
    assert forall|i: int| 0 <= i < placement().len() implies in_grid(
        placement()[i].0 as int,
        placement()[i].1 as int,
    ) && is_data_module(placement()[i].0 as int, placement()[i].1 as int) by {
        assert(placement().contains(placement()[i]));
    }
    lemma_placed_without_duplicates(base, bits, placement());
    assert forall|i: int| 0 <= i < 15 implies s[format_pos_1(i).1][format_pos_1(i).0]
        == format_bits(k)[i] && s[format_pos_2(i).1][format_pos_2(i).0] == format_bits(k)[i] by {
        lemma_format_positions(i);
    }
    assert forall|x: int, y: int|
        in_grid(x, y) && is_function_module(x, y) && format_index(x, y) < 0 implies #[trigger] s[y][x]
        == structural_dark(x, y) by {
        assert(!placement().contains((x as usize, y as usize)));
        assert(plain[y][x] == base[y][x]);
    }
    assert forall|i: int| 0 <= i < 1079 implies s[#[trigger] placement()[i].1 as int][placement()[i].0 as int]
        == (bits[i] != mask_bit(k, placement()[i].0 as int, placement()[i].1 as int)) by {
        let x = placement()[i].0 as int;
        let y = placement()[i].1 as int;
        assert(is_data_module(x, y));
        assert(format_index(x, y) < 0);
        assert(plain[y][x] == bits[i]);
    }
}

/// Builds the symbol for the codewords of a text: lays the function
/// patterns on a light grid, places the bits of the codewords, chooses and
/// applies the mask, and writes the format information. Anything but 134
/// codewords is refused.
pub fn build_symbol(codewords: &Vec<u8>) -> (outcome: Result<Pixels, EncodeError>)
    ensures
        codewords.len() != 134 ==> outcome == Err::<Pixels, EncodeError>(
            EncodeError::ConfigurationMismatch,
        ),
        codewords.len() == 134 ==> outcome is Ok && grid(outcome->Ok_0) == symbol(codewords@),
{
    if codewords.len() != CODEWORDS {
        return Err(EncodeError::ConfigurationMismatch);
    }
    let mut modules: Vec<bool> = bytes_to_bits(codewords);
    for i in 0..7usize
        invariant
            modules@.len() == 8 * codewords.len() + i,
            forall|k: int| 0 <= k < 8 * codewords.len() ==> modules@[k] == unpack_bytes(codewords@)[k],
            forall|k: int| 8 * codewords.len() <= k < modules@.len() ==> !modules@[k],
    {
        modules.push(false);
    }
    assert(modules@ =~= symbol_bits(codewords@));
    let order = placement_order();
    proof {
        lemma_placement_is_exact();
        assert forall|i: int| 0 <= i < order.len() implies in_grid(
            order[i].0 as int,
            order[i].1 as int,
        ) by {
            assert(placement().contains(placement()[i]));
        }
    }
    let mut pixels: Pixels = blank();
    set_finder_patterns(&mut pixels);
    place_data(&mut pixels, &modules, &order);
    let (mask_id, chosen) = select_mask(pixels);
    let mut finished: Pixels = chosen;
    set_format_bits(&mut finished, mask_id);
    Ok(finished)
}

/// Encodes a text as a QR Code symbol of version 5, error correction level
/// L, in alphanumeric mode. The text is refused where it holds a character
/// outside the alphanumeric set, where it has more than 255 characters, and
/// where its codewords do not fit the symbol, which is so from 155
/// characters on.
pub fn encode(data: String) -> (outcome: Result<Pixels, EncodeError>)
    ensures
        is_encoding_of(data@, outcome),
{
    let bits: Vec<bool> = match build_bit_stream(data.as_str()) {
        Ok(bits) => bits,
        Err(e) => {
            return Err(e);
        },
    };
    let coeffs: Vec<u8> = bits_to_bytes(&bits);
    let codewords: Vec<u8> = reed_solomon_encode(&coeffs, ECC_CODEWORDS);
    build_symbol(&codewords)
}

} // verus!
