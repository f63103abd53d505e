//! Error correction codewords. They are computed by the Reed-Solomon
//! encoder of the `reed-solomon` crate, which this module calls and does not
//! verify.
use vstd::prelude::*;

verus! {

/// The error correction codewords that `reed_solomon::Encoder`, made for
/// `ecc_len` of them, appends to `data`: the remainder of the data
/// polynomial over GF(256) by the generator polynomial of that degree.
pub uninterp spec fn reed_solomon_parity(data: Seq<u8>, ecc_len: nat) -> Seq<u8>;

/// Calls `reed_solomon::Encoder::new(ecc_len)` and, on the encoder it
/// returns, `Encoder::encode(data)`. Not verified; the contract states what
/// the source of the crate shows. The encoder copies the data to the front
/// of a buffer of `data.len() + ecc_len` bytes and fills the rest with the
/// error correction codewords, which depend on `data` and `ecc_len` alone.
/// Its buffer holds 256 bytes at most, and it panics beyond that: the
/// precondition keeps to the 255 bytes of a Reed-Solomon block.
#[verifier::external_body]
pub(crate) fn reed_solomon_encode(data: &Vec<u8>, ecc_len: usize) -> (out: Vec<u8>)
    requires
        data.len() + ecc_len <= 255,
    ensures
        out@ == data@ + reed_solomon_parity(data@, ecc_len as nat),
        out@.len() == data@.len() + ecc_len,
{
    reed_solomon::Encoder::new(ecc_len).encode(data.as_slice()).to_vec()
}

} // verus!
