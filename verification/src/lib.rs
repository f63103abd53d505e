//! Encoder for QR Code symbols of version 5 (37 by 37 modules) at error
//! correction level L, for text in alphanumeric mode.
use crate::encode::is_encoding_of;
pub use crate::stream::EncodeError;
pub use crate::utils::Pixels;
use vstd::prelude::*;

pub mod ecc;
pub mod encode;
pub mod format;
pub mod layout;
pub mod mask;
pub mod penalty;
pub mod place;
pub mod render;
pub mod stream;
pub mod structure;
pub mod utils;

verus! {

/// The symbol for a text, as a grid of modules: `true` is dark. See
/// [`encode::encode`].
pub fn get_pixel_data(data: String) -> (outcome: Result<Pixels, EncodeError>)
    ensures
        is_encoding_of(data@, outcome),
{
    encode::encode(data)
}

} // verus!
