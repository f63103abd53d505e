//! The bit stream of a text in alphanumeric mode: mode indicator, character
//! count, the characters two by two, terminator and padding.
use crate::utils::{bits_of, lemma_bits_of_len, push_bits};
use vstd::prelude::*;
use vstd::string::*;

verus! {

/// Number of data bits that the symbol holds: 108 codewords.
pub const CAPACITY_BITS: usize = 864;

/// The longest text, in characters, whose count the stream can state.
pub const MAX_CHARS: usize = 255;

/// Why a text was not encoded.
#[derive(Debug, Clone, Copy, PartialEq, Eq, Structural)]
pub enum EncodeError {
    /// The text holds a character outside the alphanumeric set.
    InvalidCharacter,
    /// The text has more than 255 characters.
    InputTooLong,
    /// The number of codewords is not the number that the symbol holds.
    ConfigurationMismatch,
}

/// The value of the character with code point `code` in the alphanumeric
/// set: 0 to 9 for the digits, 10 to 35 for the capital letters, 36 to 44
/// for space and `$%*+-./:`; -1 for a character outside the set.
pub open spec fn code_value(code: int) -> int {
    if 48 <= code <= 57 {
        code - 48
    } else if 65 <= code <= 90 {
        code - 55
    } else if code == 32 {
        36
    } else if code == 36 {
        37
    } else if code == 37 {
        38
    } else if code == 42 {
        39
    } else if code == 43 {
        40
    } else if code == 45 {
        41
    } else if code == 46 {
        42
    } else if code == 47 {
        43
    } else if code == 58 {
        44
    } else {
        -1
    }
}

/// The value of a character in the alphanumeric set, -1 outside it.
pub open spec fn char_value(c: char) -> int {
    code_value(c as int)
}

/// Whether every character of `text` belongs to the alphanumeric set.
pub open spec fn valid_text(text: Seq<char>) -> bool {
    forall|i: int| 0 <= i < text.len() ==> char_value(#[trigger] text[i]) >= 0
}

/// The values of the characters of `text`.
pub open spec fn values_of(text: Seq<char>) -> Seq<int> {
    Seq::new(text.len(), |i: int| char_value(text[i]))
}

/// The bits of a sequence of character values: eleven bits for each pair,
/// holding 45 times the first value plus the second, and six bits for a
/// value left over at the end.
pub open spec fn payload(values: Seq<int>) -> Seq<bool>
    decreases values.len(),
{
    if values.len() == 0 {
        Seq::empty()
    } else if values.len() == 1 {
        bits_of(values[0] as nat, 6)
    } else {
        bits_of((45 * values[0] + values[1]) as nat, 11) + payload(values.skip(2))
    }
}

/// Mode indicator, character count and characters of `text`, before any
/// padding.
pub open spec fn data_bits(text: Seq<char>) -> Seq<bool> {
    bits_of(2, 4) + bits_of(text.len(), 9) + payload(values_of(text))
}

/// The length to which a stream of `n` bits is filled with zero bits. Below
/// the capacity the stream gets a terminator of four zero bits, or as many
/// as fit, and is filled up to a whole byte; beyond it, it is only filled up
/// to a whole byte.
pub open spec fn padded_len(n: int) -> int {
    if n <= 859 {
        (n + 11) / 8 * 8
    } else if n <= 864 {
        864
    } else {
        (n + 7) / 8 * 8
    }
}

/// The `k`-th bit of the filler: the bytes 236 and 17 in turn.
pub open spec fn filler_bit(k: int) -> bool {
    bits_of(
        if (k / 8) % 2 == 0 {
            236
        } else {
            17
        },
        8,
    )[k % 8]
}

/// The length of the finished stream for `n` bits of data: the capacity of
/// the symbol, or the padded length where that is more.
pub open spec fn stream_len(n: int) -> int {
    if padded_len(n) < 864 {
        864
    } else {
        padded_len(n)
    }
}

/// The finished stream for the data bits `raw`: the data, zero bits up to
/// the padded length, then filler bytes up to the capacity.
pub open spec fn padded(raw: Seq<bool>) -> Seq<bool> {
    Seq::new(
        stream_len(raw.len() as int) as nat,
        |i: int|
            if i < raw.len() {
                raw[i]
            } else if i < padded_len(raw.len() as int) {
                false
            } else {
                filler_bit(i - padded_len(raw.len() as int))
            },
    )
}

/// The bit stream of `text`.
pub open spec fn bit_stream(text: Seq<char>) -> Seq<bool> {
    padded(data_bits(text))
}

/// The error with which `text` is turned away, if it is.
pub open spec fn rejection(text: Seq<char>) -> Option<EncodeError> {
    if !valid_text(text) {
        Some(EncodeError::InvalidCharacter)
    } else if text.len() > 255 {
        Some(EncodeError::InputTooLong)
    } else {
        None
    }
}

/// Whether `outcome` is what building the bit stream of `text` gives: the
/// error where the text is turned away, and its bit stream otherwise.
pub open spec fn is_stream_of(text: Seq<char>, outcome: Result<Vec<bool>, EncodeError>) -> bool {
    match outcome {
        Ok(bits) => rejection(text) is None && bits@ == bit_stream(text),
        Err(e) => rejection(text) == Some(e),
    }
}

/// The characters take eleven bits for each pair and six for one left
/// over.
pub proof fn lemma_payload_len(values: Seq<int>)
    ensures
        payload(values).len() == 11 * (values.len() / 2) + 6 * (values.len() % 2),
    decreases values.len(),
{
    if values.len() == 1 {
        lemma_bits_of_len(values[0] as nat, 6);
    } else if values.len() >= 2 {
        lemma_bits_of_len((45 * values[0] + values[1]) as nat, 11);
        lemma_payload_len(values.skip(2));
    }
}

/// Before padding the stream has thirteen bits of header and the bits of
/// the characters.
pub proof fn lemma_data_bits_len(text: Seq<char>)
    ensures
        data_bits(text).len() == 13 + 11 * (text.len() / 2) + 6 * (text.len() % 2),
{
    lemma_bits_of_len(2, 4);
    lemma_bits_of_len(text.len(), 9);
    lemma_payload_len(values_of(text));
}

/// The bit stream is a whole number of bytes. For a text of up to 154
/// characters it fills the capacity of the symbol exactly; for a longer one
/// it is longer than the capacity.
pub proof fn lemma_stream_len(text: Seq<char>)
    ensures
        bit_stream(text).len() % 8 == 0,
        bit_stream(text).len() >= 864,
        text.len() <= 154 <==> bit_stream(text).len() == 864,
        text.len() <= 255 ==> bit_stream(text).len() <= 1416,
{
    lemma_data_bits_len(text);
}

/// Building the bit stream of one text twice gives the same outcome: the
/// same error, or the same bits.
pub proof fn lemma_stream_deterministic(
    text: Seq<char>,
    first: Result<Vec<bool>, EncodeError>,
    second: Result<Vec<bool>, EncodeError>,
)
    requires
        is_stream_of(text, first),
        is_stream_of(text, second),
    ensures
        first is Ok <==> second is Ok,
        first is Ok ==> first->Ok_0@ == second->Ok_0@,
        first is Err ==> first->Err_0 == second->Err_0,
{
}

fn byte_value(b: u8) -> (v: Option<usize>)
    ensures
        match v {
            Some(n) => n == code_value(b as int) && n <= 44,
            None => code_value(b as int) == -1,
        },
{
    if 48 <= b && b <= 57 {
        Some((b - 48) as usize)
    } else if 65 <= b && b <= 90 {
        Some((b - 55) as usize)
    } else if b == 32 {
        Some(36)
    } else if b == 36 {
        Some(37)
    } else if b == 37 {
        Some(38)
    } else if b == 42 {
        Some(39)
    } else if b == 43 {
        Some(40)
    } else if b == 45 {
        Some(41)
    } else if b == 46 {
        Some(42)
    } else if b == 47 {
        Some(43)
    } else if b == 58 {
        Some(44)
    } else {
        None
    }
}

/// The values of the characters of a text, or nothing where one of them is
/// outside the alphanumeric set.
pub fn text_values(text: &str) -> (r: Option<Vec<usize>>)
    ensures
        r is Some <==> valid_text(text@),
        r is Some ==> r->Some_0@.len() == text@.len() && forall|i: int|
            0 <= i < text@.len() ==> 0 <= (#[trigger] r->Some_0@[i]) <= 44 && r->Some_0@[i]
                == char_value(text@[i]),
{
    if !text.is_ascii() {
        return None;
    }
    broadcast use is_ascii_spec_bytes;

    let bytes = text.as_bytes();
    assert(bytes@.len() == text@.len());
    let mut values: Vec<usize> = Vec::new();
    let mut i: usize = 0;
    while i < bytes.len()
        invariant
            i <= bytes.len(),
            bytes@.len() == text@.len(),
            is_ascii(text),
            forall|k: int| 0 <= k < text@.len() ==> bytes@[k] == text@[k] as u8,
            values@.len() == i,
            forall|k: int|
                0 <= k < i ==> 0 <= (#[trigger] values@[k]) <= 44 && values@[k] == char_value(
                    text@[k],
                ),
        decreases bytes.len() - i,
    {
        assert('\0' <= text@[i as int] <= '\u{7f}');
        match byte_value(bytes[i]) {
            Some(v) => {
                values.push(v);
            },
            None => {
                assert(char_value(text@[i as int]) == -1);
                return None;
            },
        }
        i += 1;
    }
    assert forall|k: int| 0 <= k < text@.len() implies char_value(#[trigger] text@[k]) >= 0 by {
        assert(values@[k] == char_value(text@[k]));
    }
    Some(values)
}

/// Appends the bits of character values to `out`, two values at a time.
fn push_payload(out: &mut Vec<bool>, values: &Vec<usize>)
    requires
        forall|i: int| 0 <= i < values.len() ==> (#[trigger] values@[i]) <= 44,
    ensures
        final(out)@ == old(out)@ + payload(values@.map_values(|v: usize| v as int)),
{
    let ghost vals: Seq<int> = values@.map_values(|v: usize| v as int);
    let n: usize = values.len();
    let mut i: usize = 0;
    assert(vals.skip(0) =~= vals);
    while i + 1 < n
        invariant
            i <= n,
            i % 2 == 0,
            n == values.len(),
            vals == values@.map_values(|v: usize| v as int),
            forall|k: int| 0 <= k < values.len() ==> (#[trigger] values@[k]) <= 44,
            out@ + payload(vals.skip(i as int)) == old(out)@ + payload(vals),
        decreases n - i,
    {
        let ghost rest = vals.skip(i as int);
        let ghost before = out@;
        let pair: usize = 45 * values[i] + values[i + 1];
        push_bits(out, pair, 11);
        proof {
            assert(rest[0] == values@[i as int] as int);
            assert(rest[1] == values@[i + 1] as int);
            assert(rest.skip(2) =~= vals.skip(i + 2));
            assert(out@ + payload(vals.skip(i + 2)) =~= before + payload(rest));
        }
        i += 2;
    }
    if i < n {
        let ghost rest = vals.skip(i as int);
        let ghost before = out@;
        push_bits(out, values[i], 6);
        proof {
            assert(rest.len() == 1);
            assert(rest[0] == values@[i as int] as int);
            assert(out@ =~= before + payload(rest));
        }
    } else {
        assert(payload(vals.skip(i as int)) =~= Seq::<bool>::empty());
        assert(out@ =~= out@ + payload(vals.skip(i as int)));
    }
}

/// Fills a stream of data bits up: zero bits to the padded length, then the
/// filler bytes 236 and 17 in turn up to the capacity of the symbol.
pub fn pad_stream(bits: &mut Vec<bool>)
    requires
        old(bits).len() <= usize::MAX - 11,
    ensures
        final(bits)@ == padded(old(bits)@),
{
    let ghost raw = bits@;
    let n: usize = bits.len();
    let target: usize = if n <= 859 {
        (n + 11) / 8 * 8
    } else if n <= 864 {
        864
    } else {
        (n + 7) / 8 * 8
    };
    while bits.len() < target
        invariant
            n == raw.len(),
            n <= bits.len() <= target,
            target == padded_len(n as int),
            forall|i: int| 0 <= i < n ==> bits@[i] == raw[i],
            forall|i: int| n <= i < bits.len() ==> !bits@[i],
        decreases target - bits.len(),
    {
        bits.push(false);
    }
    let mut k: usize = 0;
    while bits.len() < CAPACITY_BITS
        invariant
            n == raw.len(),
            target == padded_len(n as int),
            target % 8 == 0,
            bits.len() == target + 8 * k,
            bits.len() <= 864 || k == 0,
            forall|i: int| 0 <= i < n ==> bits@[i] == raw[i],
            forall|i: int| n <= i < target ==> !bits@[i],
            forall|i: int| target <= i < bits.len() ==> bits@[i] == filler_bit(i - target),
        decreases 864 - bits.len(),
    {
        let ghost before = bits@;
        let filler: usize = if k % 2 == 0 {
            236
        } else {
            17
        };
        push_bits(bits, filler, 8);
        proof {
            lemma_bits_of_len(filler as nat, 8);
            assert forall|i: int| target <= i < bits.len() implies bits@[i] == filler_bit(
                i - target,
            ) by {
                if i >= before.len() {
                    let j = i - before.len();
                    assert(bits@[i] == bits_of(filler as nat, 8)[j]);
                    assert((i - target) / 8 == k);
                    assert((i - target) % 8 == j);
                } else {
                    assert(bits@[i] == before[i]);
                }
            }
            assert forall|i: int| 0 <= i < target implies bits@[i] == before[i] by {}
        }
        k += 1;
    }
    assert(bits@ =~= padded(raw));
}

/// Builds the bit stream of a text: the mode indicator `0010`, the number
/// of characters in nine bits, the characters two by two, and the padding.
/// A text with a character outside the alphanumeric set is turned away, and
/// so is one of more than 255 characters. The stream is a whole number of
/// bytes, and for a text of up to 154 characters it has exactly the 864 bits
/// that the symbol holds.
pub fn build_bit_stream(text: &str) -> (outcome: Result<Vec<bool>, EncodeError>)
    ensures
        is_stream_of(text@, outcome),
        outcome is Ok ==> outcome->Ok_0@.len() % 8 == 0 && 864 <= outcome->Ok_0@.len() <= 1416,
        outcome is Ok ==> (text@.len() <= 154 <==> outcome->Ok_0@.len() == 864),
{
    let values: Vec<usize> = match text_values(text) {
        Some(values) => values,
        None => {
            return Err(EncodeError::InvalidCharacter);
        },
    };
    let count: usize = values.len();
    if count > MAX_CHARS {
        return Err(EncodeError::InputTooLong);
    }
    let mut bits: Vec<bool> = Vec::new();
    push_bits(&mut bits, 2, 4);
    push_bits(&mut bits, count, 9);
    push_payload(&mut bits, &values);
    proof {
        assert(values@.map_values(|v: usize| v as int) =~= values_of(text@));
        assert(bits@ =~= data_bits(text@));
        lemma_data_bits_len(text@);
        lemma_stream_len(text@);
    }
    pad_stream(&mut bits);
    Ok(bits)
}

} // verus!
