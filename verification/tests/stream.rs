use qr_encoder::stream::{build_bit_stream, pad_stream, text_values, EncodeError};
use qr_encoder::utils::{bits_to_bytes, bytes_to_bits, push_bits};

fn bits_from(text: &str) -> Vec<bool> {
    text.chars().filter(|c| *c != ' ').map(|c| c == '1').collect()
}

fn filler(count: usize) -> Vec<bool> {
    let mut out = Vec::new();
    for k in 0..count {
        out.extend(bits_from(if k % 2 == 0 { "11101100" } else { "00010001" }));
    }
    out
}

#[test]
fn hello_world_bit_sequence() {
    let bits = build_bit_stream("HELLO WORLD").unwrap();
    let mut expected = bits_from(
        "0010 000001011 01100001011 01111000110 10001011100 10110111000 10011010100 001101",
    );
    assert_eq!(expected.len(), 74);
    expected.extend(bits_from("000000"));
    expected.extend(filler(98));
    assert_eq!(expected.len(), 864);
    assert_eq!(bits, expected);
}

#[test]
fn hello_world_codewords() {
    let bits = build_bit_stream("HELLO WORLD").unwrap();
    let bytes = bits_to_bytes(&bits);
    assert_eq!(bytes.len(), 108);
    assert_eq!(&bytes[..13], &[32, 91, 11, 120, 209, 114, 220, 77, 67, 64, 236, 17, 236]);
    assert_eq!(bytes[107], 17);
}

#[test]
fn stream_fills_capacity() {
    for len in [1usize, 2, 3, 11, 76, 77, 153, 154] {
        let text: String = "A1 $%*+-./:Z9".chars().cycle().take(len).collect();
        let bits = build_bit_stream(&text).unwrap();
        assert_eq!(bits.len(), 864, "length {}", len);
        assert_eq!(bits.len() % 8, 0);
    }
}

#[test]
fn empty_text_is_header_and_padding() {
    let bits = build_bit_stream("").unwrap();
    // 13 bits of header, 4 of terminator, 7 up to the next whole byte
    let mut expected = bits_from("0010 000000000 0000 0000000");
    expected.extend(filler(105));
    assert_eq!(bits, expected);
}

#[test]
fn longest_fitting_text_ends_with_terminator() {
    let text = "7".repeat(154);
    let bits = build_bit_stream(&text).unwrap();
    assert_eq!(bits.len(), 864);
    assert_eq!(&bits[..13], bits_from("0010 010011010").as_slice());
    // "77" is 7 * 45 + 7 = 322
    assert_eq!(&bits[849..860], bits_from("00101000010").as_slice());
    assert_eq!(&bits[860..], &[false, false, false, false]);
}

#[test]
fn text_beyond_capacity_is_not_cut() {
    let text = "7".repeat(155);
    let bits = build_bit_stream(&text).unwrap();
    // 13 + 77 * 11 + 6 = 866 bits of data, filled up to a whole byte
    assert_eq!(bits.len(), 872);
    assert_eq!(&bits[860..866], bits_from("000111").as_slice());
    assert_eq!(&bits[866..], &[false; 6]);
    let longest = "Z".repeat(255);
    assert_eq!(build_bit_stream(&longest).unwrap().len(), 1416);
}

#[test]
fn same_text_same_stream() {
    let first = build_bit_stream("PADDING 123").unwrap();
    let second = build_bit_stream("PADDING 123").unwrap();
    assert_eq!(first, second);
}

#[test]
fn invalid_character_is_refused() {
    assert_eq!(build_bit_stream("hello"), Err(EncodeError::InvalidCharacter));
    assert_eq!(build_bit_stream("HELLO, WORLD"), Err(EncodeError::InvalidCharacter));
    assert_eq!(build_bit_stream("CAF\u{c9}"), Err(EncodeError::InvalidCharacter));
    assert_eq!(build_bit_stream("A\u{0}"), Err(EncodeError::InvalidCharacter));
}

#[test]
fn long_text_is_refused() {
    assert!(build_bit_stream(&"A".repeat(255)).is_ok());
    assert_eq!(build_bit_stream(&"A".repeat(256)), Err(EncodeError::InputTooLong));
}

#[test]
fn invalid_character_comes_before_length() {
    let text = format!("{}a", "A".repeat(300));
    assert_eq!(build_bit_stream(&text), Err(EncodeError::InvalidCharacter));
}

#[test]
fn alphabet_values() {
    let alphabet = "0123456789ABCDEFGHIJKLMNOPQRSTUVWXYZ $%*+-./:";
    let values = text_values(alphabet).unwrap();
    assert_eq!(values, (0..45).collect::<Vec<usize>>());
    assert_eq!(text_values("a"), None);
    assert_eq!(text_values("#"), None);
    assert_eq!(text_values(""), Some(vec![]));
}

#[test]
fn push_bits_is_most_significant_first() {
    let mut out = vec![true];
    push_bits(&mut out, 0b1011, 6);
    assert_eq!(out, vec![true, false, false, true, false, true, true]);
    push_bits(&mut out, 5, 0);
    assert_eq!(out.len(), 7);
    let mut low = Vec::new();
    push_bits(&mut low, 0x1ff, 4);
    assert_eq!(low, vec![true; 4]);
}

#[test]
fn bytes_and_bits_round_trip() {
    let bytes = vec![0u8, 1, 0x80, 0xec, 0x11, 255];
    let bits = bytes_to_bits(&bytes);
    assert_eq!(bits.len(), 48);
    assert_eq!(&bits[8..16], bits_from("00000001").as_slice());
    assert_eq!(&bits[16..24], bits_from("10000000").as_slice());
    assert_eq!(bits_to_bytes(&bits), bytes);
    let mut ragged = bits.clone();
    ragged.push(true);
    assert_eq!(bits_to_bytes(&ragged), bytes);
}

#[test]
fn padding_of_short_streams() {
    let mut bits = vec![true; 8];
    pad_stream(&mut bits);
    assert_eq!(bits.len(), 864);
    assert_eq!(&bits[8..16], &[false; 8]);
    assert_eq!(&bits[16..24], bits_from("11101100").as_slice());
    assert_eq!(&bits[24..32], bits_from("00010001").as_slice());
    let mut near = vec![true; 861];
    pad_stream(&mut near);
    assert_eq!(near.len(), 864);
    assert_eq!(&near[861..], &[false; 3]);
    let mut full = vec![true; 864];
    pad_stream(&mut full);
    assert_eq!(full, vec![true; 864]);
}
