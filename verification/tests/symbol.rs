use qr_encoder::encode::{build_symbol, encode};
use qr_encoder::format::set_format_bits;
use qr_encoder::get_pixel_data;
use qr_encoder::layout::{is_function, placement_order};
use qr_encoder::mask::{select_mask, set_mask};
use qr_encoder::penalty::calc_penalty;
use qr_encoder::place::place_data;
use qr_encoder::stream::{build_bit_stream, EncodeError};
use qr_encoder::structure::set_finder_patterns;
use qr_encoder::utils::{bits_to_bytes, blank, bytes_to_bits, set_module, Pixels};

// An independent description of the symbol, written the way the standard
// draws it, to hold the library against.

fn standard_patterns() -> (Pixels, Pixels) {
    let mut dark = [[false; 37]; 37];
    let mut function = [[false; 37]; 37];
    for i in 0..37 {
        dark[6][i] = i % 2 == 0;
        dark[i][6] = i % 2 == 0;
        function[6][i] = true;
        function[i][6] = true;
    }
    for (cx, cy) in [(3i32, 3i32), (33, 3), (3, 33)] {
        for dy in -4i32..=4 {
            for dx in -4i32..=4 {
                let (x, y) = (cx + dx, cy + dy);
                if (0..37).contains(&x) && (0..37).contains(&y) {
                    let dist = dx.abs().max(dy.abs());
                    dark[y as usize][x as usize] = dist != 2 && dist != 4;
                    function[y as usize][x as usize] = true;
                }
            }
        }
    }
    for dy in -2i32..=2 {
        for dx in -2i32..=2 {
            let (x, y) = ((30 + dx) as usize, (30 + dy) as usize);
            dark[y][x] = dx.abs().max(dy.abs()) != 1;
            function[y][x] = true;
        }
    }
    for (x, y) in standard_format_positions().into_iter().flatten() {
        function[y][x] = true;
    }
    dark[29][8] = true;
    function[29][8] = true;
    (dark, function)
}

// For each of the 15 format bits, most significant first, its two modules.
fn standard_format_positions() -> Vec<[(usize, usize); 2]> {
    let mut out = vec![[(0, 0); 2]; 15];
    for low in 0..15usize {
        let first = match low {
            0..=5 => (8, low),
            6 => (8, 7),
            7 => (8, 8),
            8 => (7, 8),
            _ => (14 - low, 8),
        };
        let second = if low < 8 { (36 - low, 8) } else { (8, 22 + low) };
        out[14 - low] = [first, second];
    }
    out
}

fn standard_order() -> Vec<(usize, usize)> {
    let (_, function) = standard_patterns();
    let mut order = Vec::new();
    let mut right: i32 = 36;
    while right >= 1 {
        if right == 6 {
            right = 5;
        }
        for vert in 0..37i32 {
            for j in 0..2 {
                let x = (right - j) as usize;
                let upward = (right + 1) & 2 == 0;
                let y = if upward { 36 - vert } else { vert } as usize;
                if !function[y][x] {
                    order.push((x, y));
                }
            }
        }
        right -= 2;
    }
    order
}

fn standard_mask(mask: usize, x: usize, y: usize) -> bool {
    match mask {
        0 => (x + y) % 2 == 0,
        1 => y % 2 == 0,
        2 => x % 3 == 0,
        3 => (x + y) % 3 == 0,
        4 => (x / 3 + y / 2) % 2 == 0,
        5 => x * y % 2 + x * y % 3 == 0,
        6 => (x * y % 2 + x * y % 3) % 2 == 0,
        _ => ((x + y) % 2 + x * y % 3) % 2 == 0,
    }
}

// Format information for level L: five data bits, ten check bits of the
// (15, 5) BCH code, and the standard's overlay.
fn standard_format_word(mask: usize) -> u32 {
    let data = (0b01 << 3) | mask as u32;
    let mut rem = data;
    for _ in 0..10 {
        rem = (rem << 1) ^ ((rem >> 9) * 0x537);
    }
    ((data << 10) | rem) ^ 0x5412
}

fn gf_mul(a: u8, b: u8) -> u8 {
    let mut z: u32 = 0;
    for i in (0..8).rev() {
        z = (z << 1) ^ ((z >> 7) * 0x11d);
        z ^= ((b as u32 >> i) & 1) * a as u32;
    }
    z as u8
}

fn standard_parity(data: &[u8], degree: usize) -> Vec<u8> {
    let mut divisor = vec![0u8; degree];
    divisor[degree - 1] = 1;
    let mut root: u8 = 1;
    for _ in 0..degree {
        for j in 0..degree {
            divisor[j] = gf_mul(divisor[j], root);
            if j + 1 < degree {
                divisor[j] ^= divisor[j + 1];
            }
        }
        root = gf_mul(root, 2);
    }
    let mut result = vec![0u8; degree];
    for &b in data {
        let factor = b ^ result.remove(0);
        result.push(0);
        for (x, &y) in result.iter_mut().zip(divisor.iter()) {
            *x ^= gf_mul(y, factor);
        }
    }
    result
}

fn standard_codewords(text: &str) -> Vec<u8> {
    let mut data = bits_to_bytes(&build_bit_stream(text).unwrap());
    let parity = standard_parity(&data, 26);
    data.extend(parity);
    data
}

fn read_mask(p: &Pixels) -> usize {
    let mut word: u32 = 0;
    for [first, second] in standard_format_positions() {
        assert_eq!(p[first.1][first.0], p[second.1][second.0]);
        word = (word << 1) | p[first.1][first.0] as u32;
    }
    (0..8).find(|k| standard_format_word(*k) == word).expect("format information of level L")
}

fn check_symbol(p: &Pixels, codewords: &[u8]) {
    let (dark, function) = standard_patterns();
    let formats: Vec<(usize, usize)> = standard_format_positions().into_iter().flatten().collect();
    let mask = read_mask(p);
    for y in 0..37 {
        for x in 0..37 {
            if function[y][x] && !formats.contains(&(x, y)) {
                assert_eq!(p[y][x], dark[y][x], "function module ({}, {})", x, y);
            }
        }
    }
    let mut bits = Vec::new();
    for (x, y) in standard_order() {
        bits.push(p[y][x] != standard_mask(mask, x, y));
    }
    assert_eq!(bits.len(), 1079);
    assert_eq!(bits_to_bytes(&bits), codewords);
    assert_eq!(&bits[1072..], &[false; 7]);
}

fn plain_symbol(codewords: &Vec<u8>) -> Pixels {
    let mut bits = bytes_to_bits(codewords);
    bits.extend([false; 7]);
    let mut p = blank();
    set_finder_patterns(&mut p);
    place_data(&mut p, &bits, &placement_order());
    p
}

#[test]
fn symbol_holds_the_codewords_of_the_text() {
    let longest = "QR CODE 5-L: $1.50/KG *7+".chars().cycle().take(154).collect::<String>();
    for text in ["HELLO WORLD", "", "0", "HTTPS://EXAMPLE.COM/A-B.C", longest.as_str()] {
        let p = encode(text.to_string()).unwrap();
        check_symbol(&p, &standard_codewords(text));
    }
}

#[test]
fn error_correction_codewords_follow_the_data() {
    let text = "HELLO WORLD";
    let p = encode(text.to_string()).unwrap();
    let mask = read_mask(&p);
    let mut bits = Vec::new();
    for (x, y) in placement_order() {
        bits.push(p[y][x] != standard_mask(mask, x, y));
    }
    let codewords = bits_to_bytes(&bits);
    let data = bits_to_bytes(&build_bit_stream(text).unwrap());
    assert_eq!(codewords.len(), 134);
    assert_eq!(&codewords[..108], data.as_slice());
    assert_eq!(&codewords[108..], standard_parity(&data, 26).as_slice());
    assert_ne!(&codewords[108..], &[0u8; 26]);
}

#[test]
fn encode_is_build_symbol_on_the_codewords() {
    let text = "VERSION 5";
    let codewords = standard_codewords(text);
    assert_eq!(encode(text.to_string()), build_symbol(&codewords));
    assert_eq!(get_pixel_data(text.to_string()), encode(text.to_string()));
}

#[test]
fn encode_refuses_what_it_cannot_hold() {
    assert_eq!(encode("hello".to_string()), Err(EncodeError::InvalidCharacter));
    assert_eq!(encode("A".repeat(256)), Err(EncodeError::InputTooLong));
    assert_eq!(encode("A".repeat(155)), Err(EncodeError::ConfigurationMismatch));
    assert_eq!(encode("A".repeat(255)), Err(EncodeError::ConfigurationMismatch));
    assert!(encode("A".repeat(154)).is_ok());
    assert_eq!(get_pixel_data("a".to_string()), Err(EncodeError::InvalidCharacter));
}

#[test]
fn build_symbol_wants_134_codewords() {
    assert_eq!(build_symbol(&vec![0u8; 133]), Err(EncodeError::ConfigurationMismatch));
    assert_eq!(build_symbol(&vec![0u8; 135]), Err(EncodeError::ConfigurationMismatch));
    assert_eq!(build_symbol(&vec![]), Err(EncodeError::ConfigurationMismatch));
    let codewords: Vec<u8> = (0..134u32).map(|i| (i * 37 % 251) as u8).collect();
    let p = build_symbol(&codewords).unwrap();
    check_symbol(&p, &codewords);
}

#[test]
fn chosen_mask_has_the_lowest_penalty() {
    for text in ["HELLO WORLD", "1234567890", "A"] {
        let plain = plain_symbol(&standard_codewords(text));
        let (mask, grid) = select_mask(plain);
        let scores: Vec<usize> = (0..8).map(|k| calc_penalty(set_mask(plain, k))).collect();
        let lowest = *scores.iter().min().unwrap();
        assert_eq!(mask, scores.iter().position(|s| *s == lowest).unwrap());
        assert_eq!(grid, set_mask(plain, mask));
        assert_eq!(read_mask(&encode(text.to_string()).unwrap()), mask);
        let mut finished = grid;
        set_format_bits(&mut finished, mask);
        assert_eq!(encode(text.to_string()).unwrap(), finished);
    }
}

#[test]
fn ties_go_to_the_first_mask() {
    // On a grid whose data modules are all light, masks 0 and 1 and the rest
    // score differently, but a grid equal under two masks must name the
    // earlier: masking with mask 0 and choosing again gives a mask whose
    // penalty no earlier mask reaches.
    let mut p = blank();
    set_finder_patterns(&mut p);
    let (mask, _) = select_mask(p);
    let scores: Vec<usize> = (0..8).map(|k| calc_penalty(set_mask(p, k))).collect();
    for k in 0..mask {
        assert!(scores[k] > scores[mask]);
    }
    for k in mask..8 {
        assert!(scores[k] >= scores[mask]);
    }
}

#[test]
fn mask_selection_repeats() {
    let plain = plain_symbol(&standard_codewords("REPEAT"));
    assert_eq!(select_mask(plain), select_mask(plain));
}

#[test]
fn masks_follow_their_formulas() {
    let (_, function) = standard_patterns();
    for k in 0..8 {
        let masked = set_mask(blank(), k);
        for y in 0..37 {
            for x in 0..37 {
                assert_eq!(masked[y][x], !function[y][x] && standard_mask(k, x, y), "mask {} at ({}, {})", k, x, y);
            }
        }
        assert_eq!(set_mask(masked, k), blank());
    }
    assert!(set_mask(blank(), 4)[9][9] == ((9 / 2 + 9 / 3) % 2 == 0));
}

#[test]
fn placement_order_is_the_zigzag() {
    let order = placement_order();
    assert_eq!(order.len(), 1079);
    assert_eq!(&order[..4], &[(36, 36), (35, 36), (36, 35), (35, 35)]);
    assert_eq!(order[1078], (0, 28));
    assert_eq!(order, standard_order());
    let mut seen = [[false; 37]; 37];
    for (x, y) in order {
        assert!(!is_function(x, y));
        assert!(!seen[y][x]);
        seen[y][x] = true;
    }
    let (_, function) = standard_patterns();
    for y in 0..37 {
        for x in 0..37 {
            assert_eq!(is_function(x, y), function[y][x]);
            assert_eq!(seen[y][x], !function[y][x]);
        }
    }
}

#[test]
fn place_data_writes_in_order() {
    let mut p = blank();
    p[2][1] = true;
    let order = vec![(0, 0), (5, 7), (0, 0), (36, 36)];
    place_data(&mut p, &vec![true, true, false, true], &order);
    assert!(!p[0][0]);
    assert!(p[7][5]);
    assert!(p[36][36]);
    assert!(p[2][1]);
    assert_eq!(p.iter().flatten().filter(|m| **m).count(), 3);
    let mut q = blank();
    place_data(&mut q, &vec![], &vec![]);
    assert_eq!(q, blank());
}

#[test]
fn set_module_sets_one_module() {
    let mut p = blank();
    set_module(&mut p, 3, 30, true);
    assert!(p[30][3]);
    assert_eq!(p.iter().flatten().filter(|m| **m).count(), 1);
    set_module(&mut p, 3, 30, false);
    assert_eq!(p, blank());
}

#[test]
fn function_patterns_on_a_fresh_grid() {
    let mut first = blank();
    set_finder_patterns(&mut first);
    let mut second = blank();
    set_finder_patterns(&mut second);
    assert_eq!(first, second);
    let (dark, _) = standard_patterns();
    assert_eq!(first, dark);
    assert_eq!(first.iter().flatten().filter(|m| **m).count(), 139);
    set_finder_patterns(&mut second);
    assert_eq!(first, second);
}

#[test]
fn function_patterns_keep_dark_modules() {
    let mut p = blank();
    p[20][20] = true;
    p[1][1] = true;
    set_finder_patterns(&mut p);
    assert!(p[20][20]);
    assert!(p[1][1]);
    assert!(p[0][0]);
    assert!(p[29][8]);
    assert!(p[30][30]);
    assert!(!p[29][29]);
}

#[test]
fn format_copies_agree_for_every_mask() {
    for mask in 0..8 {
        let mut p = blank();
        set_format_bits(&mut p, mask);
        let mut word: u32 = 0;
        for [first, second] in standard_format_positions() {
            assert_eq!(p[first.1][first.0], p[second.1][second.0]);
            word = (word << 1) | p[first.1][first.0] as u32;
        }
        assert_eq!(word, standard_format_word(mask));
        assert_eq!(p.iter().flatten().filter(|m| **m).count() as u32, 2 * word.count_ones());
        let mut q = [[true; 37]; 37];
        set_format_bits(&mut q, mask);
        assert_eq!(q.iter().flatten().filter(|m| !**m).count() as u32, 2 * (15 - word.count_ones()));
    }
    let mut p = blank();
    set_format_bits(&mut p, 0);
    // 111011111000100 along row 8 from the left edge
    assert_eq!([p[8][0], p[8][1], p[8][2], p[8][3], p[8][4], p[8][5], p[8][7], p[8][8]], [true, true, true, false, true, true, true, true]);
}
