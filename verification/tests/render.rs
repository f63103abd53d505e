use qr_encoder::encode::encode;
use qr_encoder::render::to_rgb;
use qr_encoder::utils::blank;

#[test]
fn picture_of_a_symbol() {
    let p = encode("HELLO WORLD".to_string()).unwrap();
    let samples = to_rgb(p);
    assert_eq!(samples.len(), 410 * 410 * 3);
    for py in 0..410usize {
        for px in 0..410usize {
            let inside = (20..390).contains(&px) && (20..390).contains(&py);
            let dark = inside && p[(py - 20) / 10][(px - 20) / 10];
            let want = if dark { 0u8 } else { 255u8 };
            let at = 3 * (py * 410 + px);
            assert_eq!(&samples[at..at + 3], &[want; 3], "pixel ({}, {})", px, py);
        }
    }
    assert_eq!(&samples[3 * (20 * 410 + 20)..][..3], &[0, 0, 0]);
    assert_eq!(&samples[3 * (30 * 410 + 30)..][..3], &[255, 255, 255]);
}

#[test]
fn picture_of_a_light_grid_is_white() {
    let samples = to_rgb(blank());
    assert_eq!(samples, vec![255u8; 410 * 410 * 3]);
}

#[test]
fn one_module_is_ten_pixels_square() {
    let mut p = blank();
    p[2][5] = true;
    let samples = to_rgb(p);
    let black = samples.chunks(3).filter(|c| *c == [0u8, 0, 0].as_slice()).count();
    assert_eq!(black, 100);
    assert_eq!(&samples[3 * (40 * 410 + 70)..][..3], &[0, 0, 0]);
    assert_eq!(&samples[3 * (49 * 410 + 79)..][..3], &[0, 0, 0]);
    assert_eq!(&samples[3 * (50 * 410 + 79)..][..3], &[255, 255, 255]);
    assert_eq!(&samples[3 * (40 * 410 + 69)..][..3], &[255, 255, 255]);
}
