use qr_encoder::penalty::{calc_penalty, line_looks_like_finder, line_run_penalty, penalty_parts, rotate};
use qr_encoder::utils::{blank, Pixels};

fn checkerboard() -> Pixels {
    let mut p = blank();
    for y in 0..37 {
        for x in 0..37 {
            p[y][x] = (x + y) % 2 == 0;
        }
    }
    p
}

fn line_from(text: &str) -> [bool; 37] {
    let mut line = [false; 37];
    for (i, c) in text.chars().enumerate() {
        line[i] = c == '1';
    }
    line
}

fn alternating_after(prefix: &str) -> [bool; 37] {
    let mut line = line_from(prefix);
    let start = prefix.len();
    for i in start..37 {
        line[i] = !line[i - 1];
    }
    line
}

#[test]
fn checkerboard_has_only_the_dark_penalty() {
    let parts = penalty_parts(checkerboard());
    assert_eq!(parts.horiz_run_penalty, 0);
    assert_eq!(parts.vert_run_penalty, 0);
    assert_eq!(parts.box_penalty, 0);
    assert_eq!(parts.finder_penalty, 0);
    assert_eq!(parts.dark_penalty, 450);
    assert_eq!(calc_penalty(checkerboard()), 450);
}

#[test]
fn run_of_six_against_run_of_five() {
    // Row 11 of the checkerboard is light at 0 and 6 and dark at 1, 3, 5.
    let mut five = checkerboard();
    for x in 1..=5 {
        five[11][x] = true;
    }
    let mut six = five;
    six[11][0] = true;
    let base = penalty_parts(checkerboard()).horiz_run_penalty;
    let with_five = penalty_parts(five).horiz_run_penalty;
    let with_six = penalty_parts(six).horiz_run_penalty;
    assert_eq!(with_five, base + 3);
    assert_eq!(with_six, base + 4);
    assert_eq!(penalty_parts(five).vert_run_penalty, 0);
    assert_eq!(penalty_parts(six).vert_run_penalty, 0);
}

#[test]
fn run_lengths_and_their_cost() {
    assert_eq!(line_run_penalty(&alternating_after("0000")), 0);
    assert_eq!(line_run_penalty(&alternating_after("00000")), 3);
    assert_eq!(line_run_penalty(&alternating_after("000000")), 4);
    assert_eq!(line_run_penalty(&alternating_after("1111111")), 5);
    assert_eq!(line_run_penalty(&alternating_after("0111110000001")), 3 + 4);
    assert_eq!(line_run_penalty(&[true; 37]), 35);
    assert_eq!(line_run_penalty(&[false; 37]), 35);
    // a run at the end of the line counts too
    let mut tail = alternating_after("0");
    for i in 32..37 {
        tail[i] = false;
    }
    assert_eq!(tail[31], true);
    assert_eq!(line_run_penalty(&tail), 3);
}

#[test]
fn first_run_is_not_counted_longer_than_it_is() {
    assert_eq!(line_run_penalty(&alternating_after("1111")), 0);
}

#[test]
fn single_dark_block_scores_three() {
    let mut p = checkerboard();
    p[10][10] = true;
    p[10][11] = true;
    p[11][10] = true;
    p[11][11] = true;
    assert_eq!(penalty_parts(p).box_penalty, 3);
}

#[test]
fn overlapping_blocks_count_each() {
    let mut p = checkerboard();
    for y in 10..13 {
        for x in 10..13 {
            p[y][x] = false;
        }
    }
    assert_eq!(penalty_parts(p).box_penalty, 4 * 3);
    assert_eq!(penalty_parts(blank()).box_penalty, 36 * 36 * 3);
}

#[test]
fn finder_lookalike_in_rows_and_columns() {
    assert!(line_looks_like_finder(&alternating_after("10111010000")));
    assert!(line_looks_like_finder(&alternating_after("00001011101")));
    assert!(!line_looks_like_finder(&alternating_after("1011101000")));
    assert!(!line_looks_like_finder(&[false; 37]));
    let mut at_end = alternating_after("0");
    let pattern = line_from("10111010000");
    at_end[26..37].copy_from_slice(&pattern[..11]);
    assert!(line_looks_like_finder(&at_end));

    let mut p = checkerboard();
    let row = line_from("10111010000");
    for x in 0..11 {
        p[20][x + 3] = row[x];
    }
    let parts = penalty_parts(p);
    assert_eq!(parts.finder_penalty, 40);
    let turned = penalty_parts(rotate(p));
    assert_eq!(turned.finder_penalty, 40);
}

#[test]
fn a_line_with_both_patterns_counts_once() {
    let mut p = checkerboard();
    let row = line_from("1011101000010111010000");
    for x in 0..22 {
        p[20][x + 3] = row[x];
    }
    let mut line = [false; 37];
    line.copy_from_slice(&p[20]);
    assert!(line_looks_like_finder(&line));
    assert_eq!(penalty_parts(p).finder_penalty, 40);
}

#[test]
fn dark_share_is_cut_before_the_percentage() {
    assert_eq!(penalty_parts(blank()).dark_penalty, 450);
    let mut half = blank();
    for y in 0..18 {
        half[y] = [true; 37];
    }
    assert_eq!(penalty_parts(half).dark_penalty, 450);
    let all = [[true; 37]; 37];
    assert_eq!(penalty_parts(all).dark_penalty, 500);
    let mut almost = all;
    almost[36][36] = false;
    assert_eq!(penalty_parts(almost).dark_penalty, 450);
}

#[test]
fn light_grid_total() {
    let parts = penalty_parts(blank());
    assert_eq!(parts.horiz_run_penalty, 37 * 35);
    assert_eq!(parts.vert_run_penalty, 37 * 35);
    assert_eq!(parts.finder_penalty, 0);
    assert_eq!(calc_penalty(blank()), 2 * 37 * 35 + 36 * 36 * 3 + 450);
    let parts = penalty_parts(blank());
    assert_eq!(parts.finalize(), calc_penalty(blank()));
}

#[test]
fn rotate_exchanges_rows_and_columns() {
    let mut p = blank();
    p[3][30] = true;
    p[0][36] = true;
    let r = rotate(p);
    for y in 0..37 {
        for x in 0..37 {
            assert_eq!(r[y][x], p[x][y]);
        }
    }
    assert_eq!(rotate(r), p);
}
