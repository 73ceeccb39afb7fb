use connect4_solver::engine::{is_win, DEFAULT_MOVE_ORDER};
use connect4_solver::threats::{count_threats, sort_by_threats};

fn bit(col: u64, row: u64) -> u64 {
    1u64 << (8 * col + row)
}

fn height_map_of(heights: [u64; 7]) -> u64 {
    let mut h = 0u64;
    for c in 0..7 {
        h |= bit(c as u64, heights[c]);
    }
    h
}

#[test]
fn is_win_detects_all_directions() {
    // vertical in column 2
    let vertical = bit(2, 0) | bit(2, 1) | bit(2, 2) | bit(2, 3);
    assert!(is_win(vertical));
    // horizontal on row 0
    let horizontal = bit(1, 0) | bit(2, 0) | bit(3, 0) | bit(4, 0);
    assert!(is_win(horizontal));
    // rising diagonal
    let rising = bit(0, 0) | bit(1, 1) | bit(2, 2) | bit(3, 3);
    assert!(is_win(rising));
    // falling diagonal
    let falling = bit(0, 3) | bit(1, 2) | bit(2, 1) | bit(3, 0);
    assert!(is_win(falling));
    // three in a row is not a win
    assert!(!is_win(bit(1, 0) | bit(2, 0) | bit(3, 0)));
    assert!(!is_win(0));
}

#[test]
fn is_win_monotone_example() {
    let p = bit(2, 0) | bit(2, 1) | bit(2, 2) | bit(2, 3);
    assert!(is_win(p));
    assert!(is_win(p | bit(5, 0) | bit(6, 6)));
}

#[test]
fn no_win_across_column_boundary() {
    // two at the top of one column and two at the bottom of the next are
    // separated by the sentinel bit
    let p = bit(0, 5) | bit(0, 6) | bit(1, 0) | bit(1, 1);
    assert!(!is_win(p));
}

#[test]
fn count_threats_vertical() {
    // three pieces stacked in column 0; the one cell above completes four
    let pieces = bit(0, 0) | bit(0, 1) | bit(0, 2);
    let heights = height_map_of([3, 0, 0, 0, 0, 0, 0]);
    assert_eq!(count_threats(pieces, heights), 1);
}

#[test]
fn count_threats_horizontal_both_sides() {
    // three in a row on the floor threatens completion on both ends
    let pieces = bit(1, 0) | bit(2, 0) | bit(3, 0);
    let heights = height_map_of([0, 1, 1, 1, 0, 0, 0]);
    assert_eq!(count_threats(pieces, heights), 2);
}

#[test]
fn count_threats_empty_board() {
    let heights = height_map_of([0; 7]);
    assert_eq!(count_threats(0, heights), 0);
}

#[test]
fn sort_by_threats_keeps_default_on_ties() {
    assert_eq!(sort_by_threats(0), DEFAULT_MOVE_ORDER);
}

#[test]
fn sort_by_threats_moves_strongest_first() {
    // column 0 has five threats, everything else none
    let col_threats = 5u32;
    let sorted = sort_by_threats(col_threats);
    let expected =
        0 | (3 << 4) | (2 << 8) | (4 << 12) | (5 << 16) | (1 << 20) | (6 << 24);
    assert_eq!(sorted, expected);
}

#[test]
fn sort_by_threats_is_stable_permutation() {
    // columns 1 and 5 tie ahead of the rest: default order among them kept
    let col_threats = (2 << 4) | (2 << 20);
    let sorted = sort_by_threats(col_threats);
    let mut cols: Vec<u32> = (0..7).map(|i| (sorted >> (4 * i)) & 0xF).collect();
    assert_eq!(&cols[0..2], &[5, 1]);
    cols.sort();
    assert_eq!(cols, vec![0, 1, 2, 3, 4, 5, 6]);
}
