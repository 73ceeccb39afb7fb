use connect4_solver::state::{state_bitboard, State, BOARD_MASK, COL_MASK, IS_LEGAL};

fn reflect(board: u64) -> u64 {
    let mut reflected = 0u64;
    for c in 0..7 {
        reflected |= ((board >> (8 * c)) & COL_MASK) << (8 * (6 - c));
    }
    reflected
}

fn popcount(x: u64) -> i32 {
    x.count_ones() as i32
}

#[test]
fn start_state_is_empty() {
    let s = State::start_state();
    assert_eq!(s.curr_pieces, 0);
    assert_eq!(s.opp_pieces, 0);
    assert_eq!(s.height_map, 0x0001_0101_0101_0101);
    assert_eq!(s.moves_made, 0);
}

#[test]
fn fingerprint_reflection_invariant() {
    let mut s = State::start_state();
    for col in [3u32, 3, 2, 0, 6, 1] {
        s = s.play_move(col);
    }
    let mirrored_curr = reflect(s.curr_pieces);
    let mirrored_height = reflect(s.height_map);
    assert_eq!(
        state_bitboard(s.curr_pieces, s.height_map),
        state_bitboard(mirrored_curr, mirrored_height)
    );
}

#[test]
fn fingerprint_reflection_invariant_via_encode() {
    let board = vec![
        "       ",
        "       ",
        "       ",
        "       ",
        "       ",
        "O      ",
        "XXO    ",
    ];
    let mirrored = vec![
        "       ",
        "       ",
        "       ",
        "       ",
        "       ",
        "      O",
        "    OXX",
    ];
    let a = State::encode(board);
    let b = State::encode(mirrored);
    assert_eq!(a.to_bitboard(), b.to_bitboard());
}

#[test]
fn play_move_keeps_piece_counts() {
    let mut s = State::start_state();
    for col in [3u32, 2, 3, 3, 0, 6, 5, 1, 4] {
        s = s.play_move(col);
        assert_eq!(
            popcount(s.curr_pieces) + popcount(s.opp_pieces),
            s.moves_made as i32
        );
        for c in 0..7 {
            assert_eq!(popcount((s.height_map >> (8 * c)) & COL_MASK), 1);
        }
        assert_eq!(s.curr_pieces & s.opp_pieces, 0);
        assert_eq!(s.curr_pieces & !BOARD_MASK, 0);
    }
}

#[test]
fn play_move_swaps_sides() {
    let s = State::start_state();
    let t = s.play_move(3);
    assert_eq!(t.curr_pieces, 0);
    assert_eq!(t.opp_pieces, 1u64 << 24);
    assert_eq!(t.moves_made, 1);
    assert_eq!(t.height_map & (COL_MASK << 24), 1u64 << 25);
}

#[test]
fn full_column_is_not_playable() {
    let mut s = State::start_state();
    for _ in 0..7 {
        s = s.play_move(0);
    }
    assert_eq!((s.height_map & COL_MASK) & IS_LEGAL, 0);
}

#[test]
fn bitboard_round_trip() {
    let mut s = State::start_state();
    for col in [3u32, 3, 2, 4, 4, 0, 6, 6, 1, 5] {
        s = s.play_move(col);
        let packed = s.curr_pieces | s.height_map;
        let decoded = State::from_bitboard(packed);
        assert_eq!(decoded, s);
    }
}

#[test]
fn bitboard_round_trip_of_start() {
    let s = State::start_state();
    assert_eq!(State::from_bitboard(s.curr_pieces | s.height_map), s);
}

#[test]
fn encode_decode_round_trip() {
    let rows = [
        "       ",
        "       ",
        "       ",
        "   X   ",
        "   O   ",
        "   X   ",
        "  OXXOO",
    ];
    let s = State::encode(rows.to_vec());
    assert_eq!(s.moves_made, 8);
    let text = s.decode();
    let expected: String = rows.iter().map(|r| format!("{r}\n")).collect();
    assert_eq!(text, expected);
}

#[test]
fn encode_swaps_sides_on_odd_count() {
    let rows = [
        "       ",
        "       ",
        "       ",
        "       ",
        "       ",
        "       ",
        "   X   ",
    ];
    let s = State::encode(rows.to_vec());
    assert_eq!(s.moves_made, 1);
    // one ply played: the piece written as X belongs to the side that
    // already moved, so it sits in opp_pieces
    assert_eq!(s.opp_pieces, 1u64 << 24);
    assert_eq!(s.curr_pieces, 0);
}

#[test]
fn encode_ignores_floating_pieces() {
    let rows = [
        "       ",
        "       ",
        "       ",
        "   X   ",
        "       ",
        "       ",
        "   X   ",
    ];
    let s = State::encode(rows.to_vec());
    // the piece above the gap is dropped
    assert_eq!(s.moves_made, 1);
}

#[test]
fn generate_states_contains_root() {
    let s = State::start_state();
    let states = s.generate_states(2);
    assert!(states.contains(&s.to_bitboard()));
    // root, 7 children collapsed to 4 by symmetry, 49 grandchildren
    // collapsed by symmetry
    assert!(states.len() > 5);
}

#[test]
fn next_states_enumerates_playable_columns() {
    let s = State::start_state();
    let children = s.next_states();
    assert_eq!(children.len(), 7);
    for child in &children {
        assert_eq!(child.moves_made, 1);
    }
}
