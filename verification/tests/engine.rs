use std::collections::HashSet;
use std::sync::atomic::AtomicBool;

use connect4_solver::caches::{StateCaches, CACHE_SIZE};
use connect4_solver::database::generate_optimal_reachable_states;
use connect4_solver::engine::{evaluate_position_rec, optimal_moves, MAX_EVAL, MIN_EVAL};
use connect4_solver::state::State;

fn evaluate(state: &State, caches: &mut StateCaches, pos: &mut usize) -> i8 {
    evaluate_position_rec(
        state.curr_pieces,
        state.opp_pieces,
        state.height_map,
        state.moves_made,
        MIN_EVAL,
        MAX_EVAL,
        caches,
        &AtomicBool::new(false),
        pos,
    )
    .expect("no cancellation was requested")
}

/// A 40-piece position with no four in a row anywhere: rows alternate in
/// pairs so no direction lines up four.
fn midgame_rows() -> Vec<&'static str> {
    vec![
        "       ",
        "XOXOX  ",
        "XOXOXOX",
        "OXOXOXO",
        "OXOXOXO",
        "XOXOXOX",
        "XOXOXOX",
    ]
}

fn mirror_rows(rows: &[&'static str]) -> Vec<String> {
    rows.iter().map(|r| r.chars().rev().collect()).collect()
}

#[test]
fn cancelled_search_returns_no_value() {
    let s = State::start_state();
    let mut caches = StateCaches::new();
    let mut pos = 0usize;
    let flag = AtomicBool::new(true);
    let r = evaluate_position_rec(
        s.curr_pieces,
        s.opp_pieces,
        s.height_map,
        s.moves_made,
        MIN_EVAL,
        MAX_EVAL,
        &mut caches,
        &flag,
        &mut pos,
    );
    assert!(r.is_none());
    assert_eq!(pos, 0);
}

#[test]
fn full_board_is_a_draw_with_one_node() {
    // every column filled: 49 plies played
    let rows = vec![
        "XOXOXOX", "OXOXOXO", "XOXOXOX", "OXOXOXO", "XOXOXOX", "OXOXOXO", "XOXOXOX",
    ];
    let s = State::encode(rows);
    assert_eq!(s.moves_made, 49);
    let mut caches = StateCaches::new();
    let mut pos = 0usize;
    let value = evaluate(&s, &mut caches, &mut pos);
    assert_eq!(value, 0);
    assert_eq!(pos, 1);
}

#[test]
fn immediate_win_scores_mate_distance() {
    // the side to move completes a vertical four in column 0
    let rows = vec![
        "       ", "       ", "       ", "       ", "X O    ", "X O    ", "X O    ",
    ];
    let s = State::encode(rows);
    assert_eq!(s.moves_made, 6);
    let mut caches = StateCaches::new();
    let mut pos = 0usize;
    let value = evaluate(&s, &mut caches, &mut pos);
    // 25 - moves_made / 2
    assert_eq!(value, 22);
    // no recursion happened: only this node was visited
    assert_eq!(pos, 1);
}

#[test]
fn double_threat_loses_at_mate_distance() {
    // the opponent threatens completion at both ends of O O O on row 0
    let rows = vec![
        "       ", "       ", "       ", "       ", "       ", " XXX   ", " OOO   ",
    ];
    let s = State::encode(rows);
    assert_eq!(s.moves_made, 6);
    // the side to move cannot win at once: its row of three sits on row 1
    // with both completions hanging in the air
    let mut caches = StateCaches::new();
    let mut pos = 0usize;
    let value = evaluate(&s, &mut caches, &mut pos);
    // -(25 - (moves_made + 1) / 2)
    assert_eq!(value, -22);
}

#[test]
fn forced_block_matches_recursion_on_the_reply() {
    // exactly one opponent completion exists, at column 3
    let rows = vec![
        "       ", "       ", "       ", "       ", "       ", "    X  ", "OOO XX ",
    ];
    let s = State::encode(rows.clone());
    assert_eq!(s.moves_made, 6);
    let mut caches = StateCaches::new();
    let mut pos = 0usize;
    let value = evaluate(&s, &mut caches, &mut pos);

    let blocked = s.play_move(3);
    let mut fresh = StateCaches::new();
    let mut pos2 = 0usize;
    let reply_value = evaluate(&blocked, &mut fresh, &mut pos2);
    assert_eq!(value, -reply_value);
}

#[test]
fn late_game_immediate_win_scores_mate_distance() {
    // 30 plies played: the side to move completes a vertical four in
    // column 0, deep enough that only the thread-local tables are probed
    let rows = vec![
        "       ", "X      ", "X      ", "XOXOXOX", "OOXOXOX", "OXOXOXO", "OXOXOXO",
    ];
    let s = State::encode(rows);
    assert_eq!(s.moves_made, 30);
    let mut caches = StateCaches::new();
    let mut pos = 0usize;
    let value = evaluate(&s, &mut caches, &mut pos);
    assert_eq!(value, 25 - 30 / 2);
    assert_eq!(pos, 1);
}

#[test]
fn late_game_double_threat_loses_at_mate_distance() {
    // 34 plies played: O threatens completion at both ends of its row of
    // three on the fifth row
    let rows = vec![
        "       ", "  XXX  ", "  OOO  ", "OXOXOXO", "OXOXOXO", "XOXOXOX", "XOXOXOX",
    ];
    let s = State::encode(rows);
    assert_eq!(s.moves_made, 34);
    let mut caches = StateCaches::new();
    let mut pos = 0usize;
    let value = evaluate(&s, &mut caches, &mut pos);
    assert_eq!(value, -(25 - (34 + 1) / 2));
    assert_eq!(pos, 1);
}

#[test]
fn full_board_has_no_moves_to_offer() {
    let rows = vec![
        "XOXOXOX", "OXOXOXO", "XOXOXOX", "OXOXOXO", "XOXOXOX", "OXOXOXO", "XOXOXOX",
    ];
    let s = State::encode(rows);
    let mut caches = StateCaches::new();
    let mut pos = 0usize;
    let (value, moves) = optimal_moves(&s, &mut caches, &mut pos).unwrap();
    assert_eq!(value, MIN_EVAL);
    assert!(moves.is_empty());
}

#[test]
fn winning_column_is_reported_optimal() {
    let rows = vec![
        "       ", "       ", "       ", "       ", "X O    ", "X O    ", "X O    ",
    ];
    let s = State::encode(rows);
    let mut caches = StateCaches::new();
    let mut pos = 0usize;
    let (value, moves) = optimal_moves(&s, &mut caches, &mut pos).unwrap();
    assert_eq!(value, 22);
    assert!(moves.contains(&0));
}

#[test]
fn all_winning_columns_are_reported_in_default_order() {
    // completions wait in both column 0 and column 2; the default
    // enumeration meets column 2 first
    let rows = vec![
        "       ", "       ", "       ", "       ", "X X O O", "X X O O", "X X O O",
    ];
    let s = State::encode(rows);
    assert_eq!(s.moves_made, 12);
    let mut caches = StateCaches::new();
    let mut pos = 0usize;
    let (value, moves) = optimal_moves(&s, &mut caches, &mut pos).unwrap();
    assert_eq!(value, 25 - 12 / 2);
    assert_eq!(moves, vec![2, 0]);
}

#[test]
fn evaluation_is_mirror_invariant() {
    let rows = midgame_rows();
    let mirrored: Vec<String> = mirror_rows(&rows);
    let mirrored_refs: Vec<&str> = mirrored.iter().map(|r| r.as_str()).collect();

    let a = State::encode(rows);
    let b = State::encode(mirrored_refs);
    assert_eq!(a.moves_made, 40);
    assert_eq!(b.moves_made, 40);

    let mut caches_a = StateCaches::new();
    let mut pos_a = 0usize;
    let value_a = evaluate(&a, &mut caches_a, &mut pos_a);

    let mut caches_b = StateCaches::new();
    let mut pos_b = 0usize;
    let value_b = evaluate(&b, &mut caches_b, &mut pos_b);

    assert_eq!(value_a, value_b);
}

#[test]
fn repeated_evaluation_is_stable_and_cheaper_when_warmed() {
    let s = State::encode(midgame_rows());
    // two fresh runs agree
    let mut caches1 = StateCaches::new();
    let mut pos1 = 0usize;
    let v1 = evaluate(&s, &mut caches1, &mut pos1);
    let mut caches2 = StateCaches::new();
    let mut pos2 = 0usize;
    let v2 = evaluate(&s, &mut caches2, &mut pos2);
    assert_eq!(v1, v2);
    assert_eq!(pos1, pos2);
    // a warmed run agrees and visits strictly fewer nodes
    let mut pos3 = 0usize;
    let v3 = evaluate(&s, &mut caches2, &mut pos3);
    assert_eq!(v1, v3);
    assert!(pos3 < pos2);
}

#[test]
fn search_leaves_consistent_bounds_at_the_root() {
    let s = State::encode(midgame_rows());
    let mut caches = StateCaches::new();
    let mut pos = 0usize;
    let value = evaluate(&s, &mut caches, &mut pos);
    let state = s.to_bitboard();
    let index = (state as usize) % CACHE_SIZE;
    let lower = caches.get_lower_bound(state, s.moves_made, index);
    let upper = caches.get_upper_bound(state, s.moves_made, index);
    assert!(lower <= value);
    assert!(value <= upper);
}

#[test]
fn optimal_moves_returns_only_playable_columns() {
    let s = State::encode(midgame_rows());
    let mut caches = StateCaches::new();
    let mut pos = 0usize;
    let (value, moves) = optimal_moves(&s, &mut caches, &mut pos).unwrap();
    assert!(!moves.is_empty());
    for &col in &moves {
        assert!(col < 7);
        // columns 5 and 6 hold five pieces, the rest six; none is full
        assert!(s.play_move(col).moves_made == s.moves_made + 1);
    }
    assert!((-25..=25).contains(&value));
}

#[test]
fn database_enumeration_collects_positions() {
    let s = State::encode(midgame_rows());
    let mut caches = StateCaches::new();
    let mut seen = HashSet::new();
    let mut queue: Vec<State> = Vec::new();
    generate_optimal_reachable_states(s, &mut caches, 1, &mut seen, &mut queue).unwrap();
    assert!(!queue.is_empty());
    for q in &queue {
        assert_eq!(q.moves_made, 42);
    }
}
