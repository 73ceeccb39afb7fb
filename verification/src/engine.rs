//! Search core: win detection, the negamax recursion with alpha-beta
//! pruning and principal-variation probes, and the root driver that
//! collects the set of optimal moves.

use vstd::prelude::*;
use core::sync::atomic::{AtomicBool, Ordering};
use crate::caches::{StateCaches, BEGINNING_GAME_CACHE_DEPTH, CACHE_SIZE};
use crate::state::{
    lemma_play_move, lemma_total_height_le_49, open_row, spec_open_row, spec_state_bitboard,
    state_bitboard, State, BOARD_MASK, IS_LEGAL,
};
use crate::threats::{count_threats, get_field, sort_by_threats};
use crate::error::Connect4Error;

verus! {

pub const MAX_TOTAL_MOVES: i8 = 49;

pub const MAX_PLAYER_MOVES: i8 = 25;

pub const MAX_EVAL: i8 = 22;

pub const MIN_EVAL: i8 = -MAX_EVAL;

pub const DRAW: i8 = 0;

/// Center-out column order: 3, 2, 4, 5, 1, 6, 0 packed in 4-bit fields.
pub const DEFAULT_MOVE_ORDER: u32 = (3 << 0) | (2 << 4) | (4 << 8) | (5 << 12) | (1 << 16) | (6
    << 20) | (0 << 24);

/// Four in a row along shift direction `d` (1 vertical, 7 and 9 diagonal,
/// 8 horizontal in this column-slot layout).
pub open spec fn spec_dir_win(p: u64, d: u64) -> bool {
    p & (p >> d) & (p >> ((2 * d) as u64)) & (p >> ((3 * d) as u64)) != 0
}

/// The pieces contain four in a row in one of the four directions.
pub open spec fn spec_is_win(p: u64) -> bool {
    spec_dir_win(p, 1) || spec_dir_win(p, 7) || spec_dir_win(p, 8) || spec_dir_win(p, 9)
}

pub fn max_i8(a: i8, b: i8) -> (r: i8)
    ensures
        r == if a >= b {
            a
        } else {
            b
        },
{
    if a >= b {
        a
    } else {
        b
    }
}

pub fn min_i8(a: i8, b: i8) -> (r: i8)
    ensures
        r == if a <= b {
            a
        } else {
            b
        },
{
    if a <= b {
        a
    } else {
        b
    }
}

fn dir_win(pieces: u64, d: u64) -> (r: bool)
    requires
        1 <= d <= 9,
    ensures
        r == spec_dir_win(pieces, d),
{
    let c1 = pieces & (pieces >> d);
    let c2 = c1 & (c1 >> d);
    let c3 = c2 & (c2 >> d);
    proof {
        assert(c3 == pieces & (pieces >> d) & (pieces >> vstd::prelude::mul(2, d)) & (pieces
            >> vstd::prelude::mul(3, d))) by (bit_vector)
            requires
                1 <= d <= 9,
                c1 == pieces & (pieces >> d),
                c2 == c1 & (c1 >> d),
                c3 == c2 & (c2 >> d),
        ;
        assert((2 * d) as u64 == vstd::prelude::mul(2, d) && (3 * d) as u64 == vstd::prelude::mul(
            3,
            d,
        ));
    }
    c3 != 0
}

pub fn is_win(pieces: u64) -> (r: bool)
    ensures
        r == spec_is_win(pieces),
{
    dir_win(pieces, 1) || dir_win(pieces, 7) || dir_win(pieces, 8) || dir_win(pieces, 9)
}

proof fn lemma_dir_win_monotone(p: u64, q: u64, d: u64)
    requires
        1 <= d <= 9,
        spec_dir_win(p, d),
    ensures
        spec_dir_win(p | q, d),
{
    assert((2 * d) as u64 == vstd::prelude::mul(2, d) && (3 * d) as u64 == vstd::prelude::mul(3, d));
    assert((p | q) & ((p | q) >> d) & ((p | q) >> vstd::prelude::mul(2, d)) & ((p | q)
        >> vstd::prelude::mul(3, d)) != 0) by (bit_vector)
        requires
            p & (p >> d) & (p >> vstd::prelude::mul(2, d)) & (p >> vstd::prelude::mul(3, d)) != 0,
            d <= 9,
    ;
}

/// A four-in-a-row survives adding more pieces: winning is monotone under
/// taking a superset of the bits.
pub proof fn lemma_is_win_monotone(p: u64, extra: u64)
    requires
        spec_is_win(p),
    ensures
        spec_is_win(p | extra),
{
    if spec_dir_win(p, 1) {
        lemma_dir_win_monotone(p, extra, 1);
    } else if spec_dir_win(p, 7) {
        lemma_dir_win_monotone(p, extra, 7);
    } else if spec_dir_win(p, 8) {
        lemma_dir_win_monotone(p, extra, 8);
    } else {
        lemma_dir_win_monotone(p, extra, 9);
    }
}

/// Best score still reachable by the side to move after `moves_made` plies:
/// a win on the last piece scores 25 minus the mover's own plies so far.
pub open spec fn spec_max_eval(moves_made: i8) -> int {
    25 - moves_made / 2
}

/// Worst score the side to move can be forced into after `moves_made`
/// plies: the opponent's best remaining mate score, negated.
pub open spec fn spec_min_eval(moves_made: i8) -> int {
    -(25 - (moves_made + 1) / 2)
}

/// The legal moves drawn from fields `i` and up of the packed move order:
/// pairs of the column and its open-cell bit.
pub open spec fn spec_legal_moves_from(move_order: u32, height_map: u64, i: int) -> Seq<(u32, u64)>
    decreases 7 - i,
{
    if i < 0 || i >= 7 {
        Seq::empty()
    } else {
        let col = get_field(move_order, i);
        let mv = spec_open_row(height_map, col);
        (if mv & IS_LEGAL != 0 {
            seq![(col, mv)]
        } else {
            Seq::empty()
        }) + spec_legal_moves_from(move_order, height_map, i + 1)
    }
}

pub open spec fn spec_legal_moves(move_order: u32, height_map: u64) -> Seq<(u32, u64)> {
    spec_legal_moves_from(move_order, height_map, 0)
}

proof fn lemma_legal_moves_len(move_order: u32, height_map: u64, i: int)
    ensures
        spec_legal_moves_from(move_order, height_map, i).len() <= 7 - i || i > 7,
    decreases 7 - i,
{
    if 0 <= i < 7 {
        lemma_legal_moves_len(move_order, height_map, i + 1);
    }
}

pub(crate) fn next_legal_moves(move_order: u32, height_map: u64) -> (r: Vec<(u32, u64)>)
    requires
        forall|i: int| 0 <= i < 7 ==> #[trigger] get_field(move_order, i) < 7,
    ensures
        r@ == spec_legal_moves(move_order, height_map),
        r@.len() <= 7,
        forall|k: int|
            0 <= k < r@.len() ==> (#[trigger] r@[k]).0 < 7 && r@[k].1 == spec_open_row(
                height_map,
                r@[k].0,
            ) && r@[k].1 & IS_LEGAL != 0,
{
    let mut moves: Vec<(u32, u64)> = Vec::new();
    let mut i: u32 = 0;
    while i < 7
        invariant
            i <= 7,
            moves@.len() <= i,
            forall|q: int| 0 <= q < 7 ==> #[trigger] get_field(move_order, q) < 7,
            moves@ + spec_legal_moves_from(move_order, height_map, i as int) == spec_legal_moves(
                move_order,
                height_map,
            ),
            forall|k: int|
                0 <= k < moves@.len() ==> (#[trigger] moves@[k]).0 < 7 && moves@[k].1
                    == spec_open_row(height_map, moves@[k].0) && moves@[k].1 & IS_LEGAL != 0,
        decreases 7 - i,
    {
        let col = crate::threats::field(move_order, i);
        let next_move = open_row(height_map, col);
        let ghost before = moves@;
        if next_move & IS_LEGAL != 0 {
            moves.push((col, next_move));
        }
        proof {
            let tail = spec_legal_moves_from(move_order, height_map, i as int);
            let tail2 = spec_legal_moves_from(move_order, height_map, i as int + 1);
            if next_move & IS_LEGAL != 0 {
                assert(tail == seq![(col, next_move)] + tail2);
                assert(moves@ == before + seq![(col, next_move)]);
                assert(moves@ + tail2 =~= (before + seq![(col, next_move)]) + tail2);
                assert(before + tail =~= (before + seq![(col, next_move)]) + tail2);
            } else {
                assert(tail =~= Seq::empty() + tail2);
                assert(tail =~= tail2);
            }
        }
        i += 1;
    }
    proof {
        assert(spec_legal_moves_from(move_order, height_map, 7) =~= Seq::empty());
        assert(moves@ + Seq::empty() =~= moves@);
        lemma_legal_moves_len(move_order, height_map, 0);
    }
    moves
}

/// Fields of the center-out default order all name board columns.
pub proof fn lemma_default_order_fields()
    ensures
        forall|i: int| 0 <= i < 7 ==> #[trigger] get_field(DEFAULT_MOVE_ORDER, i) < 7,
        get_field(DEFAULT_MOVE_ORDER, 0) == 3,
        get_field(DEFAULT_MOVE_ORDER, 1) == 2,
        get_field(DEFAULT_MOVE_ORDER, 2) == 4,
        get_field(DEFAULT_MOVE_ORDER, 3) == 5,
        get_field(DEFAULT_MOVE_ORDER, 4) == 1,
        get_field(DEFAULT_MOVE_ORDER, 5) == 6,
        get_field(DEFAULT_MOVE_ORDER, 6) == 0,
{
    let w = DEFAULT_MOVE_ORDER;
    assert(w & 0xF == 3 && (w >> 4u32) & 0xF == 2 && (w >> 8u32) & 0xF == 4 && (w >> 12u32) & 0xF
        == 5 && (w >> 16u32) & 0xF == 1 && (w >> 20u32) & 0xF == 6 && (w >> 24u32) & 0xF == 0 && (w
        >> 28u32) & 0xF == 0 && w >> 0u32 == w) by (bit_vector)
        requires
            w == (3u32 << 0u32) | (2u32 << 4u32) | (4u32 << 8u32) | (5u32 << 12u32) | (1u32
                << 16u32) | (6u32 << 20u32) | (0u32 << 24u32),
    ;
    assert(get_field(w, 0) == 3 && get_field(w, 1) == 2 && get_field(w, 2) == 4 && get_field(w, 3)
        == 5 && get_field(w, 4) == 1 && get_field(w, 5) == 6 && get_field(w, 6) == 0);
}

/// A position's canonical fingerprint stays inside the board area.
proof fn lemma_state_in_board(st: State)
    requires
        st.wf(),
    ensures
        spec_state_bitboard(st.curr_pieces, st.height_map) & BOARD_MASK == spec_state_bitboard(
            st.curr_pieces,
            st.height_map,
        ),
{
    let curr = st.curr_pieces;
    let opp = st.opp_pieces;
    let h = st.height_map;
    let occ = curr | opp;
    let b = curr | h;
    assert(b & 0x00FF_FFFF_FFFF_FFFF == b) by (bit_vector)
        requires
            occ == curr | opp,
            occ & 0x00FF_FFFF_FFFF_FFFF == occ,
            h & 0x00FF_FFFF_FFFF_FFFF == h,
            b == curr | h,
    ;
    crate::state::lemma_reflect_involution(b);
}

/// Negamax with alpha-beta pruning, mate-distance window tightening,
/// cache probes and principal-variation re-searches.
///
/// Returns no value exactly when the cooperative cancel flag was observed
/// set at the entry of some node; otherwise the returned score lies in the
/// mate-distance range.  A finished board is a draw and costs exactly one
/// node.  The exact game-theoretic score of a position is not modelled
/// here: the cache tiers shared between threads make the search value
/// depend on what other threads have published.
pub fn evaluate_position_rec(
    curr_pieces: u64,
    opp_pieces: u64,
    height_map: u64,
    moves_made: i8,
    alpha: i8,
    beta: i8,
    caches: &mut StateCaches,
    terminate: &AtomicBool,
    pos: &mut usize,
) -> (r: Option<i8>)
    requires
        (State { curr_pieces, opp_pieces, height_map, moves_made }).wf(),
        old(caches).wf(),
        -26 <= alpha <= 25,
        -26 <= beta <= 26,
    ensures
        final(caches).wf(),
        final(caches).beg_game_lower_bound_cache == old(caches).beg_game_lower_bound_cache,
        final(caches).beg_game_upper_bound_cache == old(caches).beg_game_upper_bound_cache,
        *final(pos) >= *old(pos),
        r matches Some(v) ==> -25 <= v <= 25,
        moves_made == MAX_TOTAL_MOVES && r is Some ==> r == Some(DRAW) && (*old(pos)
            < usize::MAX ==> *final(pos) == *old(pos) + 1),
        moves_made == MAX_TOTAL_MOVES && r is None ==> *final(pos) == *old(pos),
        moves_made == MAX_TOTAL_MOVES ==> *final(caches) == *old(caches),
        spec_fresh_late_search(*old(caches), alpha, beta, moves_made) && spec_has_winning_move(
            State { curr_pieces, opp_pieces, height_map, moves_made },
        ) ==> *final(caches) == *old(caches) && *final(pos) <= *old(pos) + 1 && (r is None || r
            == Some(
            crate::value::spec_game_value(
                State { curr_pieces, opp_pieces, height_map, moves_made },
            ) as i8,
        )),
        spec_fresh_late_search(*old(caches), alpha, beta, moves_made) && !spec_has_winning_move(
            State { curr_pieces, opp_pieces, height_map, moves_made },
        ) && crate::value::spec_double_threat(
            State { curr_pieces, opp_pieces, height_map, moves_made },
        ) ==> *final(caches) == *old(caches) && *final(pos) <= *old(pos) + 1 && (r is None || r
            == Some(
            crate::value::spec_game_value(
                State { curr_pieces, opp_pieces, height_map, moves_made },
            ) as i8,
        )),
    decreases 49 - moves_made,
{
    let ghost st = State { curr_pieces, opp_pieces, height_map, moves_made };
    let ghost fresh = spec_fresh_late_search(*old(caches), alpha, beta, moves_made);
    proof {
        lemma_total_height_le_49(height_map);
        assert(0 <= moves_made <= 49);
        lemma_state_in_board(st);
    }
    if terminate.load(Ordering::Relaxed) {
        return None;
    }
    let next_pos = (*pos).saturating_add(1);
    *pos = next_pos;

    if moves_made == MAX_TOTAL_MOVES {
        return Some(DRAW);
    }
    let mut cur_alpha = max_i8(alpha, -(MAX_PLAYER_MOVES - ((moves_made + 1) / 2)));
    let mut cur_beta = min_i8(beta, MAX_PLAYER_MOVES - (moves_made / 2));

    let state = state_bitboard(curr_pieces, height_map);
    let cache_index = (#[verifier::truncate] (state as usize)) % CACHE_SIZE;

    cur_alpha = max_i8(cur_alpha, caches.get_lower_bound(state, moves_made, cache_index));
    proof {
        if fresh {
            crate::bits::lemma_zero_word();
            crate::state::lemma_fingerprint_nonzero(st);
            assert(caches.end_game_lower_bound_cache@[cache_index as int] == 0);
            assert(cur_alpha as int == spec_min_eval(moves_made));
            assert(cur_beta as int == spec_max_eval(moves_made));
            assert(cur_alpha < cur_beta);
        }
    }
    if cur_alpha >= cur_beta {
        return Some(cur_alpha);
    }
    cur_beta = min_i8(cur_beta, caches.get_upper_bound(state, moves_made, cache_index));
    proof {
        if fresh {
            assert(caches.end_game_upper_bound_cache@[cache_index as int] == 0);
            assert(cur_beta as int == spec_max_eval(moves_made));
            assert(cur_alpha < cur_beta);
        }
    }
    if cur_alpha >= cur_beta {
        return Some(cur_alpha);
    }
    let mut threats: u32 = 0;
    let mut forced_move_count: u32 = 0;
    let mut forced_move: u64 = 0;
    let ghost mut forced_col: u32 = 0;

    proof {
        lemma_default_order_fields();
    }
    let legal_moves = next_legal_moves(DEFAULT_MOVE_ORDER, height_map);
    let mut k: usize = 0;
    while k < legal_moves.len()
        invariant
            st.wf(),
            st == (State { curr_pieces, opp_pieces, height_map, moves_made }),
            0 <= moves_made <= 48,
            caches.wf(),
            caches.beg_game_lower_bound_cache == old(caches).beg_game_lower_bound_cache,
            caches.beg_game_upper_bound_cache == old(caches).beg_game_upper_bound_cache,
            -25 <= cur_alpha <= 25,
            -26 <= cur_beta <= 25,
            cur_alpha < cur_beta,
            k <= legal_moves@.len(),
            legal_moves@.len() <= 7,
            forall|q: int|
                0 <= q < legal_moves@.len() ==> (#[trigger] legal_moves@[q]).0 < 7
                    && legal_moves@[q].1 == spec_open_row(height_map, legal_moves@[q].0)
                    && legal_moves@[q].1 & IS_LEGAL != 0,
            forced_move_count <= k,
            forced_move_count > 0 ==> forced_col < 7 && forced_move == spec_open_row(
                height_map,
                forced_col,
            ) && forced_move & IS_LEGAL != 0,
            *caches == *old(caches),
            fresh == spec_fresh_late_search(*old(caches), alpha, beta, moves_made),
            fresh ==> cur_alpha as int == spec_min_eval(moves_made) && cur_beta as int
                == spec_max_eval(moves_made),
            fresh ==> forall|q: int|
                0 <= q < k ==> !spec_is_win(curr_pieces | (#[trigger] legal_moves@[q]).1),
            (exists|q: int|
                0 <= q < k && spec_is_win(
                    opp_pieces | (#[trigger] legal_moves@[q]).1,
                )) ==> forced_move_count >= 1,
            forall|q1: int, q2: int|
                0 <= q1 < q2 < k && spec_is_win(opp_pieces | (#[trigger] legal_moves@[q1]).1)
                    && spec_is_win(
                    opp_pieces | (#[trigger] legal_moves@[q2]).1,
                ) ==> forced_move_count >= 2,
            *pos >= *old(pos),
            *pos <= *old(pos) + 1,
        decreases legal_moves@.len() - k,
    {
        let col = legal_moves[k].0;
        let next_move = legal_moves[k].1;
        proof {
            lemma_play_move(st, col);
        }
        let updated_pieces = curr_pieces | next_move;
        if is_win(updated_pieces) {
            proof {
                if fresh {
                    assert(st.col_playable(col));
                    assert(spec_has_winning_move(st));
                    crate::value::lemma_game_value_win(st);
                }
            }
            return Some(MAX_PLAYER_MOVES - (moves_made / 2));
        }
        if is_win(opp_pieces | next_move) {
            forced_move_count = forced_move_count + 1;
            forced_move = next_move;
            proof {
                forced_col = col;
            }
        }
        let updated_height_map = height_map + next_move;
        let next_state = state_bitboard(opp_pieces, updated_height_map);
        let upper = caches.get_upper_bound(
            next_state,
            moves_made + 1,
            (#[verifier::truncate] (next_state as usize)) % CACHE_SIZE,
        );
        proof {
            if fresh {
                crate::bits::lemma_zero_word();
                crate::state::lemma_fingerprint_nonzero(st.spec_play(col));
                assert(next_state == st.spec_play(col).spec_to_bitboard());
                assert(upper == MAX_EVAL);
            }
        }
        cur_alpha = max_i8(cur_alpha, -upper);
        if cur_alpha >= cur_beta {
            return Some(cur_alpha);
        }
        let move_threats = count_threats(updated_pieces, updated_height_map);
        threats = threats | (move_threats << (4 * col));
        k += 1;
    }
    proof {
        if fresh {
            assert(!spec_has_winning_move(st)) by {
                if spec_has_winning_move(st) {
                    let cw = choose|c: u32|
                        c < 7 && st.col_playable(c) && spec_is_win(
                            st.curr_pieces | spec_open_row(st.height_map, c),
                        );
                    let i0 = lemma_default_field_for(cw);
                    lemma_legal_moves_complete(DEFAULT_MOVE_ORDER, height_map, 0, i0);
                    let q = choose|q: int|
                        0 <= q < legal_moves@.len() && legal_moves@[q] == (
                            cw,
                            spec_open_row(height_map, cw),
                        );
                    assert(!spec_is_win(curr_pieces | legal_moves@[q].1));
                }
            }
            if crate::value::spec_double_threat(st) {
                let (c1, c2) = choose|c1: u32, c2: u32|
                    #![trigger spec_open_row(st.height_map, c1), spec_open_row(st.height_map, c2)]
                    c1 != c2 && c1 < 7 && c2 < 7 && st.col_playable(c1) && st.col_playable(c2)
                        && spec_is_win(st.opp_pieces | spec_open_row(st.height_map, c1))
                        && spec_is_win(st.opp_pieces | spec_open_row(st.height_map, c2));
                let i1 = lemma_default_field_for(c1);
                lemma_legal_moves_complete(DEFAULT_MOVE_ORDER, height_map, 0, i1);
                let q1 = choose|q: int|
                    0 <= q < legal_moves@.len() && legal_moves@[q] == (
                        c1,
                        spec_open_row(height_map, c1),
                    );
                let i2 = lemma_default_field_for(c2);
                lemma_legal_moves_complete(DEFAULT_MOVE_ORDER, height_map, 0, i2);
                let q2 = choose|q: int|
                    0 <= q < legal_moves@.len() && legal_moves@[q] == (
                        c2,
                        spec_open_row(height_map, c2),
                    );
                assert(q1 != q2);
                if q1 < q2 {
                    assert(spec_is_win(opp_pieces | legal_moves@[q1].1) && spec_is_win(
                        opp_pieces | legal_moves@[q2].1,
                    ));
                } else {
                    assert(spec_is_win(opp_pieces | legal_moves@[q2].1) && spec_is_win(
                        opp_pieces | legal_moves@[q1].1,
                    ));
                }
                assert(forced_move_count >= 2);
                crate::value::lemma_game_value_double_threat(st);
            }
        }
    }
    if forced_move_count > 1 {
        return Some(-(MAX_PLAYER_MOVES - ((moves_made + 1) / 2)));
    }
    if forced_move_count == 1 {
        proof {
            lemma_play_move(st, forced_col);
        }
        let forced_eval = evaluate_position_rec(
            opp_pieces,
            curr_pieces | forced_move,
            height_map + forced_move,
            moves_made + 1,
            -cur_beta,
            -cur_alpha,
            caches,
            terminate,
            pos,
        );
        return match forced_eval {
            Some(v) => Some(-v),
            None => None,
        };
    }
    let heuristic_move_order = sort_by_threats(threats);
    let ordered_moves = next_legal_moves(heuristic_move_order, height_map);
    let mut moves_searched: u32 = 0;
    let mut m: usize = 0;
    while m < ordered_moves.len()
        invariant
            st.wf(),
            st == (State { curr_pieces, opp_pieces, height_map, moves_made }),
            0 <= moves_made <= 48,
            caches.wf(),
            caches.beg_game_lower_bound_cache == old(caches).beg_game_lower_bound_cache,
            caches.beg_game_upper_bound_cache == old(caches).beg_game_upper_bound_cache,
            -25 <= cur_alpha <= 25,
            -26 <= cur_beta <= 25,
            cur_alpha < cur_beta,
            state == spec_state_bitboard(curr_pieces, height_map),
            state & BOARD_MASK == state,
            cache_index < CACHE_SIZE,
            fresh == spec_fresh_late_search(*old(caches), alpha, beta, moves_made),
            fresh ==> !spec_has_winning_move(st) && !crate::value::spec_double_threat(st),
            m <= ordered_moves@.len(),
            moves_searched <= m,
            ordered_moves@.len() <= 7,
            forall|q: int|
                0 <= q < ordered_moves@.len() ==> (#[trigger] ordered_moves@[q]).0 < 7
                    && ordered_moves@[q].1 == spec_open_row(height_map, ordered_moves@[q].0)
                    && ordered_moves@[q].1 & IS_LEGAL != 0,
            *pos >= *old(pos),
        decreases ordered_moves@.len() - m,
    {
        let col = ordered_moves[m].0;
        let next_move = ordered_moves[m].1;
        proof {
            lemma_play_move(st, col);
        }
        let updated_pieces = curr_pieces | next_move;
        let updated_height_map = height_map + next_move;

        let child_eval: i8;
        if moves_searched == 0 {
            let full = evaluate_position_rec(
                opp_pieces,
                updated_pieces,
                updated_height_map,
                moves_made + 1,
                -cur_beta,
                -cur_alpha,
                caches,
                terminate,
                pos,
            );
            match full {
                Some(v) => {
                    child_eval = -v;
                },
                None => {
                    return None;
                },
            }
        } else {
            let probe = evaluate_position_rec(
                opp_pieces,
                updated_pieces,
                updated_height_map,
                moves_made + 1,
                -cur_alpha - 1,
                -cur_alpha,
                caches,
                terminate,
                pos,
            );
            let null_window_eval: i8;
            match probe {
                Some(v) => {
                    null_window_eval = -v;
                },
                None => {
                    return None;
                },
            }
            if null_window_eval > cur_alpha && null_window_eval < cur_beta {
                let again = evaluate_position_rec(
                    opp_pieces,
                    updated_pieces,
                    updated_height_map,
                    moves_made + 1,
                    -cur_beta,
                    -cur_alpha,
                    caches,
                    terminate,
                    pos,
                );
                match again {
                    Some(v) => {
                        child_eval = -v;
                    },
                    None => {
                        return None;
                    },
                }
            } else {
                child_eval = null_window_eval;
            }
        }
        cur_alpha = max_i8(cur_alpha, child_eval);
        if cur_alpha >= cur_beta {
            caches.put_lower_bound(cur_alpha, state, moves_made, cache_index);
            return Some(cur_alpha);
        }
        moves_searched = moves_searched + 1;
        m += 1;
    }
    caches.put_upper_bound(cur_alpha, state, moves_made, cache_index);
    Some(cur_alpha)
}

/// The field of the default order that names column `c`.
pub(crate) proof fn lemma_default_field_for(c: u32) -> (i: int)
    requires
        c < 7,
    ensures
        0 <= i < 7,
        get_field(DEFAULT_MOVE_ORDER, i) == c,
{
    lemma_default_order_fields();
    if c == 3 {
        0
    } else if c == 2 {
        1
    } else if c == 4 {
        2
    } else if c == 5 {
        3
    } else if c == 1 {
        4
    } else if c == 6 {
        5
    } else {
        6
    }
}

/// The winning columns among a listing of legal moves, in listing order.
pub open spec fn spec_winning_cols_from(s: State, moves: Seq<(u32, u64)>, q: int) -> Seq<u32>
    decreases moves.len() - q,
{
    if q < 0 || q >= moves.len() {
        Seq::empty()
    } else {
        (if spec_is_win(s.curr_pieces | moves[q].1) {
            seq![moves[q].0]
        } else {
            Seq::empty()
        }) + spec_winning_cols_from(s, moves, q + 1)
    }
}

/// The columns whose move completes four in a row, in the default
/// center-out enumeration order.
pub open spec fn spec_winning_cols(s: State) -> Seq<u32> {
    spec_winning_cols_from(s, spec_legal_moves(DEFAULT_MOVE_ORDER, s.height_map), 0)
}

/// A late-game search started fresh: the thread-local tables are still
/// empty — so every probe the node makes is exactly modelled — and the
/// caller asked for the full window.
pub open spec fn spec_fresh_late_search(caches: StateCaches, alpha: i8, beta: i8, moves_made: i8) -> bool {
    &&& caches.end_tables_zero()
    &&& alpha == MIN_EVAL
    &&& beta == MAX_EVAL
    &&& moves_made > BEGINNING_GAME_CACHE_DEPTH
    &&& moves_made < MAX_TOTAL_MOVES
}

/// Some column wins for the side to move at once.
pub open spec fn spec_has_winning_move(s: State) -> bool {
    exists|c: u32|
        c < 7 && s.col_playable(c) && spec_is_win(s.curr_pieces | spec_open_row(s.height_map, c))
}

/// Every legal field of the order contributes its move to the enumeration.
pub(crate) proof fn lemma_legal_moves_complete(move_order: u32, height_map: u64, i: int, j: int)
    requires
        0 <= i <= j < 7,
        spec_open_row(height_map, get_field(move_order, j)) & IS_LEGAL != 0,
    ensures
        spec_legal_moves_from(move_order, height_map, i).contains(
            (
                get_field(move_order, j),
                spec_open_row(height_map, get_field(move_order, j)),
            ),
        ),
    decreases j - i,
{
    let col = get_field(move_order, j);
    let mv = spec_open_row(height_map, col);
    let s = spec_legal_moves_from(move_order, height_map, i);
    if i == j {
        assert(s[0] == (col, mv));
        assert(s.contains((col, mv)));
    } else {
        lemma_legal_moves_complete(move_order, height_map, i + 1, j);
        let tail = spec_legal_moves_from(move_order, height_map, i + 1);
        let q = choose|q: int| 0 <= q < tail.len() && tail[q] == (col, mv);
        let head_len = s.len() - tail.len();
        assert(s[head_len + q] == (col, mv));
        assert(s.contains((col, mv)));
    }
}

/// Computes the exact value of the position and the set of columns that
/// achieve it.  When an immediate win exists the value is the mate score
/// and the returned columns are exactly the winning ones; otherwise every
/// returned column is playable and the value lies in the mate-distance
/// range.
pub fn optimal_moves(state: &State, caches: &mut StateCaches, pos: &mut usize) -> (r: Result<
    (i8, Vec<u32>),
    Connect4Error,
>)
    requires
        state.wf(),
        old(caches).wf(),
    ensures
        final(caches).wf(),
        final(caches).beg_game_lower_bound_cache == old(caches).beg_game_lower_bound_cache,
        final(caches).beg_game_upper_bound_cache == old(caches).beg_game_upper_bound_cache,
        *final(pos) >= *old(pos),
        r matches Err(e) ==> e is EvaluatePositionError,
        spec_has_winning_move(*state) ==> (r matches Ok(t) && t.0 == spec_max_eval(
            state.moves_made,
        ) && t.1@ == spec_winning_cols(*state) && *final(pos) == *old(pos) && *final(caches)
            == *old(caches)),
        r matches Ok(t) ==> {
            &&& -25 <= t.0 <= 25
            &&& forall|q: int| 0 <= q < t.1@.len() ==> state.col_playable(#[trigger] t.1@[q])
            &&& spec_has_winning_move(*state) ==> t.0 == spec_max_eval(state.moves_made) && (forall|
                c: u32,
            |
                c < 7 ==> ((state.col_playable(c) && spec_is_win(
                    state.curr_pieces | spec_open_row(state.height_map, c),
                )) <==> t.1@.contains(c)))
            &&& (forall|c: u32| c < 7 ==> !(#[trigger] state.col_playable(c))) ==> t.0 == MIN_EVAL
                && t.1@.len() == 0
        },
{
    let ghost st = *state;
    proof {
        lemma_total_height_le_49(state.height_map);
        lemma_default_order_fields();
    }
    let mut best_moves: Vec<u32> = Vec::new();
    let mut threats: u32 = 0;

    let legal_moves = next_legal_moves(DEFAULT_MOVE_ORDER, state.height_map);
    let mut k: usize = 0;
    while k < legal_moves.len()
        invariant
            st.wf(),
            st == *state,
            k <= legal_moves@.len(),
            legal_moves@.len() <= 7,
            legal_moves@ == spec_legal_moves(DEFAULT_MOVE_ORDER, st.height_map),
            forall|q: int|
                0 <= q < legal_moves@.len() ==> (#[trigger] legal_moves@[q]).0 < 7
                    && legal_moves@[q].1 == spec_open_row(st.height_map, legal_moves@[q].0)
                    && legal_moves@[q].1 & IS_LEGAL != 0,
            forall|q: int|
                0 <= q < best_moves@.len() ==> st.col_playable(#[trigger] best_moves@[q])
                    && spec_is_win(st.curr_pieces | spec_open_row(st.height_map, best_moves@[q])),
            forall|q: int|
                0 <= q < k && spec_is_win(
                    st.curr_pieces | (#[trigger] legal_moves@[q]).1,
                ) ==> best_moves@.contains(legal_moves@[q].0),
            best_moves@ + spec_winning_cols_from(st, legal_moves@, k as int) == spec_winning_cols(
                st,
            ),
            caches.wf(),
            *caches == *old(caches),
            *pos == *old(pos),
        decreases legal_moves@.len() - k,
    {
        let col = legal_moves[k].0;
        let next_move = legal_moves[k].1;
        proof {
            lemma_play_move(st, col);
        }
        let updated_pieces = state.curr_pieces | next_move;
        let ghost prev = best_moves@;
        let winning = is_win(updated_pieces);
        if winning {
            best_moves.push(col);
        }
        proof {
            let tail = spec_winning_cols_from(st, legal_moves@, k as int);
            let tail2 = spec_winning_cols_from(st, legal_moves@, k as int + 1);
            if winning {
                assert(tail == seq![col] + tail2);
                assert(best_moves@ + tail2 =~= (prev + seq![col]) + tail2);
                assert(prev + tail =~= (prev + seq![col]) + tail2);
            } else {
                assert(tail =~= Seq::empty() + tail2);
                assert(tail =~= tail2);
            }
            assert forall|q: int|
                0 <= q < k + 1 && spec_is_win(
                    st.curr_pieces | (#[trigger] legal_moves@[q]).1,
                ) implies best_moves@.contains(legal_moves@[q].0) by {
                if q < k {
                    let ii = choose|ii: int|
                        0 <= ii < prev.len() && prev[ii] == legal_moves@[q].0;
                    assert(best_moves@[ii] == legal_moves@[q].0);
                } else {
                    assert(winning);
                    assert(best_moves@[prev.len() as int] == col);
                }
            }
        }
        let updated_height_map = state.height_map + next_move;
        let move_threats = count_threats(updated_pieces, updated_height_map);
        threats = threats | (move_threats << (4 * col));
        k += 1;
    }
    proof {
        assert(spec_winning_cols_from(st, legal_moves@, legal_moves@.len() as int)
            =~= Seq::empty());
        assert(best_moves@ + Seq::empty() =~= best_moves@);
        assert(best_moves@ == spec_winning_cols(st));
    }
    if best_moves.len() > 0 {
        proof {
            assert forall|c: u32|
                c < 7 && st.col_playable(c) && spec_is_win(
                    st.curr_pieces | spec_open_row(st.height_map, c),
                ) implies best_moves@.contains(c) by {
                let i0 = lemma_default_field_for(c);
                lemma_legal_moves_complete(DEFAULT_MOVE_ORDER, st.height_map, 0, i0);
                let q = choose|q: int|
                    0 <= q < legal_moves@.len() && legal_moves@[q] == (
                        c,
                        spec_open_row(st.height_map, c),
                    );
                assert(spec_is_win(st.curr_pieces | legal_moves@[q].1));
            }
            assert(spec_has_winning_move(st)) by {
                let c0 = best_moves@[0];
                assert(st.col_playable(c0) && spec_is_win(
                    st.curr_pieces | spec_open_row(st.height_map, c0),
                ));
            }
        }
        return Ok((MAX_PLAYER_MOVES - (state.moves_made / 2), best_moves));
    }
    proof {
        assert(!spec_has_winning_move(st)) by {
            if spec_has_winning_move(st) {
                let c = choose|c: u32|
                    c < 7 && st.col_playable(c) && spec_is_win(
                        st.curr_pieces | spec_open_row(st.height_map, c),
                    );
                let i0 = lemma_default_field_for(c);
                lemma_legal_moves_complete(DEFAULT_MOVE_ORDER, st.height_map, 0, i0);
                let q = choose|q: int|
                    0 <= q < legal_moves@.len() && legal_moves@[q] == (
                        c,
                        spec_open_row(st.height_map, c),
                    );
                assert(spec_is_win(st.curr_pieces | legal_moves@[q].1));
                assert(best_moves@.contains(c));
            }
        }
    }
    let heuristic_move_order = sort_by_threats(threats);
    let ordered_moves = next_legal_moves(heuristic_move_order, state.height_map);
    let mut state_max_eval: i8 = MIN_EVAL;
    let unused = AtomicBool::new(false);
    let mut m: usize = 0;
    while m < ordered_moves.len()
        invariant
            st.wf(),
            st == *state,
            !spec_has_winning_move(st),
            caches.wf(),
            caches.beg_game_lower_bound_cache == old(caches).beg_game_lower_bound_cache,
            caches.beg_game_upper_bound_cache == old(caches).beg_game_upper_bound_cache,
            -25 <= state_max_eval <= 25,
            m <= ordered_moves@.len(),
            ordered_moves@.len() <= 7,
            forall|q: int|
                0 <= q < ordered_moves@.len() ==> (#[trigger] ordered_moves@[q]).0 < 7
                    && ordered_moves@[q].1 == spec_open_row(st.height_map, ordered_moves@[q].0)
                    && ordered_moves@[q].1 & IS_LEGAL != 0,
            forall|q: int|
                0 <= q < best_moves@.len() ==> st.col_playable(#[trigger] best_moves@[q]),
            ordered_moves@.len() == 0 ==> state_max_eval == MIN_EVAL && best_moves@.len() == 0,
            *pos >= *old(pos),
        decreases ordered_moves@.len() - m,
    {
        let col = ordered_moves[m].0;
        let next_move = ordered_moves[m].1;
        proof {
            lemma_play_move(st, col);
        }
        let probe = evaluate_position_rec(
            state.opp_pieces,
            state.curr_pieces | next_move,
            state.height_map + next_move,
            state.moves_made + 1,
            -state_max_eval - 1,
            -state_max_eval + 1,
            caches,
            &unused,
            pos,
        );
        let mut eval: i8;
        match probe {
            Some(v) => {
                eval = -v;
            },
            None => {
                return Err(Connect4Error::EvaluatePositionError);
            },
        }
        if eval > state_max_eval {
            let re_search = evaluate_position_rec(
                state.opp_pieces,
                state.curr_pieces | next_move,
                state.height_map + next_move,
                state.moves_made + 1,
                MIN_EVAL,
                -eval,
                caches,
                &unused,
                pos,
            );
            match re_search {
                Some(v) => {
                    eval = -v;
                },
                None => {
                    return Err(Connect4Error::EvaluatePositionError);
                },
            }
            best_moves = Vec::new();
            best_moves.push(col);
            state_max_eval = eval;
        } else if eval == state_max_eval {
            best_moves.push(col);
        }
        m += 1;
    }
    proof {
        if forall|c: u32| c < 7 ==> !(#[trigger] st.col_playable(c)) {
            if ordered_moves@.len() > 0 {
                assert(st.col_playable(ordered_moves@[0].0));
            }
        }
    }
    Ok((state_max_eval, best_moves))
}

} // verus!
