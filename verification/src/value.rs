//! The game-theoretic value of a position: the distance-scored score the
//! side to move can force, and the laws the search steps rest on — the
//! mate-distance bounds, the immediate-win score, the double-threat loss
//! and the forced-reply equation.

use vstd::prelude::*;
use crate::engine::{spec_has_winning_move, spec_is_win, spec_max_eval, spec_min_eval};
use crate::state::{lemma_play_move, spec_open_row, State};

verus! {

/// Exact value of the position for the side to move: zero on a full
/// board, otherwise the best over its moves.
pub open spec fn spec_game_value(s: State) -> int
    decreases 49 - s.moves_made, 10int,
{
    if s.moves_made >= 49 {
        0
    } else {
        spec_best_from(s, 0)
    }
}

/// Score of dropping a piece in column `c`: the mate score when it
/// completes four in a row, else the child's value negated.
pub open spec fn spec_move_value(s: State, c: u32) -> int
    decreases 49 - s.moves_made, 0int,
{
    if s.moves_made >= 49 {
        0
    } else if spec_is_win(s.curr_pieces | spec_open_row(s.height_map, c)) {
        25 - s.moves_made / 2
    } else {
        -spec_game_value(s.spec_play(c))
    }
}

/// Best move score over the columns `c` and to its right; -25 when none
/// of them is playable.
pub open spec fn spec_best_from(s: State, c: u32) -> int
    decreases 49 - s.moves_made, 8 - c,
{
    if s.moves_made >= 49 || c >= 7 {
        -25
    } else {
        let rest = spec_best_from(s, (c + 1) as u32);
        if s.col_playable(c) {
            let here = spec_move_value(s, c);
            if here >= rest {
                here
            } else {
                rest
            }
        } else {
            rest
        }
    }
}

/// Every playable column's score is dominated by the best.
pub proof fn lemma_best_from_ge(s: State, c0: u32, c: u32)
    requires
        s.moves_made < 49,
        c0 <= c < 7,
        s.col_playable(c),
    ensures
        spec_best_from(s, c0) >= spec_move_value(s, c),
    decreases 7 - c0,
{
    if c0 == c {
    } else {
        lemma_best_from_ge(s, (c0 + 1) as u32, c);
    }
}

/// The best is the floor or some playable column's score.
pub proof fn lemma_best_from_achieved(s: State, c0: u32)
    requires
        s.moves_made < 49,
        c0 < 7,
    ensures
        spec_best_from(s, c0) == -25 || exists|c: u32|
            c0 <= c < 7 && s.col_playable(c) && #[trigger] spec_move_value(s, c) == spec_best_from(
                s,
                c0,
            ),
    decreases 7 - c0,
{
    let rest_start = (c0 + 1) as u32;
    if c0 == 6 {
        assert(spec_best_from(s, rest_start) == -25);
    } else {
        lemma_best_from_achieved(s, rest_start);
    }
    let rest = spec_best_from(s, rest_start);
    if s.col_playable(c0) && spec_move_value(s, c0) >= rest {
        assert(spec_best_from(s, c0) == spec_move_value(s, c0));
        assert(c0 <= c0 < 7 && s.col_playable(c0) && spec_move_value(s, c0) == spec_best_from(
            s,
            c0,
        ));
    } else {
        assert(spec_best_from(s, c0) == rest);
        if rest != -25 {
            let cw = choose|c: u32|
                rest_start <= c < 7 && s.col_playable(c) && #[trigger] spec_move_value(s, c)
                    == spec_best_from(s, rest_start);
            assert(c0 <= cw < 7 && s.col_playable(cw) && spec_move_value(s, cw) == spec_best_from(
                s,
                c0,
            ));
        }
    }
}

/// A bound on every playable column's score bounds the best.
pub proof fn lemma_best_from_le(s: State, c0: u32, bound: int)
    requires
        s.moves_made < 49,
        c0 <= 7,
        bound >= -25,
        forall|c: u32|
            c0 <= c < 7 && s.col_playable(c) ==> #[trigger] spec_move_value(s, c) <= bound,
    ensures
        spec_best_from(s, c0) <= bound,
    decreases 7 - c0,
{
    if c0 < 7 {
        lemma_best_from_le(s, (c0 + 1) as u32, bound);
        if s.col_playable(c0) {
            assert(spec_move_value(s, c0) <= bound);
        }
    } else {
        assert(spec_best_from(s, c0) == -25);
    }
}

/// A board that is not full has a playable column.
pub proof fn lemma_playable_exists(s: State) -> (c: u32)
    requires
        s.wf(),
        s.moves_made < 49,
    ensures
        c < 7,
        s.col_playable(c),
{
    let h = s.height_map;
    crate::state::lemma_total_height_le_49(h);
    assert(crate::bits::slot_height(crate::state::col_slot(h, 0)) < 7 || crate::bits::slot_height(
        crate::state::col_slot(h, 1),
    ) < 7 || crate::bits::slot_height(crate::state::col_slot(h, 2)) < 7
        || crate::bits::slot_height(crate::state::col_slot(h, 3)) < 7 || crate::bits::slot_height(
        crate::state::col_slot(h, 4),
    ) < 7 || crate::bits::slot_height(crate::state::col_slot(h, 5)) < 7
        || crate::bits::slot_height(crate::state::col_slot(h, 6)) < 7) by {
        assert(s.moves_made == crate::state::total_height(h) && s.moves_made < 49);
    }
    let c = choose|c: u32|
        c < 7 && crate::bits::slot_height(crate::state::col_slot(h, c as int)) < 7;
    let slot = crate::state::col_slot(h, c as int);
    assert(crate::bits::is_one_hot8(slot));
    assert((slot - 1) as u64 == vstd::prelude::sub(slot, 1));
    lemma_slot_height_eq7(slot);
    let sh = (8 * c) as u64;
    assert(slot == (h >> sh) & 0xFF);
    assert((h & (0xFFu64 << sh)) & 0x007F_7F7F_7F7F_7F7F != 0) by (bit_vector)
        requires
            sh == 0 || sh == 8 || sh == 16 || sh == 24 || sh == 32 || sh == 40 || sh == 48,
            (h >> sh) & 0xFF != 0,
            (h >> sh) & 0xFF != 0x80,
            ((h >> sh) & 0xFF) & vstd::prelude::sub((h >> sh) & 0xFF, 1) == 0,
    ;
    c
}

/// The sentinel bit is the only one-hot slot of height seven.
proof fn lemma_slot_height_eq7(slot: u64)
    requires
        slot != 0,
        slot < 256,
        slot & ((slot - 1) as u64) == 0,
        crate::bits::slot_height(slot) < 7,
    ensures
        slot != 0x80,
{
    assert(crate::bits::slot_height(128) == 7) by {
        assert(crate::bits::slot_height(1) == 0);
        assert(crate::bits::slot_height(2) == 1);
        assert(crate::bits::slot_height(4) == 2);
        assert(crate::bits::slot_height(8) == 3);
        assert(crate::bits::slot_height(16) == 4);
        assert(crate::bits::slot_height(32) == 5);
        assert(crate::bits::slot_height(64) == 6);
        assert(crate::bits::slot_height(128) == 1 + crate::bits::slot_height(64));
    }
}

/// The value of a position always lies within the mate-distance window.
pub proof fn lemma_game_value_bounds(s: State)
    requires
        s.wf(),
    ensures
        spec_min_eval(s.moves_made) <= spec_game_value(s) <= spec_max_eval(s.moves_made),
    decreases 49 - s.moves_made,
{
    crate::state::lemma_total_height_le_49(s.height_map);
    if s.moves_made >= 49 {
        assert(s.moves_made == 49);
    } else {
        let m = s.moves_made as int;
        // lower bound: some playable column scores at least the window floor
        let c = lemma_playable_exists(s);
        lemma_play_move(s, c);
        if !spec_is_win(s.curr_pieces | spec_open_row(s.height_map, c)) {
            lemma_game_value_bounds(s.spec_play(c));
        }
        assert(spec_move_value(s, c) >= spec_min_eval(s.moves_made));
        lemma_best_from_ge(s, 0, c);
        // upper bound: every playable column's score fits under the ceiling
        assert forall|d: u32|
            0 <= d < 7 && s.col_playable(d) implies #[trigger] spec_move_value(s, d)
            <= spec_max_eval(s.moves_made) by {
            lemma_play_move(s, d);
            if !spec_is_win(s.curr_pieces | spec_open_row(s.height_map, d)) {
                lemma_game_value_bounds(s.spec_play(d));
            }
        }
        lemma_best_from_le(s, 0, spec_max_eval(s.moves_made));
    }
}

/// A position with an immediate completion is worth exactly the mate
/// score for the side to move.
pub proof fn lemma_game_value_win(s: State)
    requires
        s.wf(),
        s.moves_made < 49,
        spec_has_winning_move(s),
    ensures
        spec_game_value(s) == spec_max_eval(s.moves_made),
{
    let c = choose|c: u32|
        c < 7 && s.col_playable(c) && spec_is_win(
            s.curr_pieces | spec_open_row(s.height_map, c),
        );
    assert(spec_move_value(s, c) == spec_max_eval(s.moves_made));
    lemma_best_from_ge(s, 0, c);
    lemma_game_value_bounds(s);
}

/// Two one-move threats of the other side in two different columns.
pub open spec fn spec_double_threat(s: State) -> bool {
    exists|c1: u32, c2: u32|
        #![trigger spec_open_row(s.height_map, c1), spec_open_row(s.height_map, c2)]
        c1 != c2 && c1 < 7 && c2 < 7 && s.col_playable(c1) && s.col_playable(c2) && spec_is_win(
            s.opp_pieces | spec_open_row(s.height_map, c1),
        ) && spec_is_win(s.opp_pieces | spec_open_row(s.height_map, c2))
}

/// After any move of the side to move in some other column, a standing
/// threat column still wins at once for the opponent.
proof fn lemma_threat_survives(s: State, d: u32, t: u32)
    requires
        s.wf(),
        s.col_playable(d),
        s.col_playable(t),
        d != t,
        spec_is_win(s.opp_pieces | spec_open_row(s.height_map, t)),
    ensures
        spec_has_winning_move(s.spec_play(d)),
{
    lemma_play_move(s, d);
    let child = s.spec_play(d);
    let h = s.height_map;
    let mv = spec_open_row(h, d);
    let h2 = child.height_map;
    let sh = (8 * d) as u64;
    let st = (8 * t) as u64;
    assert(h2 & (0xFFu64 << st) == h & (0xFFu64 << st)) by {
        assert(crate::bits::is_one_hot8(crate::state::col_slot(h, d as int)));
        assert((crate::state::col_slot(h, d as int) - 1) as u64 == vstd::prelude::sub(
            crate::state::col_slot(h, d as int),
            1,
        ));
        crate::state::lemma_open_row_bits(h, mv, sh);
        assert(h2 == vstd::prelude::add(h, mv));
        crate::state::lemma_add_in_slot_pub(h, mv, h2, sh, st);
    }
    assert(spec_open_row(h2, t) == spec_open_row(h, t));
    assert(child.col_playable(t));
    assert(child.curr_pieces == s.opp_pieces);
    assert(spec_is_win(child.curr_pieces | spec_open_row(child.height_map, t)));
}

/// With two open threats against it and no win of its own, the side to
/// move loses at the opponent's next ply.
pub proof fn lemma_game_value_double_threat(s: State)
    requires
        s.wf(),
        s.moves_made < 49,
        !spec_has_winning_move(s),
        spec_double_threat(s),
    ensures
        spec_game_value(s) == spec_min_eval(s.moves_made),
{
    let (c1, c2) = choose|c1: u32, c2: u32|
        #![trigger spec_open_row(s.height_map, c1), spec_open_row(s.height_map, c2)]
        c1 != c2 && c1 < 7 && c2 < 7 && s.col_playable(c1) && s.col_playable(c2) && spec_is_win(
            s.opp_pieces | spec_open_row(s.height_map, c1),
        ) && spec_is_win(s.opp_pieces | spec_open_row(s.height_map, c2));
    assert forall|d: u32|
        0 <= d < 7 && s.col_playable(d) implies #[trigger] spec_move_value(s, d) == spec_min_eval(
        s.moves_made,
    ) by {
        assert(!spec_is_win(s.curr_pieces | spec_open_row(s.height_map, d)));
        let t = if d == c1 {
            c2
        } else {
            c1
        };
        lemma_threat_survives(s, d, t);
        lemma_play_move(s, d);
        let child = s.spec_play(d);
        let tc = lemma_playable_exists_for_win(child);
        lemma_game_value_win(child);
    }
    lemma_best_from_ge(s, 0, c1);
    lemma_best_from_le(s, 0, spec_min_eval(s.moves_made));
    lemma_game_value_bounds(s);
}

/// A position with a winning move is not full.
proof fn lemma_playable_exists_for_win(s: State) -> (c: u32)
    requires
        s.wf(),
        spec_has_winning_move(s),
    ensures
        s.moves_made < 49,
{
    let c = choose|c: u32|
        c < 7 && s.col_playable(c) && spec_is_win(
            s.curr_pieces | spec_open_row(s.height_map, c),
        );
    lemma_play_move(s, c);
    c
}

/// With exactly one open threat against it and no win of its own, the
/// value is the negated value of the forced block.
pub proof fn lemma_game_value_forced(s: State, c: u32)
    requires
        s.wf(),
        s.moves_made < 49,
        !spec_has_winning_move(s),
        s.col_playable(c),
        c < 7,
        spec_is_win(s.opp_pieces | spec_open_row(s.height_map, c)),
        forall|d: u32|
            d < 7 && d != c && s.col_playable(d) ==> !spec_is_win(
                s.opp_pieces | #[trigger] spec_open_row(s.height_map, d),
            ),
    ensures
        spec_game_value(s) == -spec_game_value(s.spec_play(c)),
{
    lemma_play_move(s, c);
    lemma_game_value_bounds(s.spec_play(c));
    assert(!spec_is_win(s.curr_pieces | spec_open_row(s.height_map, c)));
    assert(spec_move_value(s, c) == -spec_game_value(s.spec_play(c)));
    assert forall|d: u32|
        0 <= d < 7 && s.col_playable(d) implies #[trigger] spec_move_value(s, d)
        <= -spec_game_value(s.spec_play(c)) by {
        if d != c {
            assert(!spec_is_win(s.curr_pieces | spec_open_row(s.height_map, d)));
            lemma_threat_survives(s, d, c);
            lemma_play_move(s, d);
            let child = s.spec_play(d);
            let tc = lemma_playable_exists_for_win(child);
            lemma_game_value_win(child);
        }
    }
    lemma_best_from_ge(s, 0, c);
    lemma_best_from_le(s, 0, -spec_game_value(s.spec_play(c)));
}

} // verus!
