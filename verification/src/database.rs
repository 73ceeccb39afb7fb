//! Enumeration of the positions the database generator solves: the game
//! tree is walked along optimal moves and the positions at the depth
//! horizon are collected into a work queue.  Reading and writing the
//! database files themselves is left to the surrounding program.

use vstd::prelude::*;
use std::collections::HashSet;
use crate::caches::StateCaches;
use crate::engine::optimal_moves;
use crate::error::Connect4Error;
use crate::state::State;

verus! {

/// Solves the position, follows each optimal move and every legal reply,
/// and collects the positions reached at depth zero into the work queue.
/// A fingerprint already seen is not expanded again.
pub fn generate_optimal_reachable_states(
    state: State,
    caches: &mut StateCaches,
    depth: usize,
    seen: &mut HashSet<u64>,
    possible_states: &mut Vec<State>,
) -> (r: Result<(), Connect4Error>)
    requires
        state.wf(),
        old(caches).wf(),
        forall|k: int|
            0 <= k < old(possible_states)@.len() ==> (#[trigger] old(possible_states)@[k]).wf(),
    ensures
        final(caches).wf(),
        final(caches).beg_game_lower_bound_cache == old(caches).beg_game_lower_bound_cache,
        final(caches).beg_game_upper_bound_cache == old(caches).beg_game_upper_bound_cache,
        forall|k: int|
            0 <= k < final(possible_states)@.len() ==> (#[trigger] final(possible_states)@[k]).wf(),
        old(seen)@ <= final(seen)@,
        old(seen)@.contains(state.spec_to_bitboard()) ==> r is Ok && final(seen)@ == old(seen)@
            && final(possible_states)@ == old(possible_states)@ && *final(caches) == *old(caches),
        !old(seen)@.contains(state.spec_to_bitboard()) && depth == 0 ==> r is Ok && final(seen)@
            == old(seen)@.insert(state.spec_to_bitboard()) && final(possible_states)@ == old(
            possible_states,
        )@.push(state) && *final(caches) == *old(caches),
    decreases depth,
{
    let state_bitboard = state.to_bitboard();
    if seen.insert(state_bitboard) {
        if depth == 0 {
            possible_states.push(state);
            return Ok(());
        }
        proof {
            assert(!old(seen)@.contains(state.spec_to_bitboard()));
            assert(old(seen)@ <= seen@);
        }
        let mut probe_count: usize = 0;
        let best_moves = match optimal_moves(&state, caches, &mut probe_count) {
            Ok(result) => result.1,
            Err(err) => {
                return Err(err);
            },
        };
        let mut k: usize = 0;
        while k < best_moves.len()
            invariant
                state.wf(),
                caches.wf(),
                caches.beg_game_lower_bound_cache == old(caches).beg_game_lower_bound_cache,
                caches.beg_game_upper_bound_cache == old(caches).beg_game_upper_bound_cache,
                depth >= 1,
                old(seen)@ <= seen@,
                !old(seen)@.contains(state.spec_to_bitboard()),
                k <= best_moves@.len(),
                forall|q: int|
                    0 <= q < best_moves@.len() ==> state.col_playable(#[trigger] best_moves@[q]),
                forall|q: int|
                    0 <= q < possible_states@.len() ==> (#[trigger] possible_states@[q]).wf(),
            decreases best_moves@.len() - k,
        {
            let best_move = best_moves[k];
            let played = state.play_move(best_move);
            let next_states = played.next_states();
            let mut j: usize = 0;
            while j < next_states.len()
                invariant
                    caches.wf(),
                    caches.beg_game_lower_bound_cache == old(caches).beg_game_lower_bound_cache,
                    caches.beg_game_upper_bound_cache == old(caches).beg_game_upper_bound_cache,
                    depth >= 1,
                    old(seen)@ <= seen@,
                    !old(seen)@.contains(state.spec_to_bitboard()),
                    j <= next_states@.len(),
                    forall|q: int|
                        0 <= q < next_states@.len() ==> (#[trigger] next_states@[q]).wf(),
                    forall|q: int|
                        0 <= q < possible_states@.len() ==> (#[trigger] possible_states@[q]).wf(),
                decreases next_states@.len() - j,
            {
                let next_state = next_states[j];
                match generate_optimal_reachable_states(
                    next_state,
                    caches,
                    depth - 1,
                    seen,
                    possible_states,
                ) {
                    Ok(_) => {},
                    Err(err) => {
                        return Err(err);
                    },
                }
                j += 1;
            }
            k += 1;
        }
    }
    proof {
        if old(seen)@.contains(state.spec_to_bitboard()) {
            assert(seen@ =~= old(seen)@);
        }
    }
    Ok(())
}

/// Collects the work queue for a database run: at even depth the walk
/// starts from the empty board itself, at odd depth from each of its
/// children, and descends half the requested depth along optimal play.
pub fn generate_database_states(depth: usize, caches: &mut StateCaches) -> (r: Result<
    Vec<State>,
    Connect4Error,
>)
    requires
        old(caches).wf(),
    ensures
        final(caches).wf(),
        final(caches).beg_game_lower_bound_cache == old(caches).beg_game_lower_bound_cache,
        final(caches).beg_game_upper_bound_cache == old(caches).beg_game_upper_bound_cache,
        r matches Ok(v) ==> forall|k: int| 0 <= k < v@.len() ==> (#[trigger] v@[k]).wf(),
{
    let start = State::start_state();
    let mut seen: HashSet<u64> = HashSet::new();
    let mut possible_states: Vec<State> = Vec::new();
    if (depth & 1) == 0 {
        match generate_optimal_reachable_states(
            start,
            caches,
            depth >> 1,
            &mut seen,
            &mut possible_states,
        ) {
            Ok(_) => {},
            Err(err) => {
                return Err(err);
            },
        }
    } else {
        let next_states = start.next_states();
        let mut k: usize = 0;
        while k < next_states.len()
            invariant
                caches.wf(),
                caches.beg_game_lower_bound_cache == old(caches).beg_game_lower_bound_cache,
                caches.beg_game_upper_bound_cache == old(caches).beg_game_upper_bound_cache,
                k <= next_states@.len(),
                forall|q: int| 0 <= q < next_states@.len() ==> (#[trigger] next_states@[q]).wf(),
                forall|q: int|
                    0 <= q < possible_states@.len() ==> (#[trigger] possible_states@[q]).wf(),
            decreases next_states@.len() - k,
        {
            match generate_optimal_reachable_states(
                next_states[k],
                caches,
                depth >> 1,
                &mut seen,
                &mut possible_states,
            ) {
                Ok(_) => {},
                Err(err) => {
                    return Err(err);
                },
            }
            k += 1;
        }
    }
    Ok(possible_states)
}

} // verus!
