//! Two-tier transposition cache: a shared concurrent map for early-game
//! positions and a per-thread direct-mapped table for late-game positions,
//! one pair each for lower and upper bounds.
//!
//! The concurrent maps come from the `dashmap` crate and may be shared
//! across threads through their `Arc` handles, so nothing is assumed about
//! what a probe returns; every value read from them is clamped into the
//! range the search produces.  The direct-mapped tables are plain vectors
//! owned by one thread and carry exact contracts.

use vstd::prelude::*;
use std::sync::Arc;
use dashmap::DashMap;
use crate::engine::{max_i8, min_i8, MAX_EVAL, MIN_EVAL, MAX_PLAYER_MOVES};
use crate::state::BOARD_MASK;

verus! {

pub const CACHE_VALUE_SHIFT: u64 = 56;

pub const BEGINNING_GAME_CACHE_DEPTH: i8 = 25;

pub const CACHE_SIZE: usize = 524289;

#[verifier::external_type_specification]
#[verifier::external_body]
#[verifier::reject_recursive_types(K)]
#[verifier::reject_recursive_types(V)]
#[verifier::reject_recursive_types(S)]
pub struct ExDashMap<K, V, S>(DashMap<K, V, S>);

/// Relies on dashmap::DashMap::new: creates an empty concurrent map.
#[verifier::external_body]
fn dm_new() -> DashMap<u64, i8> {
    DashMap::new()
}

/// Relies on dashmap::DashMap::get: returns a value previously stored
/// under the key, if one is present.  The map may be shared with other
/// threads through its `Arc`, so which value (if any) comes back depends
/// on timing and nothing more is claimed of it.
#[verifier::external_body]
fn dm_get(map: &DashMap<u64, i8>, key: u64) -> Option<i8> {
    map.get(&key).map(|entry| *entry.value())
}

/// Relies on dashmap::DashMap::insert: stores the value under the key,
/// replacing any previous one.
#[verifier::external_body]
fn dm_insert(map: &DashMap<u64, i8>, key: u64, value: i8) {
    map.insert(key, value);
}

/// Relies on dashmap::DashMap::entry with Entry::and_modify and
/// Entry::or_insert: keeps the larger of the stored and offered values,
/// inserting the offered one when the key is new.
#[verifier::external_body]
fn dm_upsert_max(map: &DashMap<u64, i8>, key: u64, value: i8) {
    map.entry(key).and_modify(|entry| *entry = max_i8(*entry, value)).or_insert(value);
}

/// Relies on dashmap::DashMap::entry with Entry::and_modify and
/// Entry::or_insert: keeps the smaller of the stored and offered values,
/// inserting the offered one when the key is new.
#[verifier::external_body]
fn dm_upsert_min(map: &DashMap<u64, i8>, key: u64, value: i8) {
    map.entry(key).and_modify(|entry| *entry = min_i8(*entry, value)).or_insert(value);
}

/// Position fingerprint packed in a direct-mapped cache word.
pub open spec fn spec_entry_state(entry: u64) -> u64 {
    entry & BOARD_MASK
}

/// Bound packed in a direct-mapped cache word, biased by 25.
pub open spec fn spec_entry_eval(entry: u64) -> int {
    (entry >> 56) - 25
}

/// What a direct-mapped probe yields: the decoded bound when the slot
/// holds this very position, the default otherwise.
pub open spec fn spec_end_get(cache: Seq<u64>, state: u64, idx: int, default: int) -> int {
    if spec_entry_state(cache[idx]) == state {
        spec_entry_eval(cache[idx])
    } else {
        default
    }
}

/// Packs a fingerprint and a biased bound into one database/cache word.
pub fn make_cache_entry(state: u64, bound: i8) -> (r: u64)
    requires
        state & BOARD_MASK == state,
        -25 <= bound <= 25,
    ensures
        spec_entry_state(r) == state,
        spec_entry_eval(r) == bound,
        r >> 56 <= 50,
{
    let biased = (bound + 25) as u64;
    let r = state | (biased << 56);
    proof {
        assert(r & 0x00FF_FFFF_FFFF_FFFF == state && r >> 56u64 == biased) by (bit_vector)
            requires
                state & 0x00FF_FFFF_FFFF_FFFF == state,
                biased <= 50,
                r == state | (biased << 56u64),
        ;
    }
    r
}

/// The fingerprint a database/cache word identifies itself with.
pub fn cache_entry_state(entry: u64) -> (r: u64)
    ensures
        r == spec_entry_state(entry),
{
    entry & BOARD_MASK
}

/// The bound packed in a database/cache word.
pub fn cache_entry_eval(entry: u64) -> (r: i8)
    requires
        entry >> 56 <= 50,
    ensures
        r as int == spec_entry_eval(entry),
        -25 <= r <= 25,
{
    proof {
        assert(entry >> 56u64 < 128) by (bit_vector)
            requires
                entry >> 56u64 <= 50,
        ;
    }
    (entry >> CACHE_VALUE_SHIFT) as i8 - MAX_PLAYER_MOVES
}

/// Forces a bound read from the shared map into the range the search can
/// produce.  Bounds this engine stores are already in range, so this only
/// guards against foreign values loaded from a database file.
fn clamp_bound(value: i8) -> (r: i8)
    ensures
        -25 <= r <= 25,
        -25 <= value <= 25 ==> r == value,
{
    if value < -25 {
        -25
    } else if value > 25 {
        25
    } else {
        value
    }
}

pub struct StateCaches {
    pub beg_game_lower_bound_cache: Arc<DashMap<u64, i8>>,
    pub beg_game_upper_bound_cache: Arc<DashMap<u64, i8>>,
    pub end_game_lower_bound_cache: Vec<u64>,
    pub end_game_upper_bound_cache: Vec<u64>,
}

/// A direct-mapped table of the right size whose entries all decode to
/// bounds in range.
pub open spec fn end_table_wf(cache: Seq<u64>) -> bool {
    &&& cache.len() == CACHE_SIZE
    &&& forall|k: int| 0 <= k < cache.len() ==> (#[trigger] cache[k]) >> 56 <= 50
}

/// A direct-mapped table with no entry written yet.
pub open spec fn end_table_zero(cache: Seq<u64>) -> bool {
    &&& cache.len() == CACHE_SIZE
    &&& forall|k: int| 0 <= k < cache.len() ==> (#[trigger] cache[k]) == 0
}

fn zero_table() -> (r: Vec<u64>)
    ensures
        end_table_wf(r@),
        end_table_zero(r@),
{
    let mut table: Vec<u64> = Vec::new();
    let mut k: usize = 0;
    while k < CACHE_SIZE
        invariant
            k <= CACHE_SIZE,
            table@.len() == k,
            forall|j: int| 0 <= j < k ==> #[trigger] table@[j] == 0,
        decreases CACHE_SIZE - k,
    {
        table.push(0);
        k += 1;
    }
    proof {
        crate::bits::lemma_zero_word();
    }
    table
}

fn cache_get(
    state: u64,
    moves_made: i8,
    cache_index: usize,
    beg_game_cache: &DashMap<u64, i8>,
    end_game_cache: &Vec<u64>,
    default_bound: i8,
) -> (r: i8)
    requires
        end_table_wf(end_game_cache@),
        cache_index < CACHE_SIZE,
        -25 <= default_bound <= 25,
    ensures
        -25 <= r <= 25,
        moves_made > BEGINNING_GAME_CACHE_DEPTH ==> r as int == spec_end_get(
            end_game_cache@,
            state,
            cache_index as int,
            default_bound as int,
        ),
{
    if moves_made <= BEGINNING_GAME_CACHE_DEPTH {
        match dm_get(beg_game_cache, state) {
            Some(cache_bound) => clamp_bound(cache_bound),
            None => default_bound,
        }
    } else {
        let cache_entry = end_game_cache[cache_index];
        if cache_entry & BOARD_MASK == state {
            cache_entry_eval(cache_entry)
        } else {
            default_bound
        }
    }
}

fn cache_put(
    bound: i8,
    state: u64,
    moves_made: i8,
    cache_index: usize,
    beg_game_cache: &DashMap<u64, i8>,
    end_game_cache: &mut Vec<u64>,
    keep_larger: bool,
)
    requires
        end_table_wf(old(end_game_cache)@),
        cache_index < CACHE_SIZE,
        -25 <= bound <= 25,
        state & BOARD_MASK == state,
    ensures
        end_table_wf(final(end_game_cache)@),
        moves_made > BEGINNING_GAME_CACHE_DEPTH ==> {
            &&& forall|k: int|
                0 <= k < CACHE_SIZE && k != cache_index ==> final(end_game_cache)@[k] == old(
                    end_game_cache,
                )@[k]
            &&& spec_entry_state(final(end_game_cache)@[cache_index as int]) == state
            &&& spec_entry_eval(final(end_game_cache)@[cache_index as int]) == bound
        },
        moves_made <= BEGINNING_GAME_CACHE_DEPTH ==> final(end_game_cache)@ == old(
            end_game_cache,
        )@,
{
    if moves_made > BEGINNING_GAME_CACHE_DEPTH {
        let entry = make_cache_entry(state, bound);
        end_game_cache.set(cache_index, entry);
    } else {
        if keep_larger {
            dm_upsert_max(beg_game_cache, state, bound);
        } else {
            dm_upsert_min(beg_game_cache, state, bound);
        }
    }
}

impl StateCaches {
    /// Both direct-mapped tables are sized and in range.
    pub open spec fn wf(self) -> bool {
        &&& end_table_wf(self.end_game_lower_bound_cache@)
        &&& end_table_wf(self.end_game_upper_bound_cache@)
    }

    /// Both direct-mapped tables are still empty.
    pub open spec fn end_tables_zero(self) -> bool {
        &&& end_table_zero(self.end_game_lower_bound_cache@)
        &&& end_table_zero(self.end_game_upper_bound_cache@)
    }

    /// Fresh per-thread tables over already shared early-game maps.
    pub fn from_beg_caches(
        beg_game_lower_bound_cache: Arc<DashMap<u64, i8>>,
        beg_game_upper_bound_cache: Arc<DashMap<u64, i8>>,
    ) -> (r: Self)
        ensures
            r.wf(),
            r.end_tables_zero(),
            r.beg_game_lower_bound_cache == beg_game_lower_bound_cache,
            r.beg_game_upper_bound_cache == beg_game_upper_bound_cache,
    {
        Self {
            beg_game_lower_bound_cache,
            beg_game_upper_bound_cache,
            end_game_lower_bound_cache: zero_table(),
            end_game_upper_bound_cache: zero_table(),
        }
    }

    pub fn new() -> (r: Self)
        ensures
            r.wf(),
            r.end_tables_zero(),
    {
        Self::from_beg_caches(Arc::new(dm_new()), Arc::new(dm_new()))
    }

    /// A cache view for another thread: it shares the early-game maps and
    /// owns fresh late-game tables.
    pub fn with_same_beg_caches(&self) -> (r: Self)
        ensures
            r.wf(),
            r.end_tables_zero(),
            r.beg_game_lower_bound_cache == self.beg_game_lower_bound_cache,
            r.beg_game_upper_bound_cache == self.beg_game_upper_bound_cache,
    {
        Self::from_beg_caches(
            self.beg_game_lower_bound_cache.clone(),
            self.beg_game_upper_bound_cache.clone(),
        )
    }

    pub fn get_lower_bound(&self, state: u64, moves_made: i8, cache_index: usize) -> (r: i8)
        requires
            self.wf(),
            cache_index < CACHE_SIZE,
        ensures
            -25 <= r <= 25,
            moves_made > BEGINNING_GAME_CACHE_DEPTH ==> r as int == spec_end_get(
                self.end_game_lower_bound_cache@,
                state,
                cache_index as int,
                MIN_EVAL as int,
            ),
    {
        cache_get(
            state,
            moves_made,
            cache_index,
            &self.beg_game_lower_bound_cache,
            &self.end_game_lower_bound_cache,
            MIN_EVAL,
        )
    }

    pub fn get_upper_bound(&self, state: u64, moves_made: i8, cache_index: usize) -> (r: i8)
        requires
            self.wf(),
            cache_index < CACHE_SIZE,
        ensures
            -25 <= r <= 25,
            moves_made > BEGINNING_GAME_CACHE_DEPTH ==> r as int == spec_end_get(
                self.end_game_upper_bound_cache@,
                state,
                cache_index as int,
                MAX_EVAL as int,
            ),
    {
        cache_get(
            state,
            moves_made,
            cache_index,
            &self.beg_game_upper_bound_cache,
            &self.end_game_upper_bound_cache,
            MAX_EVAL,
        )
    }

    /// Seeds the shared early-game lower-bound map directly.
    pub fn put_beg_game_lower_bound(&self, bound: i8, state: u64) {
        dm_insert(&self.beg_game_lower_bound_cache, state, bound);
    }

    pub fn put_lower_bound(&mut self, bound: i8, state: u64, moves_made: i8, cache_index: usize)
        requires
            old(self).wf(),
            cache_index < CACHE_SIZE,
            -25 <= bound <= 25,
            state & BOARD_MASK == state,
        ensures
            final(self).wf(),
            final(self).beg_game_lower_bound_cache == old(self).beg_game_lower_bound_cache,
            final(self).beg_game_upper_bound_cache == old(self).beg_game_upper_bound_cache,
            final(self).end_game_upper_bound_cache == old(self).end_game_upper_bound_cache,
            moves_made > BEGINNING_GAME_CACHE_DEPTH ==> {
                &&& spec_entry_state(
                    final(self).end_game_lower_bound_cache@[cache_index as int],
                ) == state
                &&& spec_entry_eval(
                    final(self).end_game_lower_bound_cache@[cache_index as int],
                ) == bound
                &&& forall|k: int|
                    0 <= k < CACHE_SIZE && k != cache_index
                        ==> final(self).end_game_lower_bound_cache@[k] == old(
                        self,
                    ).end_game_lower_bound_cache@[k]
            },
            moves_made <= BEGINNING_GAME_CACHE_DEPTH ==> final(self).end_game_lower_bound_cache@
                == old(self).end_game_lower_bound_cache@,
    {
        cache_put(
            bound,
            state,
            moves_made,
            cache_index,
            &self.beg_game_lower_bound_cache,
            &mut self.end_game_lower_bound_cache,
            true,
        )
    }

    pub fn put_upper_bound(&mut self, bound: i8, state: u64, moves_made: i8, cache_index: usize)
        requires
            old(self).wf(),
            cache_index < CACHE_SIZE,
            -25 <= bound <= 25,
            state & BOARD_MASK == state,
        ensures
            final(self).wf(),
            final(self).beg_game_lower_bound_cache == old(self).beg_game_lower_bound_cache,
            final(self).beg_game_upper_bound_cache == old(self).beg_game_upper_bound_cache,
            final(self).end_game_lower_bound_cache == old(self).end_game_lower_bound_cache,
            moves_made > BEGINNING_GAME_CACHE_DEPTH ==> {
                &&& spec_entry_state(
                    final(self).end_game_upper_bound_cache@[cache_index as int],
                ) == state
                &&& spec_entry_eval(
                    final(self).end_game_upper_bound_cache@[cache_index as int],
                ) == bound
                &&& forall|k: int|
                    0 <= k < CACHE_SIZE && k != cache_index
                        ==> final(self).end_game_upper_bound_cache@[k] == old(
                        self,
                    ).end_game_upper_bound_cache@[k]
            },
            moves_made <= BEGINNING_GAME_CACHE_DEPTH ==> final(self).end_game_upper_bound_cache@
                == old(self).end_game_upper_bound_cache@,
    {
        cache_put(
            bound,
            state,
            moves_made,
            cache_index,
            &self.beg_game_upper_bound_cache,
            &mut self.end_game_upper_bound_cache,
            false,
        )
    }
}

} // verus!
