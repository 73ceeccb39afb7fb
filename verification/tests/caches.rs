use connect4_solver::caches::{StateCaches, CACHE_SIZE};
use connect4_solver::engine::{MAX_EVAL, MIN_EVAL};

#[test]
fn end_game_put_then_get() {
    let mut caches = StateCaches::new();
    let state = 0x0004_0302_0101_0307u64;
    let index = (state as usize) % CACHE_SIZE;
    caches.put_lower_bound(5, state, 30, index);
    assert_eq!(caches.get_lower_bound(state, 30, index), 5);
    caches.put_upper_bound(-7, state, 30, index);
    assert_eq!(caches.get_upper_bound(state, 30, index), -7);
}

#[test]
fn end_game_miss_returns_sentinel() {
    let caches = StateCaches::new();
    let state = 0x0004_0302_0101_0307u64;
    let index = (state as usize) % CACHE_SIZE;
    assert_eq!(caches.get_lower_bound(state, 30, index), MIN_EVAL);
    assert_eq!(caches.get_upper_bound(state, 30, index), MAX_EVAL);
}

#[test]
fn end_game_overwrites_on_collision() {
    let mut caches = StateCaches::new();
    let first = 0x0004_0302_0101_0307u64;
    // same table slot, different position
    let second = first + CACHE_SIZE as u64;
    let index = (first as usize) % CACHE_SIZE;
    assert_eq!(index, (second as usize) % CACHE_SIZE);
    caches.put_lower_bound(5, first, 30, index);
    caches.put_lower_bound(-3, second, 30, index);
    // always-replace: the first entry is gone, only the second answers
    assert_eq!(caches.get_lower_bound(first, 30, index), MIN_EVAL);
    assert_eq!(caches.get_lower_bound(second, 30, index), -3);
}

#[test]
fn beginning_game_lower_bound_keeps_maximum() {
    let mut caches = StateCaches::new();
    let state = 0x0004_0302_0101_0307u64;
    let index = (state as usize) % CACHE_SIZE;
    caches.put_lower_bound(5, state, 10, index);
    caches.put_lower_bound(3, state, 10, index);
    assert_eq!(caches.get_lower_bound(state, 10, index), 5);
    caches.put_lower_bound(9, state, 10, index);
    assert_eq!(caches.get_lower_bound(state, 10, index), 9);
}

#[test]
fn beginning_game_upper_bound_keeps_minimum() {
    let mut caches = StateCaches::new();
    let state = 0x0004_0302_0101_0307u64;
    let index = (state as usize) % CACHE_SIZE;
    caches.put_upper_bound(5, state, 10, index);
    caches.put_upper_bound(8, state, 10, index);
    assert_eq!(caches.get_upper_bound(state, 10, index), 5);
    caches.put_upper_bound(-2, state, 10, index);
    assert_eq!(caches.get_upper_bound(state, 10, index), -2);
}

#[test]
fn beginning_game_seed_is_readable() {
    let caches = StateCaches::new();
    let state = 0x0004_0302_0101_0307u64;
    let index = (state as usize) % CACHE_SIZE;
    caches.put_beg_game_lower_bound(4, state);
    assert_eq!(caches.get_lower_bound(state, 10, index), 4);
}

#[test]
fn tiers_are_independent() {
    let mut caches = StateCaches::new();
    let state = 0x0004_0302_0101_0307u64;
    let index = (state as usize) % CACHE_SIZE;
    caches.put_lower_bound(5, state, 10, index);
    // stored in the shared early-game map, not in the direct-mapped table
    assert_eq!(caches.get_lower_bound(state, 30, index), MIN_EVAL);
    assert_eq!(caches.get_lower_bound(state, 10, index), 5);
}

#[test]
fn shared_maps_survive_cache_cloning() {
    let caches = StateCaches::new();
    let state = 0x0004_0302_0101_0307u64;
    let index = (state as usize) % CACHE_SIZE;
    caches.put_beg_game_lower_bound(6, state);
    let sibling = caches.with_same_beg_caches();
    assert_eq!(sibling.get_lower_bound(state, 10, index), 6);
}
