//! Threat analysis: counting the cells that would complete four in a row
//! above the current column tops, and sorting the move order by those
//! counts.

use vstd::prelude::*;
use crate::engine::{is_win, spec_is_win, DEFAULT_MOVE_ORDER};
use crate::state::spec_open_row;

verus! {

pub const FOUR_BIT_MASK: u32 = 0b1111;

/// 4-bit field `i` of a word packing seven 4-bit entries.
pub open spec fn get_field(arr: u32, i: int) -> u32 {
    (arr >> ((4 * i) as u32)) & FOUR_BIT_MASK
}

/// Field `i` of a packed 4-bit array.
pub fn field(arr: u32, i: u32) -> (r: u32)
    requires
        i < 8,
    ensures
        r == get_field(arr, i as int),
        r < 16,
{
    proof {
        let sh = (4 * i) as u32;
        assert((arr >> sh) & 0b1111u32 < 16) by (bit_vector);
    }
    (arr >> (4 * i)) & FOUR_BIT_MASK
}

/// Placing a piece at row `r` of column `c` would complete four in a row,
/// and that cell sits at or above the column's current top.
pub open spec fn cell_is_threat(pieces: u64, height_map: u64, c: u32, r: u32) -> bool {
    let cell = 1u64 << ((8 * c + r) as u64);
    cell >= spec_open_row(height_map, c) && spec_is_win(pieces | cell)
}

/// Number of threat cells of column `c` at rows `r` and above.
pub open spec fn col_threats_from(pieces: u64, height_map: u64, c: u32, r: u32) -> nat
    decreases 7 - r,
{
    if r >= 7 {
        0
    } else {
        (if cell_is_threat(pieces, height_map, c, r) {
            1nat
        } else {
            0nat
        }) + col_threats_from(pieces, height_map, c, (r + 1) as u32)
    }
}

/// Number of threat cells in columns `c` and to its right.
pub open spec fn threats_from(pieces: u64, height_map: u64, c: u32) -> nat
    decreases 7 - c,
{
    if c >= 7 {
        0
    } else {
        col_threats_from(pieces, height_map, c, 0) + threats_from(pieces, height_map, (c + 1) as u32)
    }
}

/// Number of cells at or above the column tops where a piece of `pieces`
/// would complete four in a row.
pub open spec fn spec_count_threats(pieces: u64, height_map: u64) -> nat {
    threats_from(pieces, height_map, 0)
}

pub fn count_threats(pieces: u64, height_map: u64) -> (r: u32)
    ensures
        r == spec_count_threats(pieces, height_map),
        r <= 49,
{
    let mut threat_count: u32 = 0;
    let mut col: u32 = 0;
    while col < 7
        invariant
            col <= 7,
            threat_count <= 7 * col,
            threat_count + threats_from(pieces, height_map, col) == spec_count_threats(
                pieces,
                height_map,
            ),
        decreases 7 - col,
    {
        let top = crate::state::open_row(height_map, col);
        let mut row: u32 = 0;
        let ghost count_at_col_start = threat_count;
        while row < 7
            invariant
                col < 7,
                row <= 7,
                threat_count <= 7 * col + row,
                count_at_col_start <= 7 * col,
                top == spec_open_row(height_map, col),
                threat_count == count_at_col_start + col_threats_from(pieces, height_map, col, 0)
                    - col_threats_from(pieces, height_map, col, row),
                col_threats_from(pieces, height_map, col, row) <= col_threats_from(
                    pieces,
                    height_map,
                    col,
                    0,
                ),
            decreases 7 - row,
        {
            let cell = 1u64 << (8 * col + row);
            if cell >= top && is_win(pieces | cell) {
                threat_count += 1;
            }
            row += 1;
        }
        col += 1;
    }
    proof {
        assert(threats_from(pieces, height_map, 7) == 0);
    }
    threat_count
}

/// Some field of the packed order names column `c`.
pub open spec fn order_contains(arr: u32, c: u32) -> bool {
    exists|i: int| 0 <= i < 7 && get_field(arr, i) == c
}

/// Some entry of the sequence names column `c`.
pub open spec fn seq_contains_col(s: Seq<u32>, c: u32) -> bool {
    exists|k: int| 0 <= k < s.len() && s[k] == c
}

/// Threat count of column `x` in the packed per-column counts.
pub open spec fn threat_key(col_threats: u32, x: u32) -> u32 {
    get_field(col_threats, x as int)
}

/// Column named by field `k` of the center-out default order.
pub open spec fn default_col(k: int) -> u32 {
    if k == 0 {
        3
    } else if k == 1 {
        2
    } else if k == 2 {
        4
    } else if k == 3 {
        5
    } else if k == 4 {
        1
    } else if k == 5 {
        6
    } else {
        0
    }
}

/// Position of a column in the center-out default order.
pub open spec fn default_rank(col: u32) -> int {
    if col == 3 {
        0
    } else if col == 2 {
        1
    } else if col == 4 {
        2
    } else if col == 5 {
        3
    } else if col == 1 {
        4
    } else if col == 6 {
        5
    } else {
        6
    }
}

/// Reorders the center-out move order by descending threat count, using a
/// stable insertion sort.  The result packs a permutation of the seven
/// columns in its 4-bit fields.
pub fn sort_by_threats(col_threats: u32) -> (r: u32)
    ensures
        forall|i: int| 0 <= i < 7 ==> #[trigger] get_field(r, i) < 7,
        forall|c: u32| c < 7 ==> #[trigger] order_contains(r, c),
        forall|i: int, j: int|
            0 <= i < j < 7 ==> threat_key(col_threats, get_field(r, i)) >= threat_key(
                col_threats,
                get_field(r, j),
            ),
        forall|i: int, j: int|
            0 <= i < j < 7 && threat_key(col_threats, get_field(r, i)) == threat_key(
                col_threats,
                get_field(r, j),
            ) ==> default_rank(get_field(r, i)) < default_rank(get_field(r, j)),
{
    let mut order: Vec<u32> = vec![3, 2, 4, 5, 1, 6, 0];
    proof {
        assert(order@[0] == 3 && order@[1] == 2 && order@[2] == 4 && order@[3] == 5 && order@[4]
            == 1 && order@[5] == 6 && order@[6] == 0);
        assert(forall|k: int| 0 <= k < 7 ==> order@[k] == default_col(k));
        assert(forall|k: int| 0 <= k < 7 ==> default_rank(#[trigger] default_col(k)) == k);
        assert forall|c: u32| c < 7 implies #[trigger] seq_contains_col(order@, c) by {
            if c == 3 {
                assert(order@[0] == c);
            } else if c == 2 {
                assert(order@[1] == c);
            } else if c == 4 {
                assert(order@[2] == c);
            } else if c == 5 {
                assert(order@[3] == c);
            } else if c == 1 {
                assert(order@[4] == c);
            } else if c == 6 {
                assert(order@[5] == c);
            } else {
                assert(order@[6] == c);
            }
        }
    }
    let mut i: usize = 1;
    while i < 7
        invariant
            order@.len() == 7,
            1 <= i <= 7,
            forall|k: int| 0 <= k < 7 ==> #[trigger] order@[k] < 7,
            forall|c: u32| c < 7 ==> #[trigger] seq_contains_col(order@, c),
            forall|a: int, b: int|
                0 <= a < b < i ==> threat_key(col_threats, #[trigger] order@[a]) >= threat_key(
                    col_threats,
                    #[trigger] order@[b],
                ),
            forall|k: int| i <= k < 7 ==> order@[k] == default_col(k),
            forall|a: int| 0 <= a < i ==> default_rank(#[trigger] order@[a]) < i,
            forall|a: int, b: int|
                0 <= a < b < i && threat_key(col_threats, #[trigger] order@[a]) == threat_key(
                    col_threats,
                    #[trigger] order@[b],
                ) ==> default_rank(order@[a]) < default_rank(order@[b]),
        decreases 7 - i,
    {
        let cur = order[i];
        let curt = field(col_threats, cur);
        let mut j: usize = i;
        proof {
            assert(order@.update(j as int, cur) =~= order@);
            assert(order@[i as int] == default_col(i as int));
            assert(default_rank(cur) == i);
        }
        loop
            invariant_except_break
                order@.len() == 7,
                i < 7,
                j <= i,
                cur < 7,
                curt == threat_key(col_threats, cur),
                forall|k: int| 0 <= k < 7 ==> #[trigger] order@[k] < 7,
                forall|c: u32| c < 7 ==> #[trigger] seq_contains_col(
                    order@.update(j as int, cur),
                    c,
                ),
                forall|a: int, b: int|
                    0 <= a < b <= i && a != j && b != j ==> threat_key(
                        col_threats,
                        #[trigger] order@[a],
                    ) >= threat_key(col_threats, #[trigger] order@[b]),
                forall|k: int|
                    j < k <= i ==> threat_key(col_threats, #[trigger] order@[k]) < curt,
                default_rank(cur) == i,
                forall|k: int| i < k < 7 ==> order@[k] == default_col(k),
                forall|a: int|
                    0 <= a <= i && a != j ==> default_rank(#[trigger] order@[a]) < i,
                forall|a: int, b: int|
                    0 <= a < b <= i && a != j && b != j && threat_key(
                        col_threats,
                        #[trigger] order@[a],
                    ) == threat_key(col_threats, #[trigger] order@[b]) ==> default_rank(order@[a])
                        < default_rank(order@[b]),
            ensures
                order@.len() == 7,
                i < 7,
                j <= i,
                cur < 7,
                forall|k: int| 0 <= k < 7 ==> #[trigger] order@[k] < 7,
                forall|c: u32| c < 7 ==> #[trigger] seq_contains_col(
                    order@.update(j as int, cur),
                    c,
                ),
                forall|a: int, b: int|
                    0 <= a < b <= i && a != j && b != j ==> threat_key(
                        col_threats,
                        #[trigger] order@[a],
                    ) >= threat_key(col_threats, #[trigger] order@[b]),
                forall|k: int|
                    j < k <= i ==> threat_key(col_threats, #[trigger] order@[k]) < curt,
                default_rank(cur) == i,
                forall|k: int| i < k < 7 ==> order@[k] == default_col(k),
                forall|a: int|
                    0 <= a <= i && a != j ==> default_rank(#[trigger] order@[a]) < i,
                forall|a: int, b: int|
                    0 <= a < b <= i && a != j && b != j && threat_key(
                        col_threats,
                        #[trigger] order@[a],
                    ) == threat_key(col_threats, #[trigger] order@[b]) ==> default_rank(order@[a])
                        < default_rank(order@[b]),
                j == 0 || threat_key(col_threats, order@[j - 1]) >= threat_key(col_threats, cur),
            decreases j,
        {
            if j == 0 {
                break ;
            }
            let left = order[j - 1];
            if field(col_threats, left) >= curt {
                break ;
            }
            let ghost v = order@.update(j as int, cur);
            order.set(j, left);
            j = j - 1;
            proof {
                let v2 = order@.update(j as int, cur);
                assert(v2[j as int] == cur && v2[j + 1] == v[j as int]);
                assert forall|c: u32| c < 7 implies #[trigger] seq_contains_col(v2, c) by {
                    assert(seq_contains_col(v, c));
                    let k0 = choose|k: int| 0 <= k < v.len() && v[k] == c;
                    if k0 == j {
                        assert(v2[j + 1] == c);
                    } else if k0 == j + 1 {
                        assert(v2[j as int] == c);
                    } else {
                        assert(v2[k0] == c);
                    }
                }
            }
        }
        order.set(j, cur);
        proof {
            assert forall|a: int, b: int|
                0 <= a < b <= i implies threat_key(col_threats, #[trigger] order@[a]) >= threat_key(
                col_threats,
                #[trigger] order@[b],
            ) by {
                if a == j as int {
                    assert(threat_key(col_threats, order@[b]) < curt);
                } else if b == j as int {
                    assert(a < j);
                    assert(threat_key(col_threats, order@[a]) >= threat_key(
                        col_threats,
                        order@[j - 1],
                    ));
                }
            }
            assert forall|a: int, b: int|
                0 <= a < b <= i && threat_key(col_threats, #[trigger] order@[a]) == threat_key(
                    col_threats,
                    #[trigger] order@[b],
                ) implies default_rank(order@[a]) < default_rank(order@[b]) by {
                if b == j as int {
                    assert(default_rank(order@[a]) < i);
                } else if a == j as int {
                    assert(threat_key(col_threats, order@[b]) < curt);
                }
            }
        }
        i = i + 1;
    }
    let f0 = order[0];
    let f1 = order[1];
    let f2 = order[2];
    let f3 = order[3];
    let f4 = order[4];
    let f5 = order[5];
    let f6 = order[6];
    let packed: u32 = f0 | (f1 << 4) | (f2 << 8) | (f3 << 12) | (f4 << 16) | (f5 << 20) | (f6
        << 24);
    proof {
        assert(packed & 0xF == f0 && (packed >> 4u32) & 0xF == f1 && (packed >> 8u32) & 0xF == f2
            && (packed >> 12u32) & 0xF == f3 && (packed >> 16u32) & 0xF == f4 && (packed >> 20u32)
            & 0xF == f5 && (packed >> 24u32) & 0xF == f6 && packed >> 0u32 == packed)
            by (bit_vector)
            requires
                f0 < 7 && f1 < 7 && f2 < 7 && f3 < 7 && f4 < 7 && f5 < 7 && f6 < 7,
                packed == f0 | (f1 << 4u32) | (f2 << 8u32) | (f3 << 12u32) | (f4 << 16u32) | (f5
                    << 20u32) | (f6 << 24u32),
        ;
        assert(get_field(packed, 0) == f0 && get_field(packed, 1) == f1 && get_field(packed, 2)
            == f2 && get_field(packed, 3) == f3 && get_field(packed, 4) == f4 && get_field(
            packed,
            5,
        ) == f5 && get_field(packed, 6) == f6);
        assert forall|k: int| 0 <= k < 7 implies #[trigger] get_field(packed, k) == order@[k] by {
        }
        assert forall|c: u32| c < 7 implies #[trigger] order_contains(packed, c) by {
            assert(seq_contains_col(order@, c));
            let k0 = choose|k: int| 0 <= k < order@.len() && order@[k] == c;
            assert(get_field(packed, k0) == c);
        }
    }
    packed
}

} // verus!
