//! Board representation: packed 64-bit bitboards, column height map,
//! horizontal reflection and the canonical position fingerprint.

use vstd::prelude::*;
use std::collections::HashSet;
use crate::bits::{is_one_hot8, pc64, slot_height};

verus! {

pub const ROWS: u32 = 7;

pub const COLS: u32 = 7;

pub const BOARD_BITS: u64 = 56;

/// Low 56 bits: the seven 8-bit column slots.
pub const BOARD_MASK: u64 = 0x00FF_FFFF_FFFF_FFFF;

pub const COL_BITS: u64 = 8;

pub const COL_MASK: u64 = 0xFF;

/// Low 7 bits of every column slot: the playable cells, sentinels excluded.
pub const IS_LEGAL: u64 = 0b0111_1111_0111_1111_0111_1111_0111_1111_0111_1111_0111_1111_0111_1111;

/// The 8-bit slot of column `c` (cells in the low 7 bits, sentinel on top).
pub open spec fn col_slot(x: u64, c: int) -> u64 {
    (x >> ((8 * c) as u64)) & COL_MASK
}

/// The word with one bit set at the lowest empty cell of column `col`
/// (the sentinel bit if the column is full).
pub open spec fn spec_open_row(h: u64, col: u32) -> u64 {
    h & (COL_MASK << ((8 * col) as u64))
}

/// A height map is one-hot in every column slot and clear above the board.
pub open spec fn height_wf(h: u64) -> bool {
    &&& h & BOARD_MASK == h
    &&& forall|c: int| 0 <= c < 7 ==> is_one_hot8(#[trigger] col_slot(h, c))
}

/// Total number of pieces a height map accounts for.
pub open spec fn total_height(h: u64) -> nat {
    slot_height(col_slot(h, 0)) + slot_height(col_slot(h, 1)) + slot_height(col_slot(h, 2))
        + slot_height(col_slot(h, 3)) + slot_height(col_slot(h, 4)) + slot_height(col_slot(h, 5))
        + slot_height(col_slot(h, 6))
}

/// Column-wise horizontal mirror: slot `c` moves to slot `6 - c`.
pub open spec fn spec_reflect(b: u64) -> u64 {
    ((b & 0xFF) << 48) | (((b >> 8) & 0xFF) << 40) | (((b >> 16) & 0xFF) << 32) | (((b >> 24)
        & 0xFF) << 24) | (((b >> 32) & 0xFF) << 16) | (((b >> 40) & 0xFF) << 8) | ((b >> 48) & 0xFF)
}

pub open spec fn min64(a: u64, b: u64) -> u64 {
    if a <= b {
        a
    } else {
        b
    }
}

/// Canonical fingerprint of a position: pieces of the side to move merged
/// with the height map, collapsed under horizontal reflection.
pub open spec fn spec_state_bitboard(curr_pieces: u64, height_map: u64) -> u64 {
    min64(curr_pieces | height_map, spec_reflect(curr_pieces | height_map))
}

fn reflect_bitboard(state: u64) -> (r: u64)
    ensures
        r == spec_reflect(state),
{
    ((state & 0xFF) << 48) | (((state >> 8) & 0xFF) << 40) | (((state >> 16) & 0xFF) << 32) | ((
    (state >> 24) & 0xFF) << 24) | (((state >> 32) & 0xFF) << 16) | (((state >> 40) & 0xFF) << 8)
        | ((state >> 48) & 0xFF)
}

pub fn state_bitboard(curr_pieces: u64, height_map: u64) -> (r: u64)
    ensures
        r == spec_state_bitboard(curr_pieces, height_map),
{
    let bitboard = curr_pieces | height_map;
    let reflected_bitboard = reflect_bitboard(bitboard);
    if bitboard <= reflected_bitboard {
        bitboard
    } else {
        reflected_bitboard
    }
}

/// Reflection maps the board area onto itself and is an involution there.
pub proof fn lemma_reflect_involution(b: u64)
    requires
        b & BOARD_MASK == b,
    ensures
        spec_reflect(spec_reflect(b)) == b,
        spec_reflect(b) & BOARD_MASK == spec_reflect(b),
{
    let r = spec_reflect(b);
    assert((((r & 0xFF) << 48) | (((r >> 8) & 0xFF) << 40) | (((r >> 16) & 0xFF) << 32) | (((r
        >> 24) & 0xFF) << 24) | (((r >> 32) & 0xFF) << 16) | (((r >> 40) & 0xFF) << 8) | ((r >> 48)
        & 0xFF) == b) && r & 0x00FF_FFFF_FFFF_FFFF == r) by (bit_vector)
        requires
            r == ((b & 0xFF) << 48) | (((b >> 8) & 0xFF) << 40) | (((b >> 16) & 0xFF) << 32) | (((b
                >> 24) & 0xFF) << 24) | (((b >> 32) & 0xFF) << 16) | (((b >> 40) & 0xFF) << 8) | ((b
                >> 48) & 0xFF),
            b & 0x00FF_FFFF_FFFF_FFFF == b,
    ;
}

/// Reflection distributes over the union of two bitboards.
pub proof fn lemma_reflect_or(a: u64, b: u64)
    ensures
        spec_reflect(a | b) == spec_reflect(a) | spec_reflect(b),
{
    let ra = spec_reflect(a);
    let rb = spec_reflect(b);
    let rab = spec_reflect(a | b);
    assert(rab == ra | rb) by (bit_vector)
        requires
            ra == ((a & 0xFF) << 48) | (((a >> 8) & 0xFF) << 40) | (((a >> 16) & 0xFF) << 32) | (((a
                >> 24) & 0xFF) << 24) | (((a >> 32) & 0xFF) << 16) | (((a >> 40) & 0xFF) << 8) | ((a
                >> 48) & 0xFF),
            rb == ((b & 0xFF) << 48) | (((b >> 8) & 0xFF) << 40) | (((b >> 16) & 0xFF) << 32) | (((b
                >> 24) & 0xFF) << 24) | (((b >> 32) & 0xFF) << 16) | (((b >> 40) & 0xFF) << 8) | ((b
                >> 48) & 0xFF),
            rab == (((a | b) & 0xFF) << 48) | ((((a | b) >> 8) & 0xFF) << 40) | ((((a | b) >> 16)
                & 0xFF) << 32) | ((((a | b) >> 24) & 0xFF) << 24) | ((((a | b) >> 32) & 0xFF) << 16)
                | ((((a | b) >> 40) & 0xFF) << 8) | (((a | b) >> 48) & 0xFF),
    ;
}

/// The canonical fingerprint does not change under horizontal reflection of
/// the side-to-move pieces and the height map.
pub proof fn lemma_state_bitboard_reflect(curr_pieces: u64, height_map: u64)
    requires
        curr_pieces & BOARD_MASK == curr_pieces,
        height_map & BOARD_MASK == height_map,
    ensures
        spec_state_bitboard(spec_reflect(curr_pieces), spec_reflect(height_map))
            == spec_state_bitboard(curr_pieces, height_map),
{
    let b = curr_pieces | height_map;
    lemma_or_mask(curr_pieces, height_map);
    lemma_reflect_or(curr_pieces, height_map);
    lemma_reflect_involution(b);
}

#[derive(Debug, PartialEq, Eq, Structural, Clone, Copy)]
pub struct State {
    pub curr_pieces: u64,
    pub opp_pieces: u64,
    pub height_map: u64,
    pub moves_made: i8,
}

impl State {
    /// The board invariant: the two piece sets are disjoint, lie inside the
    /// board area, fill each column exactly up to its height bit, and
    /// `moves_made` counts the pieces on the board.
    pub open spec fn wf(self) -> bool {
        &&& height_wf(self.height_map)
        &&& self.curr_pieces & self.opp_pieces == 0
        &&& (self.curr_pieces | self.opp_pieces) & BOARD_MASK == (self.curr_pieces
            | self.opp_pieces)
        &&& forall|c: int|
            0 <= c < 7 ==> #[trigger] col_slot(self.curr_pieces | self.opp_pieces, c) == (col_slot(
                self.height_map,
                c,
            ) - 1) as u64
        &&& self.moves_made == total_height(self.height_map)
    }

    /// The canonical fingerprint of this position.
    pub open spec fn spec_to_bitboard(self) -> u64 {
        spec_state_bitboard(self.curr_pieces, self.height_map)
    }

    pub fn to_bitboard(&self) -> (r: u64)
        ensures
            r == self.spec_to_bitboard(),
    {
        state_bitboard(self.curr_pieces, self.height_map)
    }

    /// Column `col` exists and is not full.
    pub open spec fn col_playable(self, col: u32) -> bool {
        col < 7 && spec_open_row(self.height_map, col) & IS_LEGAL != 0
    }

    /// The position after the side to move drops a piece in column `col`.
    pub open spec fn spec_play(self, col: u32) -> State {
        let mv = spec_open_row(self.height_map, col);
        State {
            curr_pieces: self.opp_pieces,
            opp_pieces: self.curr_pieces | mv,
            height_map: (self.height_map + mv) as u64,
            moves_made: (self.moves_made + 1) as i8,
        }
    }

    /// Rebuilds the position from the non-canonical packed form
    /// `curr_pieces | height_map`.  On well-formed input this inverts that
    /// packing: any well-formed position with this packed form is the
    /// result.
    pub fn from_bitboard(bitboard: u64) -> (r: State)
        requires
            bitboard_wf(bitboard),
        ensures
            r.wf(),
            r.curr_pieces | r.height_map == bitboard,
            forall|s: State|
                (#[trigger] s.wf()) && s.curr_pieces | s.height_map == bitboard ==> s == r,
    {
        let mut curr: u64 = 0;
        let mut opp: u64 = 0;
        let mut height: u64 = 0;
        let mut total: u32 = 0;
        proof {
            crate::bits::lemma_zero_word();
            assert(forall|c: int| 0 <= c < 7 ==> #[trigger] col_slot(0u64, c) == 0);
            assert(slot_height(0) == 0);
        }
        let mut i: u32 = 0;
        while i < 7
            invariant
                bitboard_wf(bitboard),
                i <= 7,
                total <= 7 * i,
                curr & BOARD_MASK == curr,
                opp & BOARD_MASK == opp,
                height & BOARD_MASK == height,
                curr & opp == 0,
                forall|c: int| i <= c < 7 ==> #[trigger] col_slot(curr, c) == 0,
                forall|c: int| i <= c < 7 ==> #[trigger] col_slot(opp, c) == 0,
                forall|c: int| i <= c < 7 ==> #[trigger] col_slot(height, c) == 0,
                forall|c: int|
                    0 <= c < i ==> {
                        &&& is_one_hot8(#[trigger] col_slot(height, c))
                        &&& col_slot(height, c) <= col_slot(bitboard, c) < 2 * col_slot(height, c)
                        &&& (col_slot(curr, c) | col_slot(height, c)) == col_slot(bitboard, c)
                        &&& col_slot(curr, c) == col_slot(bitboard, c) & ((col_slot(height, c)
                            - 1) as u64)
                        &&& (col_slot(curr, c) | col_slot(opp, c)) == (col_slot(height, c)
                            - 1) as u64
                        &&& col_slot(curr, c) < 256
                        &&& col_slot(opp, c) < 256
                    },
                total == total_height(height),
            decreases 7 - i,
        {
            let col_bits = (bitboard >> (8 * i)) & COL_MASK;
            proof {
                assert(col_bits == col_slot(bitboard, i as int));
                assert(col_slot(bitboard, i as int) != 0);
                crate::bits::lemma_shift_facts();
            }
            let decoded = decode_column(col_bits);
            let curr_col = decoded.0;
            let opp_col = decoded.1;
            let height_bit = decoded.2;
            let row = decoded.3;
            let ghost curr0 = curr;
            let ghost opp0 = opp;
            let ghost height0 = height;
            curr = curr | (curr_col << (8 * i));
            opp = opp | (opp_col << (8 * i));
            height = height | (height_bit << (8 * i));
            total += row;
            proof {
                let c = i as int;
                let sh = (8 * c) as u64;
                assert(col_slot(curr0, c) == 0 && col_slot(opp0, c) == 0 && col_slot(height0, c)
                    == 0);
                assert((curr0 >> sh) & 0xFF == 0 && (opp0 >> sh) & 0xFF == 0);
                assert(curr == curr0 | (curr_col << ((8 * c) as u64)));
                assert(opp == opp0 | (opp_col << ((8 * c) as u64)));
                assert(height == height0 | (height_bit << ((8 * c) as u64)));
                lemma_place_in_slot(curr0, curr_col, c);
                lemma_place_in_slot(opp0, opp_col, c);
                lemma_place_in_slot(height0, height_bit, c);
                lemma_disjoint_place(curr0, opp0, curr_col, opp_col, sh);
                assert(curr & opp == 0);
                assert(col_slot(height, c) == height_bit);
                assert(slot_height(col_slot(height0, c)) == 0);
                assert forall|c2: int| 0 <= c2 < 7 && c2 != c implies slot_height(
                    #[trigger] col_slot(height, c2),
                ) == slot_height(col_slot(height0, c2)) by {
                }
                assert(total_height(height) == total_height(height0) + row);
                assert forall|c2: int|
                    i + 1 <= c2 < 7 implies #[trigger] col_slot(curr, c2) == 0 by {
                    assert(col_slot(curr0, c2) == 0);
                }
                assert forall|c2: int|
                    i + 1 <= c2 < 7 implies #[trigger] col_slot(opp, c2) == 0 by {
                    assert(col_slot(opp0, c2) == 0);
                    assert(col_slot(opp0 | (opp_col << ((8 * c) as u64)), c2) == col_slot(
                        opp0,
                        c2,
                    ));
                }
                assert forall|c2: int|
                    i + 1 <= c2 < 7 implies #[trigger] col_slot(height, c2) == 0 by {
                    assert(col_slot(height0, c2) == 0);
                }
            }
            i += 1;
        }
        let moves_made = total as i8;
        let r = State { curr_pieces: curr, opp_pieces: opp, height_map: height, moves_made };
        proof {
            lemma_slot_or_all(curr, opp);
            lemma_slot_or_all(curr, height);
            lemma_or_mask(curr, opp);
            lemma_or_mask(curr, height);
            assert forall|c: int| 0 <= c < 7 implies #[trigger] col_slot(curr | opp, c) == (
            col_slot(height, c) - 1) as u64 by {
                assert(col_slot(curr | opp, c) == col_slot(curr, c) | col_slot(opp, c));
            }
            assert(r.wf());

            lemma_eq_by_slots(curr | height, bitboard);

            // uniqueness
            assert forall|s: State|
                (#[trigger] s.wf()) && s.curr_pieces | s.height_map == bitboard implies s
                == r by {
                lemma_unique_decode(s, r, bitboard);
            }
        }
        r
    }

    /// Reads a board text of seven rows, top row first, `'X'` for the
    /// pieces listed as side-to-move, `'O'` for the other side.  Cells
    /// above the first gap of a column are ignored.  When the piece count
    /// is odd the two sides are swapped so that `curr_pieces` always
    /// belongs to the side to move.
    pub fn encode(board: Vec<&str>) -> (r: Self)
        requires
            board@.len() == 7,
            forall|k: int| 0 <= k < 7 ==> (#[trigger] board@[k])@.len() == 7,
        ensures
            r.wf(),
            forall|c: int|
                0 <= c < 7 ==> #[trigger] col_slot(r.height_map, c) == (1u64 << (spec_col_height(
                    board@,
                    c,
                ) as u64)),
            ({
                let x_pieces = if r.moves_made % 2 == 0 {
                    r.curr_pieces
                } else {
                    r.opp_pieces
                };
                forall|c: int, rr: int|
                    #![trigger col_slot(x_pieces, c) >> (rr as u64)]
                    0 <= c < 7 && 0 <= rr < spec_col_height(board@, c) ==> ((col_slot(x_pieces, c)
                        >> (rr as u64)) & 1 == 1 <==> spec_cell_char(board@, c, rr) == 'X')
            }),
    {
        let mut curr: u64 = 0;
        let mut opp: u64 = 0;
        let mut height: u64 = 0;
        let mut total: u32 = 0;
        proof {
            crate::bits::lemma_zero_word();
            assert(forall|c: int| 0 <= c < 7 ==> #[trigger] col_slot(0u64, c) == 0);
            assert(slot_height(0) == 0);
        }
        let mut i: u32 = 0;
        while i < 7
            invariant
                board@.len() == 7,
                forall|k: int| 0 <= k < 7 ==> (#[trigger] board@[k])@.len() == 7,
                i <= 7,
                total <= 7 * i,
                curr & BOARD_MASK == curr,
                opp & BOARD_MASK == opp,
                height & BOARD_MASK == height,
                curr & opp == 0,
                forall|c: int| i <= c < 7 ==> #[trigger] col_slot(curr, c) == 0,
                forall|c: int| i <= c < 7 ==> #[trigger] col_slot(opp, c) == 0,
                forall|c: int| i <= c < 7 ==> #[trigger] col_slot(height, c) == 0,
                forall|c: int|
                    0 <= c < i ==> {
                        &&& is_one_hot8(#[trigger] col_slot(height, c))
                        &&& col_slot(height, c) == (1u64 << (spec_col_height(board@, c) as u64))
                        &&& (col_slot(curr, c) | col_slot(opp, c)) == (col_slot(height, c)
                            - 1) as u64
                        &&& col_slot(curr, c) < 256
                        &&& col_slot(opp, c) < 256
                        &&& forall|rr: int|
                            0 <= rr < spec_col_height(board@, c) ==> ((col_slot(curr, c) >> (
                            rr as u64)) & 1 == 1 <==> spec_cell_char(board@, c, rr) == 'X')
                    },
                total == total_height(height),
            decreases 7 - i,
        {
            let column = encode_column(&board, i);
            let curr_col = column.0;
            let opp_col = column.1;
            let height_bit = column.2;
            let row = column.3;
            let ghost curr0 = curr;
            let ghost opp0 = opp;
            let ghost height0 = height;
            curr = curr | (curr_col << (8 * i));
            opp = opp | (opp_col << (8 * i));
            height = height | (height_bit << (8 * i));
            total += row;
            proof {
                let c = i as int;
                let sh = (8 * c) as u64;
                assert(col_slot(curr0, c) == 0 && col_slot(opp0, c) == 0 && col_slot(height0, c)
                    == 0);
                assert((curr0 >> sh) & 0xFF == 0 && (opp0 >> sh) & 0xFF == 0);
                assert(curr == curr0 | (curr_col << ((8 * c) as u64)));
                assert(opp == opp0 | (opp_col << ((8 * c) as u64)));
                assert(height == height0 | (height_bit << ((8 * c) as u64)));
                lemma_place_in_slot(curr0, curr_col, c);
                lemma_place_in_slot(opp0, opp_col, c);
                lemma_place_in_slot(height0, height_bit, c);
                lemma_disjoint_place(curr0, opp0, curr_col, opp_col, sh);
                assert(curr & opp == 0);
                assert(col_slot(height, c) == height_bit);
                assert(slot_height(col_slot(height0, c)) == 0);
                assert forall|c2: int| 0 <= c2 < 7 && c2 != c implies slot_height(
                    #[trigger] col_slot(height, c2),
                ) == slot_height(col_slot(height0, c2)) by {
                }
                assert(total_height(height) == total_height(height0) + row);
                assert forall|c2: int|
                    i + 1 <= c2 < 7 implies #[trigger] col_slot(curr, c2) == 0 by {
                    assert(col_slot(curr0, c2) == 0);
                }
                assert forall|c2: int|
                    i + 1 <= c2 < 7 implies #[trigger] col_slot(opp, c2) == 0 by {
                    assert(col_slot(opp0, c2) == 0);
                    assert(col_slot(opp0 | (opp_col << ((8 * c) as u64)), c2) == col_slot(
                        opp0,
                        c2,
                    ));
                }
                assert forall|c2: int|
                    i + 1 <= c2 < 7 implies #[trigger] col_slot(height, c2) == 0 by {
                    assert(col_slot(height0, c2) == 0);
                }
            }
            i += 1;
        }
        let moves_made = total as i8;
        proof {
            lemma_slot_or_all(curr, opp);
            lemma_or_mask(curr, opp);
            lemma_slot_or_all(opp, curr);
            assert forall|c: int| 0 <= c < 7 implies #[trigger] col_slot(curr | opp, c) == (
            col_slot(height, c) - 1) as u64 by {
                assert(col_slot(curr | opp, c) == col_slot(curr, c) | col_slot(opp, c));
            }
            assert forall|c: int| 0 <= c < 7 implies #[trigger] col_slot(opp | curr, c) == (
            col_slot(height, c) - 1) as u64 by {
                assert(col_slot(opp | curr, c) == col_slot(opp, c) | col_slot(curr, c));
            }
        }
        proof {
            assert(moves_made & 1 == moves_made % 2) by (bit_vector)
                requires
                    moves_made >= 0,
            ;
        }
        if (moves_made & 1) == 1 {
            let r = Self { curr_pieces: opp, opp_pieces: curr, height_map: height, moves_made };
            proof {
                assert(r.wf());
            }
            r
        } else {
            let r = Self { curr_pieces: curr, opp_pieces: opp, height_map: height, moves_made };
            proof {
                assert(r.wf());
            }
            r
        }
    }

    /// Prints the board as seven lines, top row first: `'X'` for the side
    /// to move, `'O'` for the other side, a space for an empty cell.
    pub fn decode(&self) -> (r: String)
        ensures
            r@.len() == 56,
            forall|i: int| 0 <= i < 56 ==> r@[i] == spec_decode_char(*self, i),
    {
        let mut board_str = String::new();
        let mut d: u32 = 0;
        while d < 7
            invariant
                d <= 7,
                board_str@.len() == 8 * d,
                forall|i: int| 0 <= i < 8 * d ==> #[trigger] board_str@[i] == spec_decode_char(*self, i),
            decreases 7 - d,
        {
            let row = 6 - d;
            let mut c: u32 = 0;
            while c < 7
                invariant
                    d < 7,
                    c <= 7,
                    row == 6 - d,
                    board_str@.len() == 8 * d + c,
                    forall|i: int|
                        0 <= i < 8 * d + c ==> #[trigger] board_str@[i] == spec_decode_char(
                            *self,
                            i,
                        ),
                decreases 7 - c,
            {
                let cell: u64 = 1u64 << (8 * c + row);
                proof {
                    reveal_strlit("X");
                    reveal_strlit("O");
                    reveal_strlit(" ");
                    let i = 8 * d + c;
                    assert(i / 8 == d && i % 8 == c) by (nonlinear_arith)
                        requires
                            0 <= c < 7,
                            0 <= d < 7,
                            i == 8 * d + c,
                    ;
                }
                if self.curr_pieces & cell != 0 {
                    board_str.append("X");
                } else if self.opp_pieces & cell != 0 {
                    board_str.append("O");
                } else {
                    board_str.append(" ");
                }
                c += 1;
            }
            proof {
                reveal_strlit("\n");
                let i = 8 * d + 7;
                assert(i / 8 == d && i % 8 == 7) by (nonlinear_arith)
                    requires
                        0 <= d < 7,
                        i == 8 * d + 7,
                ;
            }
            board_str.append("\n");
            d += 1;
        }
        board_str
    }

    fn allocate() -> (r: Self)
        ensures
            r.curr_pieces == 0 && r.opp_pieces == 0 && r.height_map == 0 && r.moves_made == 0,
    {
        Self {
            curr_pieces: 0,
            opp_pieces: 0,
            height_map: 0,
            moves_made: 0,
        }
    }

    /// The empty board, first player to move.
    pub fn start_state() -> (r: Self)
        ensures
            r.wf(),
            r.curr_pieces == 0,
            r.opp_pieces == 0,
            r.height_map == 0x0001_0101_0101_0101u64,
            r.moves_made == 0,
    {
        let r = Self {
            curr_pieces: 0,
            opp_pieces: 0,
            height_map: 0x0001_0101_0101_0101,
            moves_made: 0,
        };
        proof {
            let h = 0x0001_0101_0101_0101u64;
            assert(h >> 0u64 == h && h & 0xFF == 1 && (h >> 8u64) & 0xFF == 1 && (h >> 16u64) & 0xFF == 1 && (h
                >> 24u64) & 0xFF == 1 && (h >> 32u64) & 0xFF == 1 && (h >> 40u64) & 0xFF == 1 && (h
                >> 48u64) & 0xFF == 1 && h & 0x00FF_FFFF_FFFF_FFFF == h && 1u64 & 0u64 == 0)
                by (bit_vector)
                requires
                    h == 0x0001_0101_0101_0101u64,
            ;
            assert(col_slot(h, 0) == 1 && col_slot(h, 1) == 1 && col_slot(h, 2) == 1 && col_slot(
                h,
                3,
            ) == 1 && col_slot(h, 4) == 1 && col_slot(h, 5) == 1 && col_slot(h, 6) == 1);
            assert(forall|c: int| 0 <= c < 7 ==> #[trigger] col_slot(h, c) == 1);
            assert(is_one_hot8(1));
            assert(slot_height(1) == 0);
            crate::bits::lemma_zero_word();
            assert(forall|c: int| 0 <= c < 7 ==> #[trigger] col_slot(0u64, c) == 0);
            assert(r.wf());
        }
        r
    }

    pub fn play_move(&self, col: u32) -> (r: Self)
        requires
            self.wf(),
            self.col_playable(col),
        ensures
            r == self.spec_play(col),
            r.wf(),
            r.moves_made == self.moves_made + 1,
    {
        proof {
            lemma_play_move(*self, col);
        }
        let next_move = open_row(self.height_map, col);
        Self {
            curr_pieces: self.opp_pieces,
            opp_pieces: self.curr_pieces | next_move,
            height_map: self.height_map + next_move,
            moves_made: self.moves_made + 1,
        }
    }
}

/// The word with one bit set at the lowest empty cell of column `col`
/// (zero or the sentinel bit if the column is full).
pub fn open_row(height_map: u64, col: u32) -> (r: u64)
    requires
        col < 7,
    ensures
        r == spec_open_row(height_map, col),
{
    height_map & (COL_MASK << (8 * col))
}

/// Bit facts about the open cell of a playable column: it is a single bit
/// inside the column's slot, below the sentinel, and not yet occupied.
pub(crate) proof fn lemma_open_row_bits(h: u64, mv: u64, sh: u64)
    requires
        sh == 0 || sh == 8 || sh == 16 || sh == 24 || sh == 32 || sh == 40 || sh == 48,
        h & BOARD_MASK == h,
        mv == h & (0xFFu64 << sh),
        (h >> sh) & 0xFF != 0,
        ((h >> sh) & 0xFF) & vstd::prelude::sub((h >> sh) & 0xFF, 1) == 0,
        mv & IS_LEGAL != 0,
    ensures
        mv != 0,
        mv & (0xFFu64 << sh) == mv,
        mv == ((h >> sh) & 0xFF) << sh,
        (mv >> sh) & 0xFF == (h >> sh) & 0xFF,
        (h >> sh) & 0xFF <= 0x40,
        ((h >> sh) & 0xFF) + ((h >> sh) & 0xFF) < 256,
        (((h >> sh) & 0xFF) + ((h >> sh) & 0xFF)) as u64 & vstd::prelude::sub(
            (((h >> sh) & 0xFF) + ((h >> sh) & 0xFF)) as u64,
            1,
        ) == 0,
{
    assert({
        let hs = (h >> sh) & 0xFF;
        mv != 0 && mv & (0xFFu64 << sh) == mv && mv == hs << sh && (mv >> sh) & 0xFF == hs && hs
            <= 0x40 && hs + hs < 256 && vstd::prelude::add(hs, hs) & vstd::prelude::sub(
            vstd::prelude::add(hs, hs),
            1,
        ) == 0
    }) by (bit_vector)
        requires
            sh == 0 || sh == 8 || sh == 16 || sh == 24 || sh == 32 || sh == 40 || sh == 48,
            h & 0x00FF_FFFF_FFFF_FFFF == h,
            mv == h & (0xFFu64 << sh),
            (h >> sh) & 0xFF != 0,
            ((h >> sh) & 0xFF) & vstd::prelude::sub((h >> sh) & 0xFF, 1) == 0,
            mv & 0x007F_7F7F_7F7F_7F7F != 0,
    ;
}

/// Adding the open-cell bit moves the one-hot height bit of its column up
/// one cell and leaves every other column slot unchanged.
pub(crate) proof fn lemma_add_in_slot_pub(h: u64, mv: u64, h2: u64, sh: u64, s2: u64)
    requires
        sh == 0 || sh == 8 || sh == 16 || sh == 24 || sh == 32 || sh == 40 || sh == 48,
        s2 == 0 || s2 == 8 || s2 == 16 || s2 == 24 || s2 == 32 || s2 == 40 || s2 == 48,
        h & BOARD_MASK == h,
        mv == h & (0xFFu64 << sh),
        mv != 0,
        (h >> sh) & 0xFF <= 0x40,
        h2 == vstd::prelude::add(h, mv),
    ensures
        h + mv <= BOARD_MASK,
        h2 & BOARD_MASK == h2,
        s2 != sh ==> (h2 >> s2) & 0xFF == (h >> s2) & 0xFF,
        s2 != sh ==> h2 & (0xFFu64 << s2) == h & (0xFFu64 << s2),
        s2 == sh ==> (h2 >> s2) & 0xFF == ((h >> sh) & 0xFF) + ((h >> sh) & 0xFF),
{
    assert(vstd::prelude::add(h, mv) <= 0x00FF_FFFF_FFFF_FFFF && h <= vstd::prelude::sub(
        0xFFFF_FFFF_FFFF_FFFFu64,
        mv,
    ) && h2 & 0x00FF_FFFF_FFFF_FFFF == h2 && (s2 != sh ==> (h2 >> s2) & 0xFF == (h >> s2) & 0xFF)
        && (s2 != sh ==> h2 & (0xFFu64 << s2) == h & (0xFFu64 << s2)) && (s2 == sh ==> (h2 >> s2)
        & 0xFF == ((h >> sh) & 0xFF) + ((h >> sh) & 0xFF))) by (bit_vector)
        requires
            sh == 0 || sh == 8 || sh == 16 || sh == 24 || sh == 32 || sh == 40 || sh == 48,
            s2 == 0 || s2 == 8 || s2 == 16 || s2 == 24 || s2 == 32 || s2 == 40 || s2 == 48,
            h & 0x00FF_FFFF_FFFF_FFFF == h,
            mv == h & (0xFFu64 << sh),
            mv != 0,
            (h >> sh) & 0xFF <= 0x40,
            h2 == vstd::prelude::add(h, mv),
    ;
    assert(h + mv <= 0x00FF_FFFF_FFFF_FFFF) by {
        assert(h <= 0xFFFF_FFFF_FFFF_FFFFu64 - mv);
    };
}

/// Merging the open-cell bit into a word changes only its own column slot,
/// where it ors in the single bit.
pub(crate) proof fn lemma_or_in_slot_pub(x: u64, mv: u64, sh: u64, s2: u64)
    requires
        sh == 0 || sh == 8 || sh == 16 || sh == 24 || sh == 32 || sh == 40 || sh == 48,
        s2 == 0 || s2 == 8 || s2 == 16 || s2 == 24 || s2 == 32 || s2 == 40 || s2 == 48,
        mv & (0xFFu64 << sh) == mv,
    ensures
        s2 != sh ==> ((x | mv) >> s2) & 0xFF == (x >> s2) & 0xFF,
        s2 == sh ==> ((x | mv) >> s2) & 0xFF == ((x >> sh) & 0xFF) | ((mv >> sh) & 0xFF),
        x & BOARD_MASK == x ==> (x | mv) & BOARD_MASK == (x | mv),
{
    assert((s2 != sh ==> ((x | mv) >> s2) & 0xFF == (x >> s2) & 0xFF) && (s2 == sh ==> ((x | mv)
        >> s2) & 0xFF == ((x >> sh) & 0xFF) | ((mv >> sh) & 0xFF)) && (x & 0x00FF_FFFF_FFFF_FFFF
        == x ==> (x | mv) & 0x00FF_FFFF_FFFF_FFFF == (x | mv))) by (bit_vector)
        requires
            sh == 0 || sh == 8 || sh == 16 || sh == 24 || sh == 32 || sh == 40 || sh == 48,
            s2 == 0 || s2 == 8 || s2 == 16 || s2 == 24 || s2 == 32 || s2 == 40 || s2 == 48,
            mv & (0xFFu64 << sh) == mv,
    ;
}

/// The open cell of a playable column is vacant, and filling it fills the
/// cell just below the new height bit.
proof fn lemma_move_vacant(occ: u64, h: u64, mv: u64, sh: u64)
    requires
        sh == 0 || sh == 8 || sh == 16 || sh == 24 || sh == 32 || sh == 40 || sh == 48,
        mv == ((h >> sh) & 0xFF) << sh,
        (h >> sh) & 0xFF != 0,
        ((h >> sh) & 0xFF) & vstd::prelude::sub((h >> sh) & 0xFF, 1) == 0,
        ((occ >> sh) & 0xFF) + 1 == (h >> sh) & 0xFF,
        occ & BOARD_MASK == occ,
    ensures
        occ & mv == 0,
        ((occ >> sh) & 0xFF) | ((mv >> sh) & 0xFF) == (((h >> sh) & 0xFF) + ((h >> sh) & 0xFF) - 1),
{
    assert(occ & mv == 0 && (((occ >> sh) & 0xFF) | ((mv >> sh) & 0xFF)) + 1 == ((h >> sh) & 0xFF)
        + ((h >> sh) & 0xFF)) by (bit_vector)
        requires
            sh == 0 || sh == 8 || sh == 16 || sh == 24 || sh == 32 || sh == 40 || sh == 48,
            mv == ((h >> sh) & 0xFF) << sh,
            (h >> sh) & 0xFF != 0,
            ((h >> sh) & 0xFF) & vstd::prelude::sub((h >> sh) & 0xFF, 1) == 0,
            ((occ >> sh) & 0xFF) + 1 == (h >> sh) & 0xFF,
            occ & 0x00FF_FFFF_FFFF_FFFF == occ,
    ;
}

/// Every column slot of a well-formed height map accounts for at most 7
/// pieces, so a board never holds more than 49.
pub proof fn lemma_total_height_le_49(h: u64)
    requires
        height_wf(h),
    ensures
        total_height(h) <= 49,
{
    assert forall|c: int| 0 <= c < 7 implies slot_height(col_slot(h, c)) <= 7 by {
        assert(is_one_hot8(col_slot(h, c)));
        assert(col_slot(h, c) < 256);
        crate::bits::lemma_shift_facts();
        crate::bits::lemma_slot_height_below(col_slot(h, c), 8);
    }
}

/// Playing a legal move preserves the board invariant and adds one piece.
pub proof fn lemma_play_move(s: State, col: u32)
    requires
        s.wf(),
        s.col_playable(col),
    ensures
        ({
            let mv = spec_open_row(s.height_map, col);
            &&& mv != 0
            &&& mv & s.curr_pieces == 0
            &&& mv & s.opp_pieces == 0
            &&& s.height_map + mv <= BOARD_MASK
            &&& s.moves_made < 49
            &&& s.spec_play(col).wf()
            &&& s.spec_play(col).moves_made == s.moves_made + 1
        }),
{
    let h = s.height_map;
    let curr = s.curr_pieces;
    let opp = s.opp_pieces;
    let occ = curr | opp;
    let sh = (8 * col) as u64;
    let hs = col_slot(h, col as int);
    let mv = spec_open_row(h, col);
    assert(hs == (h >> sh) & 0xFF);
    assert(is_one_hot8(hs));
    assert((hs - 1) as u64 == vstd::prelude::sub(hs, 1));
    lemma_open_row_bits(h, mv, sh);

    // the open cell is vacant
    assert(col_slot(occ, col as int) == (hs - 1) as u64);
    assert(((occ >> sh) & 0xFF) + 1 == hs);
    lemma_move_vacant(occ, h, mv, sh);
    assert(occ & mv == 0);
    assert(curr & mv == 0 && opp & mv == 0 && mv & curr == 0 && mv & opp == 0) by (bit_vector)
        requires
            (curr | opp) & mv == 0,
    ;

    // the updated height map
    let h2 = #[verifier::truncate] ((h + mv) as u64);
    assert(h2 == vstd::prelude::add(h, mv));
    lemma_add_in_slot_pub(h, mv, h2, sh, sh);
    assert forall|c2: int| 0 <= c2 < 7 && c2 != col implies col_slot(h2, c2) == col_slot(h, c2) by {
        lemma_add_in_slot_pub(h, mv, h2, sh, (8 * c2) as u64);
    }
    assert(col_slot(h2, col as int) == (hs + hs) as u64);
    assert(height_wf(h2)) by {
        assert forall|c2: int| 0 <= c2 < 7 implies is_one_hot8(#[trigger] col_slot(h2, c2)) by {
            if c2 == col {
                assert(((hs + hs) as u64 - 1) as u64 == vstd::prelude::sub((hs + hs) as u64, 1));
            } else {
                assert(is_one_hot8(col_slot(h, c2)));
            }
        }
    }

    // the updated occupancy
    let occ2 = occ | mv;
    assert(opp | (curr | mv) == occ2 && (curr | mv) | opp == occ2 && opp & (curr | mv) == 0)
        by (bit_vector)
        requires
            occ2 == (curr | opp) | mv,
            curr & opp == 0,
            opp & mv == 0,
    ;
    assert forall|c2: int| 0 <= c2 < 7 implies #[trigger] col_slot(occ2, c2) == (col_slot(h2, c2)
        - 1) as u64 by {
        lemma_or_in_slot_pub(occ, mv, sh, (8 * c2) as u64);
        if c2 == col {
            assert(((occ >> sh) & 0xFF) | ((mv >> sh) & 0xFF) == (hs + hs - 1));
        } else {
            assert(col_slot(occ, c2) == (col_slot(h, c2) - 1) as u64);
        }
    }
    assert(occ2 & BOARD_MASK == occ2) by {
        lemma_or_in_slot_pub(occ, mv, sh, sh);
    }

    // the move count rises by one and stays within the board
    assert(1 <= hs < 0x8000_0000_0000_0000);
    crate::bits::lemma_slot_height_double(hs);
    assert(slot_height(col_slot(h2, col as int)) == slot_height(hs) + 1);
    assert forall|c2: int| 0 <= c2 < 7 && c2 != col implies slot_height(col_slot(h2, c2))
        == slot_height(col_slot(h, c2)) by {
    }
    assert(total_height(h2) == total_height(h) + 1);
    assert(s.moves_made == total_height(h));
    assert(s.moves_made < 49) by {
        crate::bits::lemma_shift_facts();
        crate::bits::lemma_slot_height_below(hs, 7);
        lemma_total_height_le_49(h);
        assert forall|c2: int| 0 <= c2 < 7 && c2 != col implies slot_height(
            #[trigger] col_slot(h, c2),
        ) <= 7 by {
            crate::bits::lemma_shift_facts();
            crate::bits::lemma_slot_height_below(col_slot(h, c2), 8);
        }
        assert(total_height(h) <= 48);
    }
    let r = s.spec_play(col);
    assert(r.curr_pieces == opp && r.opp_pieces == curr | mv && r.height_map == h2);
    assert(r.moves_made == s.moves_made + 1);
    assert(r.curr_pieces | r.opp_pieces == occ2);
    assert(r.wf());
}

/// The popcount form of the board invariant: the pieces of the two sides
/// add up to the move count, and every height-map column slot holds
/// exactly one bit.
pub proof fn lemma_wf_popcount(s: State)
    requires
        s.wf(),
    ensures
        pc64(s.curr_pieces) + pc64(s.opp_pieces) == s.moves_made,
        forall|c: int| 0 <= c < 7 ==> pc64(#[trigger] col_slot(s.height_map, c)) == 1,
{
    let occ = s.curr_pieces | s.opp_pieces;
    let h = s.height_map;
    crate::bits::lemma_pc64_disjoint(s.curr_pieces, s.opp_pieces);
    crate::bits::lemma_pc64_slots(occ);
    crate::bits::lemma_shift_facts();
    assert forall|c: int| 0 <= c < 7 implies pc64(#[trigger] col_slot(occ, c)) == slot_height(
        col_slot(h, c),
    ) by {
        assert(is_one_hot8(col_slot(h, c)));
        assert((col_slot(h, c) - 1) as u64 == vstd::prelude::sub(col_slot(h, c), 1));
        crate::bits::lemma_pc64_below_one_hot(col_slot(h, c));
        assert(col_slot(occ, c) == (col_slot(h, c) - 1) as u64);
    }
    assert(col_slot(occ, 0) == occ & 0xFF && col_slot(occ, 1) == (occ >> 8u64) & 0xFF && col_slot(
        occ,
        2,
    ) == (occ >> 16u64) & 0xFF && col_slot(occ, 3) == (occ >> 24u64) & 0xFF && col_slot(occ, 4) == (
    occ >> 32u64) & 0xFF && col_slot(occ, 5) == (occ >> 40u64) & 0xFF && col_slot(occ, 6) == (occ
        >> 48u64) & 0xFF);
    assert(pc64(col_slot(occ, 0)) == slot_height(col_slot(h, 0)));
    assert(pc64(col_slot(occ, 1)) == slot_height(col_slot(h, 1)));
    assert(pc64(col_slot(occ, 2)) == slot_height(col_slot(h, 2)));
    assert(pc64(col_slot(occ, 3)) == slot_height(col_slot(h, 3)));
    assert(pc64(col_slot(occ, 4)) == slot_height(col_slot(h, 4)));
    assert(pc64(col_slot(occ, 5)) == slot_height(col_slot(h, 5)));
    assert(pc64(col_slot(occ, 6)) == slot_height(col_slot(h, 6)));
    assert(pc64(occ) == total_height(h));
    assert forall|c: int| 0 <= c < 7 implies pc64(#[trigger] col_slot(h, c)) == 1 by {
        assert(is_one_hot8(col_slot(h, c)));
        assert((col_slot(h, c) - 1) as u64 == vstd::prelude::sub(col_slot(h, c), 1));
        crate::bits::lemma_pc64_one_hot(col_slot(h, c));
    }
}

/// A packed board word in which every column slot holds at least its
/// height bit.
pub open spec fn bitboard_wf(b: u64) -> bool {
    b & BOARD_MASK == b && forall|c: int| 0 <= c < 7 ==> #[trigger] col_slot(b, c) != 0
}

/// Splits one nonzero column slot into the pieces of the side to move,
/// the other side's pieces, the height bit and the column height.
fn decode_column(col_bits: u64) -> (r: (u64, u64, u64, u32))
    requires
        1 <= col_bits < 256,
    ensures
        ({
            let (curr_col, opp_col, height_bit, row) = r;
            &&& row <= 7
            &&& height_bit == 1u64 << (row as u64)
            &&& slot_height(height_bit) == row
            &&& is_one_hot8(height_bit)
            &&& height_bit <= col_bits < 2 * height_bit
            &&& curr_col == col_bits & ((height_bit - 1) as u64)
            &&& curr_col & opp_col == 0
            &&& (curr_col | opp_col) == (height_bit - 1) as u64
            &&& (curr_col | height_bit) == col_bits
            &&& curr_col < height_bit
            &&& opp_col < height_bit
        }),
{
    let mut height_bit: u64 = 1;
    let mut row: u32 = 0;
    proof {
        crate::bits::lemma_shift_facts();
        assert(slot_height(1) == 0);
    }
    while height_bit * 2 <= col_bits
        invariant
            1 <= col_bits < 256,
            row <= 7,
            height_bit == 1u64 << (row as u64),
            slot_height(height_bit) == row,
            height_bit <= col_bits,
        decreases 8 - row,
    {
        proof {
            assert((1u64 << ((row + 1) as u64)) == 2 * (1u64 << (row as u64)) && (1u64 << (
            row as u64)) >= 1 && (1u64 << (row as u64)) <= 128 && ((1u64 << (row as u64)) * 2 <= 255
                ==> row + 1 <= 7)) by (bit_vector)
                requires
                    row <= 7,
            ;
            crate::bits::lemma_slot_height_double(height_bit);
        }
        height_bit = height_bit * 2;
        row += 1;
    }
    proof {
        let hb = height_bit;
        assert(hb >= 1 && hb <= 128 && (vstd::prelude::sub(hb, 1) << 1u64) + 1 == 2 * hb - 1 && hb
            & vstd::prelude::sub(hb, 1) == 0 && hb < 256) by (bit_vector)
            requires
                row <= 7,
                hb == 1u64 << (row as u64),
        ;
    }
    let curr_col_mask = height_bit - 1;
    let curr_col = col_bits & curr_col_mask;
    let opp_col = ((curr_col_mask << 1) + 1) - col_bits;
    proof {
        let hb = height_bit;
        let cs = curr_col;
        assert(hb & vstd::prelude::sub(hb, 1) == 0 && hb < 256) by (bit_vector)
            requires
                hb == 1u64 << (row as u64),
                row <= 7,
        ;
        assert((hb - 1) as u64 == vstd::prelude::sub(hb, 1));
        let os = opp_col;
        assert(os == vstd::prelude::sub(vstd::prelude::sub(vstd::prelude::mul(2, hb), 1), col_bits));
        assert({
            &&& cs & os == 0
            &&& (cs | os) == vstd::prelude::sub(hb, 1)
            &&& (cs | hb) == col_bits
            &&& cs < hb
            &&& os < hb
        }) by (bit_vector)
            requires
                hb & vstd::prelude::sub(hb, 1) == 0,
                hb != 0,
                hb < 256,
                hb <= col_bits,
                col_bits < 2 * hb,
                cs == col_bits & vstd::prelude::sub(hb, 1),
                os == vstd::prelude::sub(vstd::prelude::sub(vstd::prelude::mul(2, hb), 1), col_bits),
        ;
    }
    (curr_col, opp_col, height_bit, row)
}

/// The union of two board words stays in the board area, and the union
/// does not depend on the order of its sides.
pub(crate) proof fn lemma_or_mask(x: u64, y: u64)
    requires
        x & BOARD_MASK == x,
        y & BOARD_MASK == y,
    ensures
        (x | y) & BOARD_MASK == (x | y),
        (y | x) == (x | y),
        x & y == 0 ==> y & x == 0,
{
    assert((x | y) & 0x00FF_FFFF_FFFF_FFFF == (x | y) && (y | x) == (x | y) && (x & y == 0 ==> y & x
        == 0)) by (bit_vector)
        requires
            x & 0x00FF_FFFF_FFFF_FFFF == x,
            y & 0x00FF_FFFF_FFFF_FFFF == y,
    ;
}

/// Placing disjoint slot values into an empty column slot keeps the two
/// piece words disjoint.
proof fn lemma_disjoint_place(curr0: u64, opp0: u64, curr_col: u64, opp_col: u64, sh: u64)
    requires
        sh == 0 || sh == 8 || sh == 16 || sh == 24 || sh == 32 || sh == 40 || sh == 48,
        curr0 & opp0 == 0,
        (curr0 >> sh) & 0xFF == 0,
        (opp0 >> sh) & 0xFF == 0,
        curr_col & opp_col == 0,
        curr_col < 256,
        opp_col < 256,
        curr0 & BOARD_MASK == curr0,
        opp0 & BOARD_MASK == opp0,
    ensures
        (curr0 | (curr_col << sh)) & (opp0 | (opp_col << sh)) == 0,
{
    assert((curr0 | (curr_col << sh)) & (opp0 | (opp_col << sh)) == 0) by (bit_vector)
        requires
            curr0 & opp0 == 0,
            (curr0 >> sh) & 0xFF == 0,
            (opp0 >> sh) & 0xFF == 0,
            curr_col & opp_col == 0,
            curr_col < 256,
            opp_col < 256,
            curr0 & 0x00FF_FFFF_FFFF_FFFF == curr0,
            opp0 & 0x00FF_FFFF_FFFF_FFFF == opp0,
            sh == 0 || sh == 8 || sh == 16 || sh == 24 || sh == 32 || sh == 40 || sh == 48,
    ;
}

/// A column slot projected out of a union is the union of the slots.
proof fn lemma_slot_or_all(x: u64, y: u64)
    ensures
        forall|c: int|
            0 <= c < 7 ==> #[trigger] col_slot(x | y, c) == col_slot(x, c) | col_slot(y, c),
{
    assert(forall|s: u64| ((x | y) >> s) & 0xFF == ((x >> s) & 0xFF) | ((y >> s) & 0xFF))
        by (bit_vector);
}

/// Two board words equal on every column slot are equal.
proof fn lemma_eq_by_slots(x: u64, y: u64)
    requires
        x & BOARD_MASK == x,
        y & BOARD_MASK == y,
        forall|c: int| 0 <= c < 7 ==> #[trigger] col_slot(x, c) == col_slot(y, c),
    ensures
        x == y,
{
    assert(col_slot(x, 0) == col_slot(y, 0) && col_slot(x, 1) == col_slot(y, 1) && col_slot(x, 2)
        == col_slot(y, 2) && col_slot(x, 3) == col_slot(y, 3) && col_slot(x, 4) == col_slot(y, 4)
        && col_slot(x, 5) == col_slot(y, 5) && col_slot(x, 6) == col_slot(y, 6));
    assert(x == y) by (bit_vector)
        requires
            x & 0x00FF_FFFF_FFFF_FFFF == x,
            y & 0x00FF_FFFF_FFFF_FFFF == y,
            (x >> 0u64) & 0xFF == (y >> 0u64) & 0xFF,
            (x >> 8u64) & 0xFF == (y >> 8u64) & 0xFF,
            (x >> 16u64) & 0xFF == (y >> 16u64) & 0xFF,
            (x >> 24u64) & 0xFF == (y >> 24u64) & 0xFF,
            (x >> 32u64) & 0xFF == (y >> 32u64) & 0xFF,
            (x >> 40u64) & 0xFF == (y >> 40u64) & 0xFF,
            (x >> 48u64) & 0xFF == (y >> 48u64) & 0xFF,
    ;
}

/// Merging a value below 256 shifted to slot `c` fills exactly that slot.
proof fn lemma_place_in_slot(x: u64, val: u64, c: int)
    requires
        0 <= c < 7,
        val < 256,
        x & BOARD_MASK == x,
        col_slot(x, c) == 0,
    ensures
        (x | (val << ((8 * c) as u64))) & BOARD_MASK == (x | (val << ((8 * c) as u64))),
        col_slot(x | (val << ((8 * c) as u64)), c) == val,
        forall|c2: int|
            0 <= c2 < 7 && c2 != c ==> #[trigger] col_slot(x | (val << ((8 * c) as u64)), c2)
                == col_slot(x, c2),
{
    let sh = (8 * c) as u64;
    let placed = val << sh;
    assert(placed & (0xFFu64 << sh) == placed && (placed >> sh) & 0xFF == val && (x | placed)
        & 0x00FF_FFFF_FFFF_FFFF == (x | placed) && ((x | placed) >> sh) & 0xFF == ((x >> sh) & 0xFF)
        | val && ((x >> sh) & 0xFF) | val == val) by (bit_vector)
        requires
            sh == 0 || sh == 8 || sh == 16 || sh == 24 || sh == 32 || sh == 40 || sh == 48,
            val < 256,
            x & 0x00FF_FFFF_FFFF_FFFF == x,
            (x >> sh) & 0xFF == 0,
            placed == val << sh,
    ;
    assert forall|c2: int|
        0 <= c2 < 7 && c2 != c implies #[trigger] col_slot(x | placed, c2) == col_slot(x, c2) by {
        crate::state::lemma_or_in_slot_pub(x, placed, sh, (8 * c2) as u64);
    }
}

/// A well-formed position is determined by its packed form
/// `curr_pieces | height_map`.
proof fn lemma_unique_decode(s: State, r: State, bitboard: u64)
    requires
        s.wf(),
        r.wf(),
        s.curr_pieces | s.height_map == bitboard,
        r.curr_pieces | r.height_map == bitboard,
    ensures
        s == r,
{
    let s_curr = s.curr_pieces;
    let s_opp = s.opp_pieces;
    let r_curr = r.curr_pieces;
    let r_opp = r.opp_pieces;
    lemma_slot_or_all(s.curr_pieces, s.height_map);
    lemma_slot_or_all(r.curr_pieces, r.height_map);
    lemma_slot_or_all(s.curr_pieces, s.opp_pieces);
    lemma_slot_or_all(r.curr_pieces, r.opp_pieces);
    assert forall|c: int|
        0 <= c < 7 implies #[trigger] col_slot(s.height_map, c) == col_slot(r.height_map, c)
        && col_slot(s.curr_pieces, c) == col_slot(r.curr_pieces, c) && col_slot(s.opp_pieces, c)
        == col_slot(r.opp_pieces, c) by {
        let bs = col_slot(bitboard, c);
        let sh = col_slot(s.height_map, c);
        let sc = col_slot(s.curr_pieces, c);
        let so = col_slot(s.opp_pieces, c);
        let rh = col_slot(r.height_map, c);
        let rc = col_slot(r.curr_pieces, c);
        let ro = col_slot(r.opp_pieces, c);
        let shc = (8 * c) as u64;
        assert((sh - 1) as u64 == vstd::prelude::sub(sh, 1));
        assert((rh - 1) as u64 == vstd::prelude::sub(rh, 1));
        assert(col_slot(s_curr | s_opp, c) == sc | so);
        assert(col_slot(r_curr | r_opp, c) == rc | ro);
        assert((sc | so) == vstd::prelude::sub(sh, 1));
        assert((rc | ro) == vstd::prelude::sub(rh, 1));
        assert(sc == (s_curr >> shc) & 0xFF && so == (s_opp >> shc) & 0xFF);
        assert(rc == (r_curr >> shc) & 0xFF && ro == (r_opp >> shc) & 0xFF);
        assert(sc & so == 0 && sc < 256 && so < 256 && rc & ro == 0 && rc < 256 && ro < 256)
            by (bit_vector)
            requires
                s_curr & s_opp == 0,
                sc == (s_curr >> shc) & 0xFF,
                so == (s_opp >> shc) & 0xFF,
                r_curr & r_opp == 0,
                rc == (r_curr >> shc) & 0xFF,
                ro == (r_opp >> shc) & 0xFF,
        ;
        assert(sh == rh && sc == rc && so == ro) by (bit_vector)
            requires
                sh != 0,
                sh & vstd::prelude::sub(sh, 1) == 0,
                rh != 0,
                rh & vstd::prelude::sub(rh, 1) == 0,
                (sc | so) == vstd::prelude::sub(sh, 1),
                (rc | ro) == vstd::prelude::sub(rh, 1),
                sc & so == 0,
                rc & ro == 0,
                (sc | sh) == bs,
                (rc | rh) == bs,
                sh < 256,
                rh < 256,
                sc < 256,
                rc < 256,
                so < 256,
                ro < 256,
        ;
    }
    assert(s_curr & BOARD_MASK == s_curr && s_opp & BOARD_MASK == s_opp && r_curr & BOARD_MASK
        == r_curr && r_opp & BOARD_MASK == r_opp) by (bit_vector)
        requires
            (s_curr | s_opp) & 0x00FF_FFFF_FFFF_FFFF == (s_curr | s_opp),
            (r_curr | r_opp) & 0x00FF_FFFF_FFFF_FFFF == (r_curr | r_opp),
    ;
    lemma_eq_by_slots(s.height_map, r.height_map);
    lemma_eq_by_slots(s_curr, r_curr);
    lemma_eq_by_slots(s_opp, r_opp);
    assert(s.moves_made == r.moves_made);
}

/// Character of the board text at column `c`, row `rr` counted from the
/// bottom; the text lists rows top first.
pub open spec fn spec_cell_char(board: Seq<&str>, c: int, rr: int) -> char {
    board[6 - rr]@[c]
}

/// The cell holds a piece of either side.
pub open spec fn spec_cell_occupied(board: Seq<&str>, c: int, rr: int) -> bool {
    spec_cell_char(board, c, rr) == 'X' || spec_cell_char(board, c, rr) == 'O'
}

/// First row at or above `rr` of column `c` that holds no piece (7 when
/// the column is full).
pub open spec fn spec_col_height_from(board: Seq<&str>, c: int, rr: nat) -> nat
    decreases 7 - rr,
{
    if rr >= 7 || !spec_cell_occupied(board, c, rr as int) {
        rr
    } else {
        spec_col_height_from(board, c, (rr + 1) as nat)
    }
}

/// Number of pieces stacked in column `c` of the board text, counting the
/// gapless run from the bottom.
pub open spec fn spec_col_height(board: Seq<&str>, c: int) -> nat {
    spec_col_height_from(board, c, 0)
}

/// Reads one column of the board text into slot-local piece bits, the
/// height bit and the height.
fn encode_column(board: &Vec<&str>, c: u32) -> (r: (u64, u64, u64, u32))
    requires
        c < 7,
        board@.len() == 7,
        forall|k: int| 0 <= k < 7 ==> (#[trigger] board@[k])@.len() == 7,
    ensures
        ({
            let (curr_col, opp_col, height_bit, height) = r;
            &&& height == spec_col_height(board@, c as int)
            &&& height <= 7
            &&& height_bit == 1u64 << (height as u64)
            &&& slot_height(height_bit) == height
            &&& is_one_hot8(height_bit)
            &&& curr_col & opp_col == 0
            &&& (curr_col | opp_col) == (height_bit - 1) as u64
            &&& curr_col < height_bit
            &&& opp_col < height_bit
            &&& forall|rr: int|
                0 <= rr < height ==> ((curr_col >> (rr as u64)) & 1 == 1 <==> spec_cell_char(
                    board@,
                    c as int,
                    rr,
                ) == 'X')
        }),
{
    let mut curr_col: u64 = 0;
    let mut opp_col: u64 = 0;
    let mut rr: u32 = 0;
    let mut done = false;
    proof {
        crate::bits::lemma_zero_word();
        crate::bits::lemma_shift_facts();
        assert(slot_height(1) == 0);
    }
    while rr < 7 && !done
        invariant
            c < 7,
            board@.len() == 7,
            forall|k: int| 0 <= k < 7 ==> (#[trigger] board@[k])@.len() == 7,
            rr <= 7,
            !done ==> spec_col_height_from(board@, c as int, 0) == spec_col_height_from(
                board@,
                c as int,
                rr as nat,
            ),
            !done ==> forall|q: int| 0 <= q < rr ==> spec_cell_occupied(board@, c as int, q),
            done ==> rr == spec_col_height(board@, c as int),
            curr_col < (1u64 << (rr as u64)),
            opp_col < (1u64 << (rr as u64)),
            curr_col & opp_col == 0,
            (curr_col | opp_col) == ((1u64 << (rr as u64)) - 1) as u64,
            forall|q: int|
                0 <= q < rr ==> ((curr_col >> (q as u64)) & 1 == 1 <==> spec_cell_char(
                    board@,
                    c as int,
                    q,
                ) == 'X'),
            slot_height(1u64 << (rr as u64)) == rr,
        decreases 8 - rr + (if done {
            0int
        } else {
            1int
        }),
    {
        let piece = board[(6 - rr) as usize].get_char(c as usize);
        let ghost curr0 = curr_col;
        let ghost opp0 = opp_col;
        let ghost sh = rr as u64;
        proof {
            assert((curr0 >> sh) & 1 == 0 && (opp0 >> sh) & 1 == 0 && ((curr0 | (1u64 << sh)) >> sh)
                & 1 == 1 && (curr0 | (1u64 << sh)) & opp0 == 0 && curr0 & (opp0 | (1u64 << sh))
                == 0 && ((curr0 | (1u64 << sh)) | opp0) == ((1u64 << (sh + 1)) - 1) && (curr0 | (
            opp0 | (1u64 << sh))) == ((1u64 << (sh + 1)) - 1) && (curr0 | (1u64 << sh)) < (1u64 << (
            sh + 1)) && (opp0 | (1u64 << sh)) < (1u64 << (sh + 1)) && curr0 < (1u64 << (sh + 1))
                && opp0 < (1u64 << (sh + 1)) && (1u64 << ((sh + 1) as u64)) == 2 * (1u64 << sh)
                && 1u64 << sh >= 1 && 1u64 << sh <= 64) by (bit_vector)
                requires
                    sh <= 6,
                    curr0 < (1u64 << sh),
                    opp0 < (1u64 << sh),
                    curr0 & opp0 == 0,
                    (curr0 | opp0) == vstd::prelude::sub(1u64 << sh, 1),
            ;
            crate::bits::lemma_slot_height_double(1u64 << sh);
        }
        if piece == 'X' {
            curr_col = curr_col | (1u64 << rr);
            proof {
                assert(spec_cell_char(board@, c as int, rr as int) == 'X');
                assert forall|q: int|
                    0 <= q <= rr implies (((curr_col >> (q as u64)) & 1 == 1) <==> spec_cell_char(
                    board@,
                    c as int,
                    q,
                ) == 'X') by {
                    let qu = q as u64;
                    if q < rr {
                        assert(((curr0 | (1u64 << sh)) >> qu) & 1 == (curr0 >> qu) & 1)
                            by (bit_vector)
                            requires
                                qu < sh,
                        ;
                    }
                }
            }
            rr += 1;
        } else if piece == 'O' {
            opp_col = opp_col | (1u64 << rr);
            proof {
                assert(spec_cell_char(board@, c as int, rr as int) == 'O');
                assert forall|q: int|
                    0 <= q <= rr implies (((curr_col >> (q as u64)) & 1 == 1) <==> spec_cell_char(
                    board@,
                    c as int,
                    q,
                ) == 'X') by {
                }
            }
            rr += 1;
        } else {
            done = true;
            proof {
                assert(!spec_cell_occupied(board@, c as int, rr as int));
                assert(spec_col_height_from(board@, c as int, rr as nat) == rr);
            }
        }
    }
    proof {
        if !done {
            assert(rr == 7);
            assert(spec_col_height_from(board@, c as int, 7) == 7);
        }
        assert((1u64 << (rr as u64)) >= 1 && (1u64 << (rr as u64)) < 256 && (1u64 << (rr as u64))
            & vstd::prelude::sub(1u64 << (rr as u64), 1) == 0) by (bit_vector)
            requires
                rr <= 7,
        ;
    }
    (curr_col, opp_col, 1u64 << rr, rr)
}

/// Character `i` of the printed board: seven lines top row first, each
/// seven cells and a line break.
pub open spec fn spec_decode_char(s: State, i: int) -> char {
    let line = i / 8;
    let c = i % 8;
    if c == 7 {
        '\n'
    } else {
        let rr = 6 - line;
        let cell = 1u64 << ((8 * c + rr) as u64);
        if s.curr_pieces & cell != 0 {
            'X'
        } else if s.opp_pieces & cell != 0 {
            'O'
        } else {
            ' '
        }
    }
}

/// `child` is `parent` after one legal move.
pub open spec fn is_child_of(parent: State, child: State) -> bool {
    exists|c: u32| parent.col_playable(c) && #[trigger] parent.spec_play(c) == child
}

impl State {
    /// All positions one ply away, visited in the center-out default order.
    pub fn next_states(&self) -> (r: Vec<State>)
        requires
            self.wf(),
        ensures
            r@.len() <= 7,
            r@.len() == crate::engine::spec_legal_moves(
                crate::engine::DEFAULT_MOVE_ORDER,
                self.height_map,
            ).len(),
            forall|k: int|
                0 <= k < r@.len() ==> #[trigger] r@[k] == self.spec_play(
                    crate::engine::spec_legal_moves(
                        crate::engine::DEFAULT_MOVE_ORDER,
                        self.height_map,
                    )[k].0,
                ),
            forall|k: int|
                0 <= k < r@.len() ==> (#[trigger] r@[k]).wf() && r@[k].moves_made
                    == self.moves_made + 1,
            forall|k: int| 0 <= k < r@.len() ==> is_child_of(*self, #[trigger] r@[k]),
            forall|c: u32|
                #[trigger] self.col_playable(c) ==> exists|k: int|
                    0 <= k < r@.len() && r@[k] == self.spec_play(c),
    {
        proof {
            crate::engine::lemma_default_order_fields();
        }
        let legal_moves = crate::engine::next_legal_moves(
            crate::engine::DEFAULT_MOVE_ORDER,
            self.height_map,
        );
        let mut states: Vec<State> = Vec::new();
        let mut k: usize = 0;
        while k < legal_moves.len()
            invariant
                self.wf(),
                k <= legal_moves@.len(),
                legal_moves@.len() <= 7,
                states@.len() == k,
                legal_moves@ == crate::engine::spec_legal_moves(
                    crate::engine::DEFAULT_MOVE_ORDER,
                    self.height_map,
                ),
                forall|q: int|
                    0 <= q < legal_moves@.len() ==> (#[trigger] legal_moves@[q]).0 < 7
                        && legal_moves@[q].1 == spec_open_row(self.height_map, legal_moves@[q].0)
                        && legal_moves@[q].1 & IS_LEGAL != 0,
                forall|q: int|
                    0 <= q < k ==> #[trigger] states@[q] == self.spec_play(legal_moves@[q].0),
                forall|q: int|
                    0 <= q < k ==> (#[trigger] states@[q]).wf() && states@[q].moves_made
                        == self.moves_made + 1,
            decreases legal_moves@.len() - k,
        {
            let col = legal_moves[k].0;
            let next_state = self.play_move(col);
            states.push(next_state);
            k += 1;
        }
        proof {
            assert forall|c: u32| #[trigger] self.col_playable(c) implies exists|k2: int|
                0 <= k2 < states@.len() && states@[k2] == self.spec_play(c) by {
                let i0 = crate::engine::lemma_default_field_for(c);
                crate::engine::lemma_legal_moves_complete(
                    crate::engine::DEFAULT_MOVE_ORDER,
                    self.height_map,
                    0,
                    i0,
                );
                let q = choose|q: int|
                    0 <= q < legal_moves@.len() && legal_moves@[q] == (
                        c,
                        spec_open_row(self.height_map, c),
                    );
                assert(states@[q] == self.spec_play(c));
            }
            assert forall|k2: int| 0 <= k2 < states@.len() implies is_child_of(
                *self,
                #[trigger] states@[k2],
            ) by {
                let c = legal_moves@[k2].0;
                assert(self.col_playable(c) && self.spec_play(c) == states@[k2]);
            }
        }
        states
    }

    /// Records this position's fingerprint and, when neither the depth
    /// budget is spent nor the previous mover has already won, those of
    /// the positions reachable below it.  A fingerprint already in the
    /// set is not expanded again.
    fn generate_states_rec(&self, depth: usize, states: &mut HashSet<u64>)
        requires
            self.wf(),
        ensures
            old(states)@ <= final(states)@,
            final(states)@.contains(self.spec_to_bitboard()),
        decreases depth,
    {
        let state_bitboard = self.to_bitboard();
        if states.insert(state_bitboard) {
            if depth == 0 || crate::engine::is_win(self.opp_pieces) {
                return ;
            }
            let next_states = self.next_states();
            let mut k: usize = 0;
            while k < next_states.len()
                invariant
                    k <= next_states@.len(),
                    depth >= 1,
                    forall|q: int| 0 <= q < next_states@.len() ==> (#[trigger] next_states@[q]).wf(),
                    states@.contains(self.spec_to_bitboard()),
                    old(states)@ <= states@,
                decreases next_states@.len() - k,
            {
                next_states[k].generate_states_rec(depth - 1, states);
                k += 1;
            }
        }
    }

    /// The set of fingerprints of the positions reachable from this one
    /// within `depth` plies, descent stopping at already-won positions.
    pub fn generate_states(&self, depth: usize) -> (r: HashSet<u64>)
        requires
            self.wf(),
        ensures
            r@.contains(self.spec_to_bitboard()),
    {
        let mut states: HashSet<u64> = HashSet::new();
        self.generate_states_rec(depth, &mut states);
        states
    }
}

/// A well-formed position's fingerprint is never the zero word: the
/// height map always contributes a bit, on both sides of the reflection.
pub proof fn lemma_fingerprint_nonzero(s: State)
    requires
        s.wf(),
    ensures
        spec_state_bitboard(s.curr_pieces, s.height_map) != 0,
{
    let h = s.height_map;
    let curr = s.curr_pieces;
    let b = curr | h;
    let rb = spec_reflect(b);
    assert(is_one_hot8(col_slot(h, 0)));
    assert(h & 0xFF != 0) by {
        crate::bits::lemma_shift_facts();
        assert(col_slot(h, 0) == (h >> 0u64) & 0xFF);
    }
    assert(b != 0 && rb != 0) by (bit_vector)
        requires
            h & 0xFF != 0,
            b == curr | h,
            rb == ((b & 0xFF) << 48) | (((b >> 8) & 0xFF) << 40) | (((b >> 16) & 0xFF) << 32) | (((b
                >> 24) & 0xFF) << 24) | (((b >> 32) & 0xFF) << 16) | (((b >> 40) & 0xFF) << 8) | ((b
                >> 48) & 0xFF),
    ;
}

/// After any play the piece counts of the two sides add up to the new
/// move count, and every height-map column slot still holds exactly one
/// bit.
pub proof fn lemma_play_popcount(s: State, col: u32)
    requires
        s.wf(),
        s.col_playable(col),
    ensures
        pc64(s.spec_play(col).curr_pieces) + pc64(s.spec_play(col).opp_pieces) == s.moves_made + 1,
        forall|c: int|
            0 <= c < 7 ==> pc64(#[trigger] col_slot(s.spec_play(col).height_map, c)) == 1,
{
    lemma_play_move(s, col);
    lemma_wf_popcount(s.spec_play(col));
}

} // verus!
