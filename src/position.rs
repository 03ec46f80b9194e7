//! The packed position: sixteen exponent bytes in two 64-bit lanes.
//!
//! Cell `(row, col)` has the row-major index `i = 4 * row + col`. Cells 0..8
//! (rows 0 and 1) live in the first lane, cells 8..16 (rows 2 and 3) in the
//! second; within its lane, cell `i` occupies the byte at bit offset
//! `8 * (i % 8)`, so the least significant byte of the first lane is the
//! top-left cell.
use crate::tile::{
    exponent_of, exponent_to_tile, is_valid_exponent, is_valid_tile,
    tile_to_exponent, tile_value, valid_exponent, valid_tile,
};
use vstd::prelude::*;

verus! {

/// Why a grid, a packed position or a textual grid was refused.
#[derive(Debug, Clone, Copy, PartialEq, Eq, Structural)]
pub enum CodecError {
    /// The cell at `index` (row-major) holds a value that is not a valid tile.
    InvalidTile { index: usize, value: u32 },
    /// The byte of the cell at `index` (row-major) is not a valid exponent.
    InvalidExponent { index: usize, exponent: u8 },
    /// A textual grid does not hold exactly sixteen unsigned integers.
    MalformedInput,
}

/// A packed position: the first lane holds rows 0 and 1, the second rows 2
/// and 3, one exponent byte per cell.
#[derive(Debug, Clone, Copy, PartialEq, Eq, Structural)]
pub struct Position(pub u64, pub u64);

/// Byte `k` (0 is the least significant) of a lane.
pub open spec fn lane_byte(x: u64, k: int) -> u8 {
    ((x >> ((8 * k) as u64)) & 0xff) as u8
}

/// The row-major index of cell `(row, col)`.
pub open spec fn cell_index(row: int, col: int) -> int {
    4 * row + col
}

impl View for Position {
    type V = Seq<u8>;

    /// The sixteen exponent bytes, in row-major order.
    open spec fn view(&self) -> Seq<u8> {
        Seq::new(
            16,
            |i: int|
                if i < 8 {
                    lane_byte(self.0, i)
                } else {
                    lane_byte(self.1, i - 8)
                },
        )
    }
}

/// Every cell of a grid holds a valid tile.
pub open spec fn all_valid_tiles(g: Seq<u32>) -> bool {
    forall|i: int| 0 <= i < g.len() ==> valid_tile(#[trigger] g[i] as int)
}

/// Every byte of a packed position is a valid exponent.
pub open spec fn all_valid_exponents(s: Seq<u8>) -> bool {
    forall|i: int| 0 <= i < s.len() ==> valid_exponent(#[trigger] s[i] as int)
}

/// The exponent bytes of a grid, cell by cell.
pub open spec fn packed_cells(g: Seq<u32>) -> Seq<u8> {
    Seq::new(g.len(), |i: int| exponent_of(g[i] as int) as u8)
}

/// The tile values of a sequence of exponent bytes, cell by cell.
pub open spec fn unpacked_cells(s: Seq<u8>) -> Seq<u32> {
    Seq::new(s.len(), |i: int| tile_value(s[i] as nat) as u32)
}

/// `e` reports the first cell of `g`, in row-major order, that is not a valid tile.
pub open spec fn first_invalid_tile(g: Seq<u32>, e: CodecError) -> bool {
    match e {
        CodecError::InvalidTile { index, value } => index < g.len() && value == g[index as int]
            && !valid_tile(value as int) && forall|j: int|
            0 <= j < index ==> valid_tile(#[trigger] g[j] as int),
        _ => false,
    }
}

/// `e` reports the first byte of `s`, in row-major order, that is not a valid exponent.
pub open spec fn first_invalid_exponent(s: Seq<u8>, e: CodecError) -> bool {
    match e {
        CodecError::InvalidExponent { index, exponent } => index < s.len() && exponent
            == s[index as int] && !valid_exponent(exponent as int) && forall|j: int|
            0 <= j < index ==> valid_exponent(#[trigger] s[j] as int),
        _ => false,
    }
}

/// Writes byte `k` of a lane, keeping the others.
proof fn lemma_set_lane_byte(x: u64, k: u64, j: u64, e: u64)
    requires
        k < 8,
        j < 8,
        e < 256,
    ensures
        (((x & !(0xffu64 << (8 * k))) | (e << (8 * k))) >> (8 * j)) & 0xff == if j == k {
            e
        } else {
            (x >> (8 * j)) & 0xff
        },
{
    assert((((x & !(0xffu64 << (8 * k))) | (e << (8 * k))) >> (8 * j)) & 0xff == if j == k {
        e
    } else {
        (x >> (8 * j)) & 0xff
    }) by (bit_vector)
        requires
            k < 8,
            j < 8,
            e < 256,
    ;
}

/// Every byte of a zero lane is zero.
proof fn lemma_zero_lane_byte(k: u64)
    requires
        k < 8,
    ensures
        (0u64 >> (8 * k)) & 0xff == 0,
{
    assert((0u64 >> (8 * k)) & 0xff == 0) by (bit_vector);
}

/// The masked byte of a lane fits in a byte.
proof fn lemma_byte_bound(x: u64, k: u64)
    ensures
        (x >> k) & 0xff <= 0xff,
{
    assert((x >> k) & 0xff <= 0xff) by (bit_vector);
}

/// Equal bytes of two lanes, as masked shifts.
proof fn lemma_byte_eq(x: u64, y: u64, k: u64)
    requires
        k < 8,
        lane_byte(x, k as int) == lane_byte(y, k as int),
    ensures
        (x >> (8 * k)) & 0xff == (y >> (8 * k)) & 0xff,
{
    lemma_byte_bound(x, (8 * k) as u64);
    lemma_byte_bound(y, (8 * k) as u64);
}

/// A lane is determined by its eight bytes.
proof fn lemma_lane_from_bytes(x: u64, y: u64)
    requires
        forall|k: int| 0 <= k < 8 ==> #[trigger] lane_byte(x, k) == lane_byte(y, k),
    ensures
        x == y,
{
    lemma_byte_eq(x, y, 0);
    lemma_byte_eq(x, y, 1);
    lemma_byte_eq(x, y, 2);
    lemma_byte_eq(x, y, 3);
    lemma_byte_eq(x, y, 4);
    lemma_byte_eq(x, y, 5);
    lemma_byte_eq(x, y, 6);
    lemma_byte_eq(x, y, 7);
    assert(x == y) by (bit_vector)
        requires
            (x >> 0) & 0xff == (y >> 0) & 0xff,
            (x >> 8) & 0xff == (y >> 8) & 0xff,
            (x >> 16) & 0xff == (y >> 16) & 0xff,
            (x >> 24) & 0xff == (y >> 24) & 0xff,
            (x >> 32) & 0xff == (y >> 32) & 0xff,
            (x >> 40) & 0xff == (y >> 40) & 0xff,
            (x >> 48) & 0xff == (y >> 48) & 0xff,
            (x >> 56) & 0xff == (y >> 56) & 0xff,
    ;
}

/// Two positions with the same exponent bytes are the same position.
pub proof fn lemma_view_injective(p: Position, q: Position)
    requires
        p@ == q@,
    ensures
        p == q,
{
    assert forall|k: int| 0 <= k < 8 implies #[trigger] lane_byte(p.0, k) == lane_byte(q.0, k) by {
        assert(p@[k] == lane_byte(p.0, k));
        assert(q@[k] == lane_byte(q.0, k));
    }
    assert forall|k: int| 0 <= k < 8 implies #[trigger] lane_byte(p.1, k) == lane_byte(q.1, k) by {
        assert(p@[k + 8] == lane_byte(p.1, k));
        assert(q@[k + 8] == lane_byte(q.1, k));
    }
    lemma_lane_from_bytes(p.0, q.0);
    lemma_lane_from_bytes(p.1, q.1);
}

/// The source cell of cell `i` after `k` clockwise quarter turns, for `k`
/// in `0..4`: output cell `(row, col)` takes the cell that sat at
/// `(3 - col, row)` after one turn, `(3 - row, 3 - col)` after two and
/// `(col, 3 - row)` after three.
pub open spec fn rotation_source(k: int, i: int) -> int {
    let row = i / 4;
    let col = i % 4;
    if k == 0 {
        i
    } else if k == 1 {
        4 * (3 - col) + row
    } else if k == 2 {
        4 * (3 - row) + (3 - col)
    } else {
        4 * col + (3 - row)
    }
}

/// The cells of `s` rotated clockwise by `n` quarter turns, `n` taken modulo 4.
pub open spec fn rotate_cells(s: Seq<u8>, n: int) -> Seq<u8> {
    Seq::new(s.len(), |i: int| s[rotation_source(n % 4, i)])
}

/// Every source cell is a cell.
proof fn lemma_rotation_source_in_range(k: int, i: int)
    requires
        0 <= k < 4,
        0 <= i < 16,
    ensures
        0 <= rotation_source(k, i) < 16,
{
}

/// The byte permutation for `k` clockwise quarter turns: entry `i` is the
/// cell whose byte moves to cell `i`.
fn rotation_table(k: u8) -> (t: [u8; 16])
    requires
        k < 4,
    ensures
        forall|i: int| 0 <= i < 16 ==> #[trigger] t@[i] as int == rotation_source(k as int, i),
{
    let t: [u8; 16] = if k == 0 {
        [0, 1, 2, 3, 4, 5, 6, 7, 8, 9, 10, 11, 12, 13, 14, 15]
    } else if k == 1 {
        [12, 8, 4, 0, 13, 9, 5, 1, 14, 10, 6, 2, 15, 11, 7, 3]
    } else if k == 2 {
        [15, 14, 13, 12, 11, 10, 9, 8, 7, 6, 5, 4, 3, 2, 1, 0]
    } else {
        [3, 7, 11, 15, 2, 6, 10, 14, 1, 5, 9, 13, 0, 4, 8, 12]
    };
    assert forall|i: int| 0 <= i < 16 implies #[trigger] t@[i] as int == rotation_source(
        k as int,
        i,
    ) by {
        if i == 0 {
        } else if i == 1 {
        } else if i == 2 {
        } else if i == 3 {
        } else if i == 4 {
        } else if i == 5 {
        } else if i == 6 {
        } else if i == 7 {
        } else if i == 8 {
        } else if i == 9 {
        } else if i == 10 {
        } else if i == 11 {
        } else if i == 12 {
        } else if i == 13 {
        } else if i == 14 {
        } else {
        }
    }
    t
}

impl Position {
    /// The empty position: every byte is zero.
    pub fn empty() -> (r: Position)
        ensures
            r@ == Seq::new(16, |i: int| 0u8),
    {
        let r = Position(0, 0);
        assert forall|k: u64| k < 8 implies lane_byte(0, k as int) == 0 by {
            lemma_zero_lane_byte(k);
        }
        assert(r@ =~= Seq::new(16, |i: int| 0u8)) by {
            assert forall|i: int| 0 <= i < 16 implies r@[i] == 0u8 by {
                if i < 8 {
                    assert(lane_byte(0, (i as u64) as int) == 0);
                } else {
                    assert(lane_byte(0, ((i - 8) as u64) as int) == 0);
                }
            }
        }
        r
    }

    /// The byte of cell `i`, in row-major order.
    fn byte_at(&self, i: usize) -> (r: u8)
        requires
            i < 16,
        ensures
            r == self@[i as int],
    {
        let (lane, k) = if i < 8 {
            (self.0, i)
        } else {
            (self.1, i - 8)
        };
        let shift: u64 = 8 * (k as u64);
        ((lane >> shift) & 0xff) as u8
    }

    /// Overwrites the byte of cell `i`, keeping every other cell.
    fn set_byte(&mut self, i: usize, e: u8)
        requires
            i < 16,
        ensures
            final(self)@ == old(self)@.update(i as int, e),
    {
        let ghost before = *self;
        let k: u64 = if i < 8 {
            i as u64
        } else {
            (i - 8) as u64
        };
        let shift: u64 = 8 * k;
        if i < 8 {
            self.0 = (self.0 & !(0xffu64 << shift)) | ((e as u64) << shift);
        } else {
            self.1 = (self.1 & !(0xffu64 << shift)) | ((e as u64) << shift);
        }
        proof {
            assert forall|j: int| 0 <= j < 16 implies #[trigger] self@[j] == before@.update(
                i as int,
                e,
            )[j] by {
                if j < 8 {
                    lemma_set_lane_byte(before.0, k, j as u64, e as u64);
                } else {
                    lemma_set_lane_byte(before.1, k, (j - 8) as u64, e as u64);
                }
            }
            assert(self@ =~= before@.update(i as int, e));
        }
    }

    /// The exponent byte of cell `(row, col)`.
    pub fn exponent_at(&self, row: usize, col: usize) -> (r: u8)
        requires
            row < 4,
            col < 4,
        ensures
            r == self@[cell_index(row as int, col as int)],
    {
        self.byte_at(row * 4 + col)
    }

    /// The tile value of cell `(row, col)`, whose byte must be a valid exponent.
    pub fn tile_at(&self, row: usize, col: usize) -> (r: u32)
        requires
            row < 4,
            col < 4,
            valid_exponent(self@[cell_index(row as int, col as int)] as int),
        ensures
            r == tile_value(self@[cell_index(row as int, col as int)] as nat),
    {
        exponent_to_tile(self.exponent_at(row, col))
    }

    /// Sets the exponent byte of cell `(row, col)` to `e`, keeping every other cell.
    pub fn set_exponent(&mut self, row: usize, col: usize, e: u8)
        requires
            row < 4,
            col < 4,
        ensures
            final(self)@ == old(self)@.update(cell_index(row as int, col as int), e),
    {
        self.set_byte(row * 4 + col, e)
    }

    /// Sets cell `(row, col)` to the valid tile `tile`, keeping every other cell.
    pub fn set_tile(&mut self, row: usize, col: usize, tile: u32)
        requires
            row < 4,
            col < 4,
            valid_tile(tile as int),
        ensures
            final(self)@ == old(self)@.update(
                cell_index(row as int, col as int),
                exponent_of(tile as int) as u8,
            ),
    {
        self.set_exponent(row, col, tile_to_exponent(tile))
    }

    /// Checks every cell's byte. `Ok` exactly when all sixteen are valid
    /// exponents; otherwise the first invalid cell in row-major order.
    pub fn validate_position(&self) -> (r: Result<(), CodecError>)
        ensures
            r is Ok <==> all_valid_exponents(self@),
            r matches Err(e) ==> first_invalid_exponent(self@, e),
    {
        let mut i: usize = 0;
        while i < 16
            invariant
                i <= 16,
                forall|j: int| 0 <= j < i ==> valid_exponent(#[trigger] self@[j] as int),
            decreases 16 - i,
        {
            let e = self.byte_at(i);
            if !is_valid_exponent(e) {
                return Err(CodecError::InvalidExponent { index: i, exponent: e });
            }
            i = i + 1;
        }
        Ok(())
    }

    /// Packs a row-major grid of tile values. `Ok` exactly when every cell
    /// holds a valid tile, with each cell's byte its exponent; otherwise the
    /// first invalid cell in row-major order.
    pub fn from_list(list: [u32; 16]) -> (r: Result<Position, CodecError>)
        ensures
            r is Ok <==> all_valid_tiles(list@),
            r matches Ok(p) ==> p@ == packed_cells(list@),
            r matches Err(e) ==> first_invalid_tile(list@, e),
    {
        let mut p = Position::empty();
        let mut i: usize = 0;
        while i < 16
            invariant
                i <= 16,
                forall|j: int| 0 <= j < i ==> valid_tile(#[trigger] list@[j] as int),
                forall|j: int| 0 <= j < i ==> #[trigger] p@[j] == exponent_of(list@[j] as int) as u8,
                forall|j: int| i <= j < 16 ==> #[trigger] p@[j] == 0u8,
            decreases 16 - i,
        {
            let tile = list[i];
            if !is_valid_tile(tile) {
                return Err(CodecError::InvalidTile { index: i, value: tile });
            }
            p.set_tile(i / 4, i % 4, tile);
            i = i + 1;
        }
        assert(p@ =~= packed_cells(list@));
        Ok(p)
    }

    /// Unpacks into a row-major grid of tile values. `Ok` exactly when every
    /// byte is a valid exponent, with each cell its tile value; otherwise the
    /// first invalid cell in row-major order.
    pub fn to_list(&self) -> (r: Result<[u32; 16], CodecError>)
        ensures
            r is Ok <==> all_valid_exponents(self@),
            r matches Ok(g) ==> g@ == unpacked_cells(self@),
            r matches Err(e) ==> first_invalid_exponent(self@, e),
    {
        let mut g: [u32; 16] = [0u32; 16];
        let mut i: usize = 0;
        while i < 16
            invariant
                i <= 16,
                g@.len() == 16,
                forall|j: int| 0 <= j < i ==> valid_exponent(#[trigger] self@[j] as int),
                forall|j: int| 0 <= j < i ==> #[trigger] g@[j] == tile_value(self@[j] as nat) as u32,
            decreases 16 - i,
        {
            let e = self.byte_at(i);
            if !is_valid_exponent(e) {
                return Err(CodecError::InvalidExponent { index: i, exponent: e });
            }
            g[i] = exponent_to_tile(e);
            i = i + 1;
        }
        assert(g@ =~= unpacked_cells(self@));
        Ok(g)
    }

    /// Rotates the grid clockwise by `quarter_turns` quarter turns, taken
    /// modulo 4 (so `-1` is three turns). The bytes are permuted by one
    /// fixed table per turn count and are never decoded.
    pub fn rotate(&self, quarter_turns: i64) -> (r: Position)
        ensures
            r@ == rotate_cells(self@, quarter_turns as int),
    {
        let m: i64 = quarter_turns % 4;
        let k: u8 = if m < 0 {
            (m + 4) as u8
        } else {
            m as u8
        };
        assert(k as int == quarter_turns as int % 4);
        let table = rotation_table(k);
        let mut r = Position::empty();
        let mut i: usize = 0;
        while i < 16
            invariant
                i <= 16,
                k < 4,
                forall|j: int| 0 <= j < 16 ==> #[trigger] table@[j] as int == rotation_source(k as int, j),
                forall|j: int| 0 <= j < i ==> #[trigger] r@[j] == self@[rotation_source(k as int, j)],
            decreases 16 - i,
        {
            let src = table[i];
            proof {
                lemma_rotation_source_in_range(k as int, i as int);
            }
            let b = self.byte_at(src as usize);
            r.set_byte(i, b);
            i = i + 1;
        }
        assert(r@ =~= rotate_cells(self@, quarter_turns as int));
        r
    }
}

} // verus!
