//! The tile codec: a tile value (0 or `2^k`) and its exponent byte.
use vstd::arithmetic::power2::{lemma2_to64, lemma_pow2_strictly_increases, pow2};
use vstd::prelude::*;

verus! {

/// The largest exponent a tile may have: `2^17` is the largest tile that
/// can appear on a 4×4 board.
pub const MAX_EXPONENT: u8 = 17;

/// The tile value that an exponent stands for.
pub open spec fn tile_value(e: nat) -> nat {
    if e == 0 {
        0
    } else {
        pow2(e)
    }
}

/// An exponent in the range the codec accepts.
pub open spec fn valid_exponent(e: int) -> bool {
    0 <= e <= MAX_EXPONENT
}

/// A tile value is 0 or a power of two whose exponent is in range.
pub open spec fn valid_tile(v: int) -> bool {
    exists|e: nat| valid_exponent(e as int) && #[trigger] tile_value(e) == v
}

/// The exponent of a valid tile.
pub open spec fn exponent_of(v: int) -> nat
    recommends
        valid_tile(v),
{
    choose|e: nat| valid_exponent(e as int) && #[trigger] tile_value(e) == v
}

/// Distinct exponents in range give distinct tiles.
pub proof fn lemma_tile_value_injective(a: nat, b: nat)
    requires
        valid_exponent(a as int),
        valid_exponent(b as int),
        tile_value(a) == tile_value(b),
    ensures
        a == b,
{
    if a != b {
        if a == 0 || b == 0 {
            lemma2_to64();
            vstd::arithmetic::power2::lemma_pow2_pos(a);
            vstd::arithmetic::power2::lemma_pow2_pos(b);
        } else if a < b {
            lemma_pow2_strictly_increases(a, b);
        } else {
            lemma_pow2_strictly_increases(b, a);
        }
    }
}

/// The exponent of a valid tile is the one exponent in range that gives it.
pub proof fn lemma_exponent_of(v: int, e: nat)
    requires
        valid_exponent(e as int),
        tile_value(e) == v,
    ensures
        valid_tile(v),
        exponent_of(v) == e,
{
    assert(valid_tile(v));
    lemma_tile_value_injective(exponent_of(v), e);
}

/// Whether `e` is an exponent the codec accepts.
pub fn is_valid_exponent(e: u8) -> (r: bool)
    ensures
        r == valid_exponent(e as int),
{
    e <= MAX_EXPONENT
}

/// The tile value of an exponent in range: 0 for 0, `2^e` otherwise.
pub fn exponent_to_tile(e: u8) -> (r: u32)
    requires
        valid_exponent(e as int),
    ensures
        r == tile_value(e as nat),
{
    if e == 0 {
        0
    } else {
        proof {
            lemma2_to64();
        }
        let r: u32 = 1u32 << e;
        assert(r == pow2(e as nat)) by {
            vstd::bits::lemma_u32_shl_is_mul(1u32, e as u32);
            vstd::bits::lemma_u32_pow2_no_overflow(e as nat);
        }
        r
    }
}

/// The exponent of a valid tile value.
pub fn tile_to_exponent(tile: u32) -> (r: u8)
    requires
        valid_tile(tile as int),
    ensures
        valid_exponent(r as int),
        tile_value(r as nat) == tile,
        r == exponent_of(tile as int),
{
    let mut k: u8 = 0;
    while k < MAX_EXPONENT
        invariant
            k <= MAX_EXPONENT,
            valid_tile(tile as int),
            forall|j: nat| j < k ==> tile_value(j) != tile,
        decreases MAX_EXPONENT - k,
    {
        if exponent_to_tile(k) == tile {
            proof {
                lemma_exponent_of(tile as int, k as nat);
            }
            return k;
        }
        k = k + 1;
    }
    proof {
        let e = exponent_of(tile as int);
        assert(tile_value(e) == tile);
        if e < k {
            assert(tile_value(e) != tile);
        }
        lemma_exponent_of(tile as int, k as nat);
    }
    k
}

/// Whether `tile` is 0 or a power of two with an exponent in range.
pub fn is_valid_tile(tile: u32) -> (r: bool)
    ensures
        r == valid_tile(tile as int),
{
    let mut k: u8 = 0;
    while k <= MAX_EXPONENT
        invariant
            k <= MAX_EXPONENT + 1,
            forall|j: nat| j < k ==> tile_value(j) != tile,
        decreases MAX_EXPONENT + 1 - k,
    {
        if exponent_to_tile(k) == tile {
            return true;
        }
        k = k + 1;
    }
    assert(!valid_tile(tile as int)) by {
        if valid_tile(tile as int) {
            let e = exponent_of(tile as int);
            assert(tile_value(e) != tile);
        }
    }
    false
}

/// Encodes a tile value as its exponent: `Some(k)` for `2^k` (and for 0,
/// `Some(0)`), `None` for a value that is not a valid tile.
pub fn encode(value: u32) -> (r: Option<u8>)
    ensures
        r is Some <==> valid_tile(value as int),
        r matches Some(e) ==> valid_exponent(e as int) && tile_value(e as nat) == value,
{
    if is_valid_tile(value) {
        Some(tile_to_exponent(value))
    } else {
        None
    }
}

/// Decodes an exponent into its tile value: `Some(0)` for 0, `Some(2^e)`
/// for `e` in range, `None` for an exponent above `MAX_EXPONENT`.
pub fn decode(e: u8) -> (r: Option<u32>)
    ensures
        r is Some <==> valid_exponent(e as int),
        r matches Some(v) ==> v == tile_value(e as nat),
{
    if is_valid_exponent(e) {
        Some(exponent_to_tile(e))
    } else {
        None
    }
}

/// Decoding the encoding of a valid tile gives the tile back, and encoding
/// the decoding of a valid exponent gives the exponent back.
pub proof fn lemma_codec_inverse(v: u32, e: u8)
    ensures
        valid_tile(v as int) ==> valid_exponent(exponent_of(v as int) as int)
            && tile_value(exponent_of(v as int)) == v,
        valid_exponent(e as int) ==> valid_tile(tile_value(e as nat) as int)
            && exponent_of(tile_value(e as nat) as int) == e,
{
    if valid_exponent(e as int) {
        lemma_exponent_of(tile_value(e as nat) as int, e as nat);
    }
}

} // verus!
