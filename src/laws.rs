//! Laws relating packing, unpacking and rotation.
use crate::position::{
    all_valid_exponents, all_valid_tiles, lemma_view_injective, packed_cells, rotate_cells,
    rotation_source, unpacked_cells, Position,
};
use crate::tile::{exponent_of, lemma_codec_inverse, tile_value};
use vstd::multiset::Multiset;
use vstd::prelude::*;
use vstd::seq_lib::group_to_multiset_ensures;

verus! {

/// Unpacking the packing of a valid grid gives the grid back: every packed
/// byte is a valid exponent, so unpacking succeeds, and each cell decodes
/// to the tile it held.
pub proof fn lemma_round_trip(g: Seq<u32>)
    requires
        all_valid_tiles(g),
    ensures
        all_valid_exponents(packed_cells(g)),
        unpacked_cells(packed_cells(g)) == g,
{
    assert forall|i: int| 0 <= i < g.len() implies {
        &&& exponent_of(g[i] as int) <= 17
        &&& tile_value(exponent_of(g[i] as int)) == g[i]
    } by {
        lemma_codec_inverse(g[i], 0);
    }
    assert(unpacked_cells(packed_cells(g)) =~= g);
}

/// Composing two source lookups gives the source lookup of the summed turns.
proof fn lemma_source_compose(a: int, b: int, i: int)
    requires
        0 <= a < 4,
        0 <= b < 4,
        0 <= i < 16,
    ensures
        0 <= rotation_source(b, i) < 16,
        rotation_source(a, rotation_source(b, i)) == rotation_source((a + b) % 4, i),
{
    let row = i / 4;
    let col = i % 4;
    assert(i == 4 * row + col);
    assert((4 * (3 - col) + row) / 4 == 3 - col && (4 * (3 - col) + row) % 4 == row);
    assert((4 * (3 - row) + (3 - col)) / 4 == 3 - row && (4 * (3 - row) + (3 - col)) % 4 == 3
        - col);
    assert((4 * col + (3 - row)) / 4 == col && (4 * col + (3 - row)) % 4 == 3 - row);
}

/// Rotating by `n` quarter turns is rotating by `n mod 4`.
pub proof fn lemma_rotate_mod(s: Seq<u8>, n: int)
    ensures
        rotate_cells(s, n) == rotate_cells(s, n % 4),
{
    assert(rotate_cells(s, n) =~= rotate_cells(s, n % 4));
}

/// Rotating by zero quarter turns changes nothing.
pub proof fn lemma_rotate_zero(s: Seq<u8>)
    requires
        s.len() == 16,
    ensures
        rotate_cells(s, 0) == s,
{
    assert(rotate_cells(s, 0) =~= s);
}

/// Rotating by `a` and then by `b` quarter turns is rotating by `a + b`.
pub proof fn lemma_rotate_compose(s: Seq<u8>, a: int, b: int)
    requires
        s.len() == 16,
    ensures
        rotate_cells(rotate_cells(s, a), b) == rotate_cells(s, a + b),
{
    assert forall|i: int| 0 <= i < 16 implies #[trigger] rotate_cells(rotate_cells(s, a), b)[i]
        == rotate_cells(s, a + b)[i] by {
        lemma_source_compose(a % 4, b % 4, i);
        assert((a % 4 + b % 4) % 4 == (a + b) % 4);
    }
    assert(rotate_cells(rotate_cells(s, a), b) =~= rotate_cells(s, a + b));
}

/// Rotating a position by `n` quarter turns gives the same position as
/// rotating it by `n mod 4`.
pub proof fn lemma_rotate_mod_position(p: Position, n: int, a: Position, b: Position)
    requires
        a@ == rotate_cells(p@, n),
        b@ == rotate_cells(p@, n % 4),
    ensures
        a == b,
{
    lemma_rotate_mod(p@, n);
    lemma_view_injective(a, b);
}

/// Rotating a position by zero quarter turns gives the same position.
pub proof fn lemma_zero_turns_position(p: Position, q: Position)
    requires
        q@ == rotate_cells(p@, 0),
    ensures
        q == p,
{
    lemma_rotate_zero(p@);
    lemma_view_injective(q, p);
}

/// Four single quarter turns in a row give the same position.
pub proof fn lemma_four_quarter_turns(p: Position, q1: Position, q2: Position, q3: Position, q4: Position)
    requires
        q1@ == rotate_cells(p@, 1),
        q2@ == rotate_cells(q1@, 1),
        q3@ == rotate_cells(q2@, 1),
        q4@ == rotate_cells(q3@, 1),
    ensures
        q4 == p,
{
    lemma_rotate_compose(p@, 1, 1);
    lemma_rotate_compose(p@, 2, 1);
    lemma_rotate_compose(p@, 3, 1);
    lemma_rotate_mod(p@, 4);
    lemma_rotate_zero(p@);
    lemma_view_injective(q4, p);
}

/// Two single quarter turns are one half turn.
pub proof fn lemma_two_quarter_turns(p: Position, q1: Position, q2: Position, h: Position)
    requires
        q1@ == rotate_cells(p@, 1),
        q2@ == rotate_cells(q1@, 1),
        h@ == rotate_cells(p@, 2),
    ensures
        q2 == h,
{
    lemma_rotate_compose(p@, 1, 1);
    lemma_view_injective(q2, h);
}

/// The multiset of the first `n` elements of `s`, element by element.
spec fn prefix_multiset(s: Seq<u8>, n: nat) -> Multiset<u8>
    decreases n,
{
    if n == 0 {
        Multiset::empty()
    } else {
        prefix_multiset(s, (n - 1) as nat).insert(s[n - 1])
    }
}

/// `prefix_multiset` over the whole sequence is its multiset.
proof fn lemma_prefix_multiset(s: Seq<u8>, n: nat)
    requires
        n <= s.len(),
    ensures
        s.take(n as int).to_multiset() == prefix_multiset(s, n),
    decreases n,
{
    broadcast use group_to_multiset_ensures;

    if n == 0 {
        assert(s.take(0) =~= Seq::<u8>::empty());
    } else {
        lemma_prefix_multiset(s, (n - 1) as nat);
        assert(s.take(n as int) =~= s.take(n - 1).push(s[n - 1]));
    }
}

/// The multiset of the sixteen cells, written out.
spec fn cells_multiset(s: Seq<u8>) -> Multiset<u8> {
    Multiset::empty().insert(s[0]).insert(s[1]).insert(s[2]).insert(s[3]).insert(s[4]).insert(s[5]).insert(s[6]).insert(s[7]).insert(s[8]).insert(s[9]).insert(s[10]).insert(s[11]).insert(s[12]).insert(s[13]).insert(s[14]).insert(s[15])
}

/// A sequence of sixteen cells has the multiset of its cells.
proof fn lemma_cells_multiset(s: Seq<u8>)
    requires
        s.len() == 16,
    ensures
        s.to_multiset() == cells_multiset(s),
{
    lemma_prefix_multiset(s, 16);
    assert(s.take(16) =~= s);
    reveal_with_fuel(prefix_multiset, 17);
}

/// Rotation only moves bytes: the rotated cells hold the same multiset of
/// exponent bytes as the cells it was given.
#[verifier::rlimit(50)]
pub proof fn lemma_rotate_multiset(s: Seq<u8>, n: int)
    requires
        s.len() == 16,
    ensures
        rotate_cells(s, n).to_multiset() == s.to_multiset(),
{
    let r = rotate_cells(s, n);
    lemma_cells_multiset(s);
    lemma_cells_multiset(r);
    let k = n % 4;
    assert forall|i: int| 0 <= i < 16 implies #[trigger] r[i] == s[rotation_source(k, i)] by {}
    if k == 0 {
        assert(r[0] == s[0]);
        assert(r[1] == s[1]);
        assert(r[2] == s[2]);
        assert(r[3] == s[3]);
        assert(r[4] == s[4]);
        assert(r[5] == s[5]);
        assert(r[6] == s[6]);
        assert(r[7] == s[7]);
        assert(r[8] == s[8]);
        assert(r[9] == s[9]);
        assert(r[10] == s[10]);
        assert(r[11] == s[11]);
        assert(r[12] == s[12]);
        assert(r[13] == s[13]);
        assert(r[14] == s[14]);
        assert(r[15] == s[15]);
        assert(cells_multiset(r) =~= cells_multiset(s));
    } else if k == 1 {
        assert(r[0] == s[12]);
        assert(r[1] == s[8]);
        assert(r[2] == s[4]);
        assert(r[3] == s[0]);
        assert(r[4] == s[13]);
        assert(r[5] == s[9]);
        assert(r[6] == s[5]);
        assert(r[7] == s[1]);
        assert(r[8] == s[14]);
        assert(r[9] == s[10]);
        assert(r[10] == s[6]);
        assert(r[11] == s[2]);
        assert(r[12] == s[15]);
        assert(r[13] == s[11]);
        assert(r[14] == s[7]);
        assert(r[15] == s[3]);
        assert(cells_multiset(r) =~= cells_multiset(s));
    } else if k == 2 {
        assert(r[0] == s[15]);
        assert(r[1] == s[14]);
        assert(r[2] == s[13]);
        assert(r[3] == s[12]);
        assert(r[4] == s[11]);
        assert(r[5] == s[10]);
        assert(r[6] == s[9]);
        assert(r[7] == s[8]);
        assert(r[8] == s[7]);
        assert(r[9] == s[6]);
        assert(r[10] == s[5]);
        assert(r[11] == s[4]);
        assert(r[12] == s[3]);
        assert(r[13] == s[2]);
        assert(r[14] == s[1]);
        assert(r[15] == s[0]);
        assert(cells_multiset(r) =~= cells_multiset(s));
    } else {
        assert(r[0] == s[3]);
        assert(r[1] == s[7]);
        assert(r[2] == s[11]);
        assert(r[3] == s[15]);
        assert(r[4] == s[2]);
        assert(r[5] == s[6]);
        assert(r[6] == s[10]);
        assert(r[7] == s[14]);
        assert(r[8] == s[1]);
        assert(r[9] == s[5]);
        assert(r[10] == s[9]);
        assert(r[11] == s[13]);
        assert(r[12] == s[0]);
        assert(r[13] == s[4]);
        assert(r[14] == s[8]);
        assert(r[15] == s[12]);
        assert(cells_multiset(r) =~= cells_multiset(s));
    }
}

} // verus!
