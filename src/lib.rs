//! A 4×4 grid of power-of-two tiles and its compact 16-byte packed encoding.
//!
//! Each tile is stored as its exponent (0 for an empty cell, `k` for the
//! tile `2^k`), one byte per cell, in two 64-bit lanes. Packing, unpacking,
//! rotation by byte permutation, a textual form and a printed form are
//! provided, each with a contract over the sequence of exponent bytes.

pub mod format;
pub mod laws;
pub mod position;
pub mod text;
pub mod tile;

pub use position::{CodecError, Position};
pub use tile::{
    decode, encode, exponent_to_tile, is_valid_exponent, is_valid_tile, tile_to_exponent,
    MAX_EXPONENT,
};
