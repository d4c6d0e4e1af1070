//! A bitboard-based chess move generator.
//!
//! The board is a set of twelve 64-bit piece bitboards plus three derived
//! occupancy sets. Square indices run rank-major from a8 = 0 to h1 = 63.
//! Attack tables for the leaper pieces are precomputed per square; sliding
//! pieces use magic-multiplier hashing of the relevant blocker subsets.
//! The move generator walks the piece bitboards and emits 24-bit packed
//! move words into an ordered buffer.

pub mod attacks;
pub mod bitboard;
pub mod fens;
pub mod board;
pub mod rand;
pub mod move_generator;
pub mod squares;
