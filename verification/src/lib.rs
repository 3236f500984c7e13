//! A chess move-generation core: a bit-packed position representation,
//! magic-bitboard sliding-piece attack tables, a Zobrist position hash,
//! a packed move encoding, and a pseudo-legal move generator.
//!
//! Squares are numbered 0 through 63: bit `i` of a bitboard stands for the
//! square on file `i % 8` and rank `i / 8`, so a1 is 0 and h8 is 63.

pub mod bits;
pub mod board;
pub mod fen;
pub mod hash;
pub mod magic;
pub mod moves;
pub mod rand;
pub mod state;
