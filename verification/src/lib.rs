//! A bitboard chess engine core: board geometry, square sets, attack
//! queries, move encoding, positions with make/unmake, move generation,
//! static evaluation and alpha-beta search.

pub mod bits;
pub mod text;
pub mod types;
pub mod squareset;
pub mod attacks;
pub mod moves;
pub mod zobrist;
pub mod model;
pub mod position;
pub mod rules;
pub mod movegen;
pub mod value;
pub mod analysis;
pub mod eval;
pub mod move_order;
pub mod table;
pub mod search;
pub mod search_model;
pub mod perft;
pub mod notation;
pub mod uci;
pub mod fen;
pub mod symmetry;
pub mod round_trip;
pub mod diagram;
pub mod search_laws;
