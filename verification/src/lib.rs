//! Texel tuning of a linear chess evaluation: a bitboard model of a position,
//! the sparse features drawn from it, and the schedule of the optimiser.
//!
//! Everything here is exact integer logic. Real-valued quantities are held as
//! integers over a fixed denominator: the game phase and every feature
//! coefficient count twenty-fourths.

pub mod bitboard;
pub mod board;
pub mod castling;
pub mod color;
pub mod error;
pub mod fen;
pub mod index;
pub mod parser;
pub mod piece;
pub mod position;
pub mod printer;
pub mod square;
pub mod text;
pub mod tuner;
pub mod weights;

pub use bitboard::Bitboard;
pub use board::Board;
pub use castling::{Castling, CastlingKind};
pub use color::Color;
pub use error::InvalidInput;
pub use fen::{parse_fen, parse_fen_chars};
pub use parser::{book_parser, epd_parser, file_format, Format};
pub use piece::Piece;
pub use position::{Feature, Outcome, Position};
pub use printer::render;
pub use square::Square;
pub use tuner::{touch_counts, KSearch, Step, Tuner};
pub use weights::get_weights;
