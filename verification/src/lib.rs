//! A verified chess-variant rule engine: a parser for a small line-oriented
//! piece-description language, a catalog of parsed piece descriptors, a parser
//! for board-description files, and a move generator that computes, for a
//! selection of pieces on a board grid, which squares are available to move to
//! or to capture on.

pub mod board;
pub mod board_space;
pub mod chess_game;
pub mod errors;
pub mod game_piece;
pub mod laws;
pub mod move_data;
pub mod move_gen;
pub mod piece;
pub mod piece_catalog;
pub mod piece_move;
pub mod text;
