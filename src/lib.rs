//! A chess rules engine with a tree-search move chooser.
//!
//! Positions are plain copyable values; every hypothetical move is explored on
//! a copy. Scores are kept in fixed point (thousandths) so that the whole
//! engine runs on integers.

pub mod piece;
pub mod pos;
pub mod board;
pub mod apply;
pub mod movegen;
pub mod legal;
pub mod eval;
pub mod search;
pub mod game;

pub use piece::{Color, Piece, PieceInfo, Tile};
pub use pos::Pos;
pub use board::{Board, BoardView, GameState, Overwrites, PossibleMove};
pub use eval::{eval, Evaluation};
pub use search::{choose_move, SearchNode, SearchTree};
pub use game::Game;
