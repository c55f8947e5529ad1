//! Rules engine for a two-player disc-flipping game on an 8x8 board.
//!
//! `Board` holds the 64 cell states and computes, for a given player, the
//! set of legal placements as a 64-bit mask. `Game` owns a board, tracks
//! whose turn it is, caches the last-computed legal-move mask, and
//! validates and applies moves against that cache. `algebric2xy` turns an
//! algebraic coordinate such as `"d3"` into a `(column, row)` pair.

mod board;
mod disc;
mod game;
mod notation;

pub use board::Board;
pub use board::capture_line;
pub use board::capture_run;
pub use board::cell_index;
pub use board::lemma_ray_captures_line;
pub use board::count_discs;
pub use board::dir_valid;
pub use board::in_bounds;
pub use board::is_legal_move;
pub use board::lemma_place_then_read;
pub use board::lemma_scores_partition;
pub use board::lemma_starting_scores;
pub use board::mask_bit;
pub use board::ray_captures;
pub use board::ray_step;
pub use board::starting_board;
pub use disc::Disc;
pub use disc::OthebotError;
pub use disc::lemma_opposite_involution;
pub use disc::opposite;
pub use game::CellMark;
pub use game::Game;
pub use game::mark_of;
pub use notation::algebraic_col;
pub use notation::algebraic_ok;
pub use notation::algebraic_row;
pub use notation::algebric2xy;
