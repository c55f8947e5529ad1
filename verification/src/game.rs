use vstd::prelude::*;

use crate::board::Board;
use crate::board::cell_index;
use crate::board::count_discs;
use crate::board::is_legal_move;
use crate::board::mask_bit;
use crate::board::starting_board;
use crate::disc::Disc;
use crate::disc::OthebotError;
use crate::disc::opposite;

verus! {

/// What one cell shows when the board is rendered: a white disc, a black
/// disc, an empty cell that is a legal move for the player to move, or a
/// plain empty cell.
#[derive(Clone, Copy, PartialEq, Eq, Structural, Debug)]
pub enum CellMark {
    White,
    Black,
    Legal,
    Empty,
}

/// The mark a cell renders as, given its disc and whether it is a legal
/// move.
pub open spec fn mark_of(d: Disc, legal: bool) -> CellMark {
    match d {
        Disc::White => CellMark::White,
        Disc::Black => CellMark::Black,
        Disc::Empty => if legal {
            CellMark::Legal
        } else {
            CellMark::Empty
        },
    }
}

/// One match: a board, the two player names, whose turn it is, and the
/// cached legal moves of the player to move (`None` until computed, and
/// again after every accepted move).
pub struct Game {
    board: Board,
    white_player: String,
    black_player: String,
    turn: Disc,
    current_legal_moves: Option<u64>,
}

impl Game {
    /// The cells of the owned board.
    pub closed spec fn spec_board(self) -> Seq<Disc> {
        self.board@
    }

    /// The player to move.
    pub closed spec fn spec_turn(self) -> Disc {
        self.turn
    }

    /// The cached legal-move mask, `None` when not computed since the
    /// last accepted move or since game start.
    pub closed spec fn spec_legal_cache(self) -> Option<u64> {
        self.current_legal_moves
    }

    /// The white player's name.
    pub closed spec fn spec_white_name(self) -> Seq<char> {
        self.white_player@
    }

    /// The black player's name.
    pub closed spec fn spec_black_name(self) -> Seq<char> {
        self.black_player@
    }

    /// When the cache holds a mask, that mask is exactly the legal-move
    /// set of the player to move on the current board.
    pub open spec fn cache_accurate(self) -> bool {
        match self.spec_legal_cache() {
            Some(m) => forall|i: u64| i < 64 ==> ((#[trigger] mask_bit(m, i))
                <==> is_legal_move(self.spec_board(), self.spec_turn(), (i % 8) as int,
                    (i / 8) as int)),
            None => true,
        }
    }

    /// The game invariant: the player to move is never `Empty`, the board
    /// has its 64 cells, and any cached mask is accurate.
    pub open spec fn wf(self) -> bool {
        &&& self.spec_turn() != Disc::Empty
        &&& self.spec_board().len() == 64
        &&& self.cache_accurate()
    }

    /// Start a match: standard opening layout, Black to move, no legal
    /// moves computed yet.
    pub fn new(white_player: String, black_player: String) -> (g: Game)
        ensures
            g.wf(),
            g.spec_board() == starting_board(),
            g.spec_turn() == Disc::Black,
            g.spec_legal_cache() is None,
            g.spec_white_name() == white_player@,
            g.spec_black_name() == black_player@,
    {
        Game {
            board: Board::new(),
            white_player,
            black_player,
            turn: Disc::Black,
            current_legal_moves: None,
        }
    }

    /// The player to move.
    pub fn turn(&self) -> (d: Disc)
        ensures
            d == self.spec_turn(),
    {
        self.turn
    }

    /// Compute and cache the legal moves of the player to move. Always
    /// succeeds and is idempotent; only the cache changes.
    pub fn legal_moves(&mut self)
        requires
            old(self).wf(),
        ensures
            final(self).wf(),
            final(self).spec_legal_cache() is Some,
            final(self).spec_board() == old(self).spec_board(),
            final(self).spec_turn() == old(self).spec_turn(),
            final(self).spec_white_name() == old(self).spec_white_name(),
            final(self).spec_black_name() == old(self).spec_black_name(),
    {
        let mask = self.board.legal_moves(self.turn);
        self.current_legal_moves = Some(mask);
    }

    /// Validate and apply the move at column `mov.0`, row `mov.1`.
    ///
    /// Fails with `LegalMovesNotComputed` when no legal-move mask is
    /// cached, and with `IllegalMove` when the target cell's bit is unset
    /// in the cached mask; in both cases the game is left unchanged. On
    /// success — exactly when the cached mask has the target bit set —
    /// the mover's disc is written at the target cell (no capture
    /// propagation), the turn passes to the opponent, and the cache is
    /// cleared.
    pub fn make_turn(&mut self, mov: (u8, u8)) -> (r: Result<(), OthebotError>)
        requires
            old(self).wf(),
            mov.0 < 8,
            mov.1 < 8,
        ensures
            final(self).wf(),
            match r {
                Ok(()) => {
                    &&& old(self).spec_legal_cache() is Some
                    &&& mask_bit(old(self).spec_legal_cache()->Some_0,
                        (mov.1 * 8 + mov.0) as u64)
                    &&& is_legal_move(old(self).spec_board(), old(self).spec_turn(),
                        mov.0 as int, mov.1 as int)
                    &&& final(self).spec_board() == old(self).spec_board().update(
                        cell_index(mov.0 as int, mov.1 as int), old(self).spec_turn())
                    &&& final(self).spec_turn() == opposite(old(self).spec_turn())
                    &&& final(self).spec_legal_cache() is None
                    &&& final(self).spec_white_name() == old(self).spec_white_name()
                    &&& final(self).spec_black_name() == old(self).spec_black_name()
                },
                Err(OthebotError::LegalMovesNotComputed) => {
                    &&& old(self).spec_legal_cache() is None
                    &&& *final(self) == *old(self)
                },
                Err(OthebotError::IllegalMove) => {
                    &&& old(self).spec_legal_cache() is Some
                    &&& !mask_bit(old(self).spec_legal_cache()->Some_0,
                        (mov.1 * 8 + mov.0) as u64)
                    &&& *final(self) == *old(self)
                },
            },
    {
        let (col, row) = mov;
        let idx: u64 = row as u64 * 8 + col as u64;
        let legal = match self.current_legal_moves {
            Some(m) => m,
            None => {
                return Err(OthebotError::LegalMovesNotComputed);
            },
        };
        if (legal >> idx) & 1 != 1 {
            return Err(OthebotError::IllegalMove);
        }
        proof {
            // The cached mask speaks of cell i as (i % 8, i / 8); relate
            // that back to the requested (col, row).
            assert(mask_bit(legal, idx));
            assert(idx % 8 == col as u64 && idx / 8 == row as u64);
        }
        self.board.change_disc(mov, self.turn);
        self.turn = self.turn.opposite();
        self.current_legal_moves = None;
        Ok(())
    }

    /// The white player's name.
    pub fn white_name(&self) -> (r: &str)
        ensures
            r@ == self.spec_white_name(),
    {
        self.white_player.as_str()
    }

    /// The black player's name.
    pub fn black_name(&self) -> (r: &str)
        ensures
            r@ == self.spec_black_name(),
    {
        self.black_player.as_str()
    }

    /// The name of the player to move.
    pub fn player_name(&self) -> (r: &str)
        requires
            self.spec_turn() != Disc::Empty,
        ensures
            r@ == if self.spec_turn() == Disc::White {
                self.spec_white_name()
            } else {
                self.spec_black_name()
            },
    {
        match self.turn {
            Disc::White => self.white_name(),
            Disc::Black => self.black_name(),
            Disc::Empty => vstd::pervasive::unreached(),
        }
    }

    /// The scores of the board: white's count first, black's second.
    pub fn scores(&self) -> (r: (u8, u8))
        ensures
            r.0 == count_discs(self.spec_board(), Disc::White),
            r.1 == count_discs(self.spec_board(), Disc::Black),
    {
        self.board.scores()
    }

    /// The mark each of the 64 cells renders as, row by row: discs show
    /// their colour, and an empty cell is marked as a legal move exactly
    /// when its bit is set in the cached mask. Fails with
    /// `LegalMovesNotComputed` when no mask is cached.
    pub fn render(&self) -> (r: Result<Vec<CellMark>, OthebotError>)
        ensures
            match r {
                Ok(cells) => {
                    &&& self.spec_legal_cache() is Some
                    &&& cells@.len() == 64
                    &&& forall|i: int| 0 <= i < 64 ==> cells@[i] == mark_of(
                        self.spec_board()[i],
                        mask_bit(self.spec_legal_cache()->Some_0, i as u64))
                },
                Err(e) => {
                    &&& e == OthebotError::LegalMovesNotComputed
                    &&& self.spec_legal_cache() is None
                },
            },
    {
        let legal = match self.current_legal_moves {
            Some(m) => m,
            None => {
                return Err(OthebotError::LegalMovesNotComputed);
            },
        };
        let mut cells: Vec<CellMark> = Vec::new();
        let mut idx: u64 = 0;
        while idx < 64
            invariant
                idx <= 64,
                cells@.len() == idx,
                self.spec_legal_cache() == Some(legal),
                forall|i: int| 0 <= i < idx ==> cells@[i] == mark_of(self.spec_board()[i],
                    mask_bit(legal, i as u64)),
            decreases 64 - idx,
        {
            let col: u8 = (idx % 8) as u8;
            let row: u8 = (idx / 8) as u8;
            let disc = self.board.get_disc((col, row));
            let is_legal = (legal >> idx) & 1 == 1;
            let mark = match disc {
                Disc::White => CellMark::White,
                Disc::Black => CellMark::Black,
                Disc::Empty => if is_legal {
                    CellMark::Legal
                } else {
                    CellMark::Empty
                },
            };
            proof {
                assert(cell_index((idx % 8) as int, (idx / 8) as int) == idx as int);
            }
            cells.push(mark);
            idx = idx + 1;
        }
        Ok(cells)
    }
}

} // verus!
