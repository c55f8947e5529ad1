use vstd::prelude::*;

verus! {

/// The error taxonomy of the engine. `IllegalMove` is recoverable: the
/// requested cell is not in the legal-move set, or a textual coordinate
/// failed to parse. `LegalMovesNotComputed` is a sequencing error: a
/// move-dependent operation was invoked before the legal moves were
/// computed.
#[derive(Clone, Copy, PartialEq, Eq, Structural, Debug)]
pub enum OthebotError {
    IllegalMove,
    LegalMovesNotComputed,
}

/// The content of one board square: a white disc, a black disc, or nothing.
#[derive(Clone, Copy, PartialEq, Eq, Structural, Debug)]
pub enum Disc {
    White,
    Black,
    Empty,
}

/// The opponent of a disc colour. `Empty` has no opposite, so inverting it
/// is a no-op by design, not an error.
pub open spec fn opposite(d: Disc) -> Disc {
    match d {
        Disc::White => Disc::Black,
        Disc::Black => Disc::White,
        Disc::Empty => Disc::Empty,
    }
}

/// On the two colours the opponent relation is an involution that never
/// maps to `Empty` or to itself: the turn of a game therefore strictly
/// alternates between White and Black over accepted moves.
pub proof fn lemma_opposite_involution(d: Disc)
    requires
        d != Disc::Empty,
    ensures
        opposite(opposite(d)) == d,
        opposite(d) != d,
        opposite(d) != Disc::Empty,
{
}

impl Disc {
    /// The opponent of this disc colour; `Empty` is returned unchanged.
    pub fn opposite(self) -> (r: Disc)
        ensures
            r == opposite(self),
    {
        match self {
            Disc::White => Disc::Black,
            Disc::Black => Disc::White,
            Disc::Empty => Disc::Empty,
        }
    }
}

} // verus!
