use vstd::prelude::*;

use crate::disc::Disc;
use crate::disc::opposite;

verus! {

broadcast use vstd::array::group_array_axioms;

/// The 8x8 grid of cell states, addressed by `(column, row)` with both
/// coordinates in `[0, 8)` and linearized as `index = row * 8 + column`.
pub struct Board {
    discs: [Disc; 64],
}

impl View for Board {
    type V = Seq<Disc>;

    closed spec fn view(&self) -> Seq<Disc> {
        self.discs@
    }
}

/// The linear index of the cell at `(col, row)`.
pub open spec fn cell_index(col: int, row: int) -> int {
    row * 8 + col
}

/// Whether `(col, row)` addresses a cell of the board.
pub open spec fn in_bounds(col: int, row: int) -> bool {
    0 <= col < 8 && 0 <= row < 8
}

/// Whether `(dc, dr)` is one of the 8 compass directions.
pub open spec fn dir_valid(dc: int, dr: int) -> bool {
    -1 <= dc <= 1 && -1 <= dr <= 1 && !(dc == 0 && dr == 0)
}

/// How many further steps a walk from `(col, row)` in direction `(dc, dr)`
/// can take before it must leave the board; a termination measure for the
/// ray walks below.
pub open spec fn edge_distance(col: int, row: int, dc: int, dr: int) -> int {
    if dc == 1 {
        7 - col
    } else if dc == -1 {
        col
    } else if dr == 1 {
        7 - row
    } else {
        row
    }
}

/// Standing at `(col, row)`, which holds a disc of the opponent of
/// `player`: does the walk in direction `(dc, dr)` reach a disc of
/// `player` through opponent discs only, without leaving the board and
/// without crossing an empty cell?
pub open spec fn capture_run(b: Seq<Disc>, player: Disc, col: int, row: int, dc: int, dr: int) -> bool
    decreases edge_distance(col, row, dc, dr),
{
    dir_valid(dc, dr) && in_bounds(col, row) && in_bounds(col + dc, row + dr) && {
        let next = b[cell_index(col + dc, row + dr)];
        if next == player {
            true
        } else if next == opposite(player) {
            capture_run(b, player, col + dc, row + dr, dc, dr)
        } else {
            false
        }
    }
}

/// Starting from the cell `(col, row)`, does the ray in direction
/// `(dc, dr)` consist of one or more discs of the opponent of `player`
/// followed by a disc of `player`, all on the board?
pub open spec fn ray_captures(b: Seq<Disc>, player: Disc, col: int, row: int, dc: int, dr: int) -> bool {
    dir_valid(dc, dr) && in_bounds(col, row) && in_bounds(col + dc, row + dr)
        && b[cell_index(col + dc, row + dr)] == opposite(player)
        && capture_run(b, player, col + dc, row + dr, dc, dr)
}

/// Whether placing a disc of `player` at `(col, row)` is legal: the cell
/// is empty and at least one of the 8 compass directions yields a
/// capture-terminated run.
pub open spec fn is_legal_move(b: Seq<Disc>, player: Disc, col: int, row: int) -> bool {
    in_bounds(col, row) && b[cell_index(col, row)] == Disc::Empty && {
        ||| ray_captures(b, player, col, row, -1, -1)
        ||| ray_captures(b, player, col, row, 0, -1)
        ||| ray_captures(b, player, col, row, 1, -1)
        ||| ray_captures(b, player, col, row, -1, 0)
        ||| ray_captures(b, player, col, row, 1, 0)
        ||| ray_captures(b, player, col, row, -1, 1)
        ||| ray_captures(b, player, col, row, 0, 1)
        ||| ray_captures(b, player, col, row, 1, 1)
    }
}

/// The coordinate reached from `c` after `k` steps of size `d`.
pub open spec fn ray_step(c: int, d: int, k: int) -> int {
    c + k * d
}

/// The explicit shape of a capturing line of length `m` from `(col, row)`
/// in direction `(dc, dr)`: the cells at steps `1` to `m - 1` hold the
/// opponent of `player`, and the cell at step `m` holds `player`, all on
/// the board.
pub open spec fn capture_line(b: Seq<Disc>, player: Disc, col: int, row: int, dc: int, dr: int, m: int) -> bool {
    &&& 1 <= m
    &&& forall|k: int| 1 <= k < m ==> in_bounds(#[trigger] ray_step(col, dc, k), ray_step(row, dr, k))
        && b[cell_index(ray_step(col, dc, k), ray_step(row, dr, k))] == opposite(player)
    &&& in_bounds(ray_step(col, dc, m), ray_step(row, dr, m))
    &&& b[cell_index(ray_step(col, dc, m), ray_step(row, dr, m))] == player
}

/// Whether bit `i` of the legal-move mask `mask` is set.
pub open spec fn mask_bit(mask: u64, i: u64) -> bool
    recommends
        i < 64,
{
    (mask >> i) & 1 == 1
}

/// How many cells of `s` hold the state `d`.
pub open spec fn count_discs(s: Seq<Disc>, d: Disc) -> nat
    decreases s.len(),
{
    if s.len() == 0 {
        0
    } else {
        count_discs(s.drop_last(), d) + (if s.last() == d { 1nat } else { 0nat })
    }
}

/// The standard opening layout: all cells empty except the four center
/// cells at (3,3)=White, (4,3)=Black, (3,4)=Black, (4,4)=White.
pub open spec fn starting_board() -> Seq<Disc> {
    Seq::new(64, |i: int|
        if i == cell_index(3, 3) {
            Disc::White
        } else if i == cell_index(4, 3) {
            Disc::Black
        } else if i == cell_index(3, 4) {
            Disc::Black
        } else if i == cell_index(4, 4) {
            Disc::White
        } else {
            Disc::Empty
        })
}

proof fn lemma_mask_bit_zero(i: u64)
    ensures
        !mask_bit(0u64, i),
{
    assert((0u64 >> i) & 1 != 1) by (bit_vector);
}

proof fn lemma_mask_bit_or(m: u64, j: u64, i: u64)
    requires
        i < 64,
        j < 64,
    ensures
        mask_bit(m | (1u64 << j), i) <==> (i == j || mask_bit(m, i)),
{
    assert((((m | (1u64 << j)) >> i) & 1 == 1) <==> (i == j || ((m >> i) & 1 == 1)))
        by (bit_vector)
        requires
            i < 64,
            j < 64,
    ;
}

proof fn lemma_capture_run_gives_line(b: Seq<Disc>, player: Disc, col: int, row: int, dc: int, dr: int)
    requires
        player != Disc::Empty,
        capture_run(b, player, col, row, dc, dr),
    ensures
        exists|m: int| #[trigger] capture_line(b, player, col, row, dc, dr, m),
    decreases edge_distance(col, row, dc, dr),
{
    let next = b[cell_index(col + dc, row + dr)];
    if next == player {
        assert(capture_line(b, player, col, row, dc, dr, 1));
    } else {
        lemma_capture_run_gives_line(b, player, col + dc, row + dr, dc, dr);
        let m0 = choose|m0: int| #[trigger] capture_line(b, player, col + dc, row + dr, dc, dr, m0);
        assert forall|k: int| 1 <= k < m0 + 1 implies in_bounds(#[trigger] ray_step(col, dc, k),
            ray_step(row, dr, k)) && b[cell_index(ray_step(col, dc, k), ray_step(row, dr, k))]
            == opposite(player) by {
            if k == 1 {
                assert(ray_step(col, dc, 1) == col + dc);
                assert(ray_step(row, dr, 1) == row + dr);
            } else {
                assert(in_bounds(ray_step(col + dc, dc, k - 1), ray_step(row + dr, dr, k - 1))
                    && b[cell_index(ray_step(col + dc, dc, k - 1), ray_step(row + dr, dr, k - 1))]
                    == opposite(player));
                assert(col + dc + (k - 1) * dc == col + k * dc) by (nonlinear_arith);
                assert(row + dr + (k - 1) * dr == row + k * dr) by (nonlinear_arith);
            }
        }
        assert(col + dc + m0 * dc == col + (m0 + 1) * dc) by (nonlinear_arith);
        assert(row + dr + m0 * dr == row + (m0 + 1) * dr) by (nonlinear_arith);
        assert(capture_line(b, player, col, row, dc, dr, m0 + 1));
    }
}

proof fn lemma_line_gives_capture_run(b: Seq<Disc>, player: Disc, col: int, row: int, dc: int, dr: int, m: int)
    requires
        player != Disc::Empty,
        dir_valid(dc, dr),
        in_bounds(col, row),
        capture_line(b, player, col, row, dc, dr, m),
    ensures
        capture_run(b, player, col, row, dc, dr),
    decreases m,
{
    if m == 1 {
        assert(ray_step(col, dc, 1) == col + dc);
        assert(ray_step(row, dr, 1) == row + dr);
    } else {
        assert(in_bounds(ray_step(col, dc, 1), ray_step(row, dr, 1)) && b[cell_index(
            ray_step(col, dc, 1), ray_step(row, dr, 1))] == opposite(player));
        assert(ray_step(col, dc, 1) == col + dc);
        assert(ray_step(row, dr, 1) == row + dr);
        assert forall|k: int| 1 <= k < m - 1 implies in_bounds(#[trigger] ray_step(col + dc, dc, k),
            ray_step(row + dr, dr, k)) && b[cell_index(ray_step(col + dc, dc, k),
            ray_step(row + dr, dr, k))] == opposite(player) by {
            assert(in_bounds(ray_step(col, dc, k + 1), ray_step(row, dr, k + 1)) && b[cell_index(
                ray_step(col, dc, k + 1), ray_step(row, dr, k + 1))] == opposite(player));
            assert(col + (k + 1) * dc == col + dc + k * dc) by (nonlinear_arith);
            assert(row + (k + 1) * dr == row + dr + k * dr) by (nonlinear_arith);
        }
        assert(col + m * dc == col + dc + (m - 1) * dc) by (nonlinear_arith);
        assert(row + m * dr == row + dr + (m - 1) * dr) by (nonlinear_arith);
        assert(capture_line(b, player, col + dc, row + dr, dc, dr, m - 1));
        lemma_line_gives_capture_run(b, player, col + dc, row + dr, dc, dr, m - 1);
    }
}

/// The recursive ray walk agrees with the explicit line form: the ray
/// from `(col, row)` in direction `(dc, dr)` captures exactly when, for
/// some length `m >= 2`, the `m - 1` cells after `(col, row)` hold the
/// opponent's discs and the cell after them holds the player's own disc.
pub proof fn lemma_ray_captures_line(b: Seq<Disc>, player: Disc, col: int, row: int, dc: int, dr: int)
    requires
        player != Disc::Empty,
        dir_valid(dc, dr),
    ensures
        ray_captures(b, player, col, row, dc, dr) <==> (in_bounds(col, row) && exists|m: int|
            m >= 2 && #[trigger] capture_line(b, player, col, row, dc, dr, m)),
{
    if ray_captures(b, player, col, row, dc, dr) {
        lemma_capture_run_gives_line(b, player, col, row, dc, dr);
        let m = choose|m: int| #[trigger] capture_line(b, player, col, row, dc, dr, m);
        assert(ray_step(col, dc, 1) == col + dc);
        assert(ray_step(row, dr, 1) == row + dr);
        if m == 1 {
            // The cell one step out holds the opponent's disc, so the
            // line cannot already end there with the player's own.
            assert(false);
        }
        assert(m >= 2 && capture_line(b, player, col, row, dc, dr, m));
    }
    if in_bounds(col, row) && exists|m: int| m >= 2 && #[trigger] capture_line(b, player, col,
        row, dc, dr, m) {
        let m = choose|m: int| m >= 2 && #[trigger] capture_line(b, player, col, row, dc, dr, m);
        assert(in_bounds(ray_step(col, dc, 1), ray_step(row, dr, 1)) && b[cell_index(
            ray_step(col, dc, 1), ray_step(row, dr, 1))] == opposite(player));
        assert(ray_step(col, dc, 1) == col + dc);
        assert(ray_step(row, dr, 1) == row + dr);
        lemma_line_gives_capture_run(b, player, col, row, dc, dr, m);
    }
}

/// Writing a disc at a cell and then reading that same cell yields the
/// written disc, on any 64-cell board.
pub proof fn lemma_place_then_read(b: Seq<Disc>, col: int, row: int, d: Disc)
    requires
        b.len() == 64,
        in_bounds(col, row),
    ensures
        b.update(cell_index(col, row), d)[cell_index(col, row)] == d,
{
}

proof fn lemma_count_partition(s: Seq<Disc>)
    ensures
        count_discs(s, Disc::White) + count_discs(s, Disc::Black) + count_discs(s, Disc::Empty)
            == s.len(),
    decreases s.len(),
{
    if s.len() > 0 {
        lemma_count_partition(s.drop_last());
    }
}

proof fn lemma_starting_counts_prefix(n: int)
    requires
        0 <= n <= 64,
    ensures
        count_discs(starting_board().take(n), Disc::White) == if n <= 27 {
            0int
        } else if n <= 36 {
            1int
        } else {
            2int
        },
        count_discs(starting_board().take(n), Disc::Black) == if n <= 28 {
            0int
        } else if n <= 35 {
            1int
        } else {
            2int
        },
    decreases n,
{
    if n > 0 {
        lemma_starting_counts_prefix(n - 1);
        assert(starting_board().take(n).drop_last() =~= starting_board().take(n - 1));
    }
}

/// The starting board holds exactly two white and two black discs; with
/// the partition law below, all 60 other cells are empty.
pub proof fn lemma_starting_scores()
    ensures
        count_discs(starting_board(), Disc::White) == 2,
        count_discs(starting_board(), Disc::Black) == 2,
{
    lemma_starting_counts_prefix(64);
    assert(starting_board().take(64) =~= starting_board());
}

/// The white score plus the black score plus the number of empty cells
/// accounts for all 64 cells of any board.
pub proof fn lemma_scores_partition(b: &Board)
    ensures
        count_discs(b@, Disc::White) + count_discs(b@, Disc::Black) + count_discs(b@, Disc::Empty)
            == 64,
{
    lemma_count_partition(b@);
}

impl Board {
    /// Create a new board with the starting layout.
    pub fn new() -> (b: Board)
        ensures
            b@ == starting_board(),
    {
        let mut discs: [Disc; 64] = vstd::array::array_fill_for_copy_types(Disc::Empty);
        discs[27] = Disc::White;
        discs[28] = Disc::Black;
        discs[35] = Disc::Black;
        discs[36] = Disc::White;
        let b = Board { discs };
        proof {
            assert(b@ =~= starting_board());
        }
        b
    }

    /// The disc at column `pos.0`, row `pos.1`; both coordinates must be
    /// in bounds.
    pub fn get_disc(&self, pos: (u8, u8)) -> (d: Disc)
        requires
            pos.0 < 8,
            pos.1 < 8,
        ensures
            d == self@[cell_index(pos.0 as int, pos.1 as int)],
    {
        let (col, row) = pos;
        self.discs[row as usize * 8 + col as usize]
    }

    /// Overwrite the cell at column `pos.0`, row `pos.1` with `disc`;
    /// no other cell changes. Legality of the placement is not checked.
    pub fn change_disc(&mut self, pos: (u8, u8), disc: Disc)
        requires
            pos.0 < 8,
            pos.1 < 8,
        ensures
            final(self)@ == old(self)@.update(cell_index(pos.0 as int, pos.1 as int), disc),
    {
        let (col, row) = pos;
        self.discs[row as usize * 8 + col as usize] = disc;
    }

    /// The scores of the current board: white's count first, black's
    /// second. Empty cells are counted in neither.
    pub fn scores(&self) -> (r: (u8, u8))
        ensures
            r.0 == count_discs(self@, Disc::White),
            r.1 == count_discs(self@, Disc::Black),
    {
        let mut white: u8 = 0;
        let mut black: u8 = 0;
        let mut i: usize = 0;
        while i < 64
            invariant
                i <= 64,
                white <= i,
                black <= i,
                white == count_discs(self@.take(i as int), Disc::White),
                black == count_discs(self@.take(i as int), Disc::Black),
            decreases 64 - i,
        {
            proof {
                assert(self@.take(i + 1).drop_last() =~= self@.take(i as int));
            }
            match self.discs[i] {
                Disc::White => { white = white + 1; }
                Disc::Black => { black = black + 1; }
                Disc::Empty => {}
            }
            i = i + 1;
        }
        proof {
            assert(self@.take(64) =~= self@);
        }
        (white, black)
    }

    /// Walk outward from `(col, row)`, which holds an opponent disc, in
    /// direction `(dc, dr)`, reporting whether the run ends at a disc of
    /// `player` through opponent discs only.
    fn capture_scan(&self, player: Disc, col: u8, row: u8, dc: i8, dr: i8) -> (r: bool)
        requires
            player != Disc::Empty,
            col < 8,
            row < 8,
            dir_valid(dc as int, dr as int),
        ensures
            r == capture_run(self@, player, col as int, row as int, dc as int, dr as int),
        decreases edge_distance(col as int, row as int, dc as int, dr as int),
    {
        let nc = col as i16 + dc as i16;
        let nr = row as i16 + dr as i16;
        if nc < 0 || nc > 7 || nr < 0 || nr > 7 {
            return false;
        }
        let next = self.get_disc((nc as u8, nr as u8));
        if next == player {
            true
        } else if next == Disc::Empty {
            false
        } else {
            self.capture_scan(player, nc as u8, nr as u8, dc, dr)
        }
    }

    /// Whether the ray from `(col, row)` in direction `(dc, dr)` consists
    /// of one or more opponent discs followed by a disc of `player`.
    fn ray_capture(&self, player: Disc, col: u8, row: u8, dc: i8, dr: i8) -> (r: bool)
        requires
            player != Disc::Empty,
            col < 8,
            row < 8,
            dir_valid(dc as int, dr as int),
        ensures
            r == ray_captures(self@, player, col as int, row as int, dc as int, dr as int),
    {
        let nc = col as i16 + dc as i16;
        let nr = row as i16 + dr as i16;
        if nc < 0 || nc > 7 || nr < 0 || nr > 7 {
            return false;
        }
        let next = self.get_disc((nc as u8, nr as u8));
        if next == player || next == Disc::Empty {
            false
        } else {
            self.capture_scan(player, nc as u8, nr as u8, dc, dr)
        }
    }

    /// Whether placing a disc of `player` at `(col, row)` is legal.
    fn cell_legal(&self, player: Disc, col: u8, row: u8) -> (r: bool)
        requires
            player != Disc::Empty,
            col < 8,
            row < 8,
        ensures
            r == is_legal_move(self@, player, col as int, row as int),
    {
        if !matches!(self.get_disc((col, row)), Disc::Empty) {
            return false;
        }
        self.ray_capture(player, col, row, -1, -1)
            || self.ray_capture(player, col, row, 0, -1)
            || self.ray_capture(player, col, row, 1, -1)
            || self.ray_capture(player, col, row, -1, 0)
            || self.ray_capture(player, col, row, 1, 0)
            || self.ray_capture(player, col, row, -1, 1)
            || self.ray_capture(player, col, row, 0, 1)
            || self.ray_capture(player, col, row, 1, 1)
    }

    /// The legal moves of `player` as a bitmask: bit `i` (0 = cell index
    /// 0, 63 = cell index 63) is set iff placing `player`'s disc at cell
    /// `i` is legal. A set bit always points at an empty cell. Legality
    /// is undefined for the empty state, so `player` must be a colour.
    pub fn legal_moves(&self, player: Disc) -> (mask: u64)
        requires
            player != Disc::Empty,
        ensures
            forall|i: u64| i < 64 ==> ((#[trigger] mask_bit(mask, i)) <==> is_legal_move(
                self@, player, (i % 8) as int, (i / 8) as int)),
            forall|i: u64| i < 64 && (#[trigger] mask_bit(mask, i)) ==> self@[i as int]
                == Disc::Empty,
    {
        let mut mask: u64 = 0;
        proof {
            assert forall|i: u64| i < 64 implies !mask_bit(0u64, i) by {
                lemma_mask_bit_zero(i);
            }
        }
        let mut idx: u64 = 0;
        while idx < 64
            invariant
                idx <= 64,
                player != Disc::Empty,
                forall|i: u64| i < idx ==> ((#[trigger] mask_bit(mask, i)) <==> is_legal_move(
                    self@, player, (i % 8) as int, (i / 8) as int)),
                forall|i: u64| idx <= i < 64 ==> !(#[trigger] mask_bit(mask, i)),
            decreases 64 - idx,
        {
            let col: u8 = (idx % 8) as u8;
            let row: u8 = (idx / 8) as u8;
            if self.cell_legal(player, col, row) {
                let ghost before = mask;
                mask = mask | (1u64 << idx);
                proof {
                    assert forall|i: u64| i < 64 implies (mask_bit(mask, i) <==> (i == idx
                        || mask_bit(before, i))) by {
                        lemma_mask_bit_or(before, idx, i);
                    }
                }
            }
            idx = idx + 1;
        }
        proof {
            assert forall|i: u64| i < 64 && mask_bit(mask, i) implies self@[i as int]
                == Disc::Empty by {
                assert(is_legal_move(self@, player, (i % 8) as int, (i / 8) as int));
                assert(cell_index((i % 8) as int, (i / 8) as int) == i as int);
            }
        }
        mask
    }
}

impl Default for Board {
    /// A fresh board in the starting layout.
    fn default() -> (b: Board)
        ensures
            b@ == starting_board(),
    {
        Board::new()
    }
}

} // verus!
