use othebot::{algebric2xy, Board, CellMark, Disc, Game, OthebotError};

fn bit(mask: u64, col: u8, row: u8) -> bool {
    (mask >> (row as u64 * 8 + col as u64)) & 1 == 1
}

fn make_any_turn(g: &mut Game) -> bool {
    for row in 0..8u8 {
        for col in 0..8u8 {
            if g.make_turn((col, row)).is_ok() {
                return true;
            }
        }
    }
    false
}

#[test]
fn starting_board_layout() {
    let b = Board::new();
    for row in 0..8u8 {
        for col in 0..8u8 {
            let expected = match (col, row) {
                (3, 3) | (4, 4) => Disc::White,
                (4, 3) | (3, 4) => Disc::Black,
                _ => Disc::Empty,
            };
            assert_eq!(b.get_disc((col, row)), expected);
        }
    }
}

#[test]
fn starting_board_scores() {
    let b = Board::new();
    assert_eq!(b.scores(), (2, 2));
}

#[test]
fn opening_legal_moves_black() {
    let b = Board::new();
    let mask = b.legal_moves(Disc::Black);
    // The classic opening for Black: d3, c4, f5, e6.
    let expected: u64 = (1 << 19) | (1 << 26) | (1 << 37) | (1 << 44);
    assert_eq!(mask, expected);
    assert!(bit(mask, 3, 2));
    assert!(bit(mask, 2, 3));
    assert!(bit(mask, 5, 4));
    assert!(bit(mask, 4, 5));
}

#[test]
fn opening_legal_moves_white() {
    let b = Board::new();
    let mask = b.legal_moves(Disc::White);
    // The mirror opening for White: e3, f4, c5, d6.
    let expected: u64 = (1 << 20) | (1 << 29) | (1 << 34) | (1 << 43);
    assert_eq!(mask, expected);
}

#[test]
fn vertical_directions_both_checked() {
    // A white disc below and above a black disc: the empty cells that
    // extend those vertical lines are legal for White in both directions.
    let mut b = Board::new();
    for row in 0..8u8 {
        for col in 0..8u8 {
            b.change_disc((col, row), Disc::Empty);
        }
    }
    b.change_disc((2, 3), Disc::White);
    b.change_disc((2, 4), Disc::Black);
    b.change_disc((6, 4), Disc::Black);
    b.change_disc((6, 5), Disc::White);
    let mask = b.legal_moves(Disc::White);
    assert!(bit(mask, 2, 5)); // downward capture: white, black, placement
    assert!(bit(mask, 6, 3)); // upward capture: placement, black, white
    assert!(!bit(mask, 2, 2));
    assert!(!bit(mask, 6, 6));
}

#[test]
fn long_capture_runs() {
    // Clear the board, then lay a row: W B B B _ B W.
    let mut b = Board::new();
    for row in 0..8u8 {
        for col in 0..8u8 {
            b.change_disc((col, row), Disc::Empty);
        }
    }
    b.change_disc((0, 2), Disc::White);
    b.change_disc((1, 2), Disc::Black);
    b.change_disc((2, 2), Disc::Black);
    b.change_disc((3, 2), Disc::Black);
    b.change_disc((5, 2), Disc::Black);
    b.change_disc((6, 2), Disc::White);
    let mask = b.legal_moves(Disc::White);
    // (4,2) captures leftward over three discs and rightward over one.
    assert!(bit(mask, 4, 2));
    // An adjacent own disc with no opponent disc in between captures nothing.
    assert!(!bit(mask, 7, 2));
    // For Black both neighbours of (4,2) are its own discs: no capture.
    let black_mask = b.legal_moves(Disc::Black);
    assert!(!bit(black_mask, 4, 2));
    // Black does capture the white disc at (6,2) by playing at (7,2).
    assert!(bit(black_mask, 7, 2));
}

#[test]
fn legal_bits_only_on_empty_cells() {
    let mut b = Board::new();
    b.change_disc((2, 2), Disc::Black);
    b.change_disc((5, 5), Disc::White);
    for &player in &[Disc::White, Disc::Black] {
        let mask = b.legal_moves(player);
        for row in 0..8u8 {
            for col in 0..8u8 {
                if bit(mask, col, row) {
                    assert_eq!(b.get_disc((col, row)), Disc::Empty);
                }
            }
        }
    }
}

#[test]
fn place_then_read_round_trip() {
    let mut b = Board::new();
    b.change_disc((5, 2), Disc::White);
    assert_eq!(b.get_disc((5, 2)), Disc::White);
    b.change_disc((5, 2), Disc::Black);
    assert_eq!(b.get_disc((5, 2)), Disc::Black);
    b.change_disc((5, 2), Disc::Empty);
    assert_eq!(b.get_disc((5, 2)), Disc::Empty);
    // No other cell was touched.
    assert_eq!(b.get_disc((3, 3)), Disc::White);
}

#[test]
fn scores_count_whites_and_blacks() {
    let mut b = Board::new();
    b.change_disc((0, 0), Disc::White);
    b.change_disc((7, 7), Disc::White);
    b.change_disc((0, 7), Disc::Black);
    assert_eq!(b.scores(), (4, 3));
}

#[test]
fn scores_plus_empties_is_64() {
    let mut b = Board::new();
    b.change_disc((1, 6), Disc::Black);
    b.change_disc((2, 6), Disc::White);
    b.change_disc((3, 6), Disc::Black);
    let (white, black) = b.scores();
    let mut empties: u32 = 0;
    for row in 0..8u8 {
        for col in 0..8u8 {
            if b.get_disc((col, row)) == Disc::Empty {
                empties += 1;
            }
        }
    }
    assert_eq!(white as u32 + black as u32 + empties, 64);
}

#[test]
fn default_board_is_starting_board() {
    let b = Board::default();
    assert_eq!(b.scores(), (2, 2));
    assert_eq!(b.get_disc((3, 3)), Disc::White);
    assert_eq!(b.get_disc((4, 3)), Disc::Black);
}

#[test]
fn opposite_swaps_colours() {
    assert_eq!(Disc::White.opposite(), Disc::Black);
    assert_eq!(Disc::Black.opposite(), Disc::White);
    assert_eq!(Disc::Empty.opposite(), Disc::Empty);
}

#[test]
fn parse_corner_coordinates() {
    assert_eq!(algebric2xy("a1").unwrap(), (0, 0));
    assert_eq!(algebric2xy("h8").unwrap(), (7, 7));
    assert_eq!(algebric2xy("g8").unwrap(), (6, 7));
    assert_eq!(algebric2xy("b7").unwrap(), (1, 6));
}

#[test]
fn parse_rejects_bad_coordinates() {
    assert!(matches!(algebric2xy("i1"), Err(OthebotError::IllegalMove)));
    assert!(matches!(algebric2xy("a9"), Err(OthebotError::IllegalMove)));
    assert!(matches!(algebric2xy(""), Err(OthebotError::IllegalMove)));
    assert!(matches!(algebric2xy("abc"), Err(OthebotError::IllegalMove)));
    assert!(matches!(algebric2xy("a0"), Err(OthebotError::IllegalMove)));
    assert!(matches!(algebric2xy("1a"), Err(OthebotError::IllegalMove)));
    // Two characters but the column letter is out of range.
    assert!(matches!(algebric2xy("é1"), Err(OthebotError::IllegalMove)));
}

#[test]
fn black_moves_first() {
    let g = Game::new("Alice".to_string(), "Bob".to_string());
    assert_eq!(g.turn(), Disc::Black);
}

#[test]
fn move_before_compute_fails() {
    let mut g = Game::new("Alice".to_string(), "Bob".to_string());
    let r = g.make_turn((3, 2));
    assert!(matches!(r, Err(OthebotError::LegalMovesNotComputed)));
    assert_eq!(g.turn(), Disc::Black);
    assert_eq!(g.scores(), (2, 2));
}

#[test]
fn illegal_move_leaves_game_unchanged() {
    let mut g = Game::new("Alice".to_string(), "Bob".to_string());
    g.legal_moves();
    let r = g.make_turn((0, 0));
    assert!(matches!(r, Err(OthebotError::IllegalMove)));
    assert_eq!(g.turn(), Disc::Black);
    assert_eq!(g.scores(), (2, 2));
    // The cache survives a rejected move: a legal move still goes through.
    assert!(g.make_turn((3, 2)).is_ok());
}

#[test]
fn accepted_move_flips_turn_and_clears_cache() {
    let mut g = Game::new("Alice".to_string(), "Bob".to_string());
    g.legal_moves();
    let r = g.make_turn((3, 2));
    assert!(r.is_ok());
    assert_eq!(g.turn(), Disc::White);
    // The cache is cleared: move-dependent operations fail again.
    assert!(matches!(g.make_turn((2, 3)), Err(OthebotError::LegalMovesNotComputed)));
    assert!(matches!(g.render(), Err(OthebotError::LegalMovesNotComputed)));
}

#[test]
fn accepted_move_places_disc_without_capture() {
    let mut g = Game::new("Alice".to_string(), "Bob".to_string());
    g.legal_moves();
    assert!(g.make_turn((3, 2)).is_ok());
    // The disc is placed but no opponent disc is flipped.
    assert_eq!(g.scores(), (2, 3));
    g.legal_moves();
    let cells = g.render().unwrap();
    assert_eq!(cells[19], CellMark::Black);
}

#[test]
fn turns_alternate_over_a_sequence_of_moves() {
    let mut g = Game::new("Alice".to_string(), "Bob".to_string());
    let mut expected = Disc::Black;
    for _ in 0..4 {
        assert_eq!(g.turn(), expected);
        g.legal_moves();
        assert!(make_any_turn(&mut g));
        expected = expected.opposite();
    }
}

#[test]
fn player_names_follow_turn() {
    let mut g = Game::new("Alice".to_string(), "Bob".to_string());
    assert_eq!(g.white_name(), "Alice");
    assert_eq!(g.black_name(), "Bob");
    assert_eq!(g.player_name(), "Bob");
    g.legal_moves();
    assert!(g.make_turn((3, 2)).is_ok());
    assert_eq!(g.player_name(), "Alice");
}

#[test]
fn render_marks_discs_and_legal_cells() {
    let mut g = Game::new("Alice".to_string(), "Bob".to_string());
    assert!(matches!(g.render(), Err(OthebotError::LegalMovesNotComputed)));
    g.legal_moves();
    let cells = g.render().unwrap();
    assert_eq!(cells.len(), 64);
    assert_eq!(cells[27], CellMark::White);
    assert_eq!(cells[36], CellMark::White);
    assert_eq!(cells[28], CellMark::Black);
    assert_eq!(cells[35], CellMark::Black);
    // Black to move: d3, c4, f5, e6 are marked legal.
    assert_eq!(cells[19], CellMark::Legal);
    assert_eq!(cells[26], CellMark::Legal);
    assert_eq!(cells[37], CellMark::Legal);
    assert_eq!(cells[44], CellMark::Legal);
    assert_eq!(cells[0], CellMark::Empty);
    let legal = cells
        .iter()
        .filter(|c| matches!(c, CellMark::Legal))
        .count();
    assert_eq!(legal, 4);
}
