use chess_core::game::{Game, GameState};
use chess_core::parser::ParsedNotation;
use chess_core::piece::{Color, PieceTypes, Position};
use chess_core::rules::MoveError;

fn square(s: &str) -> Position {
    Position::from_algebraic(s).unwrap()
}

#[test]
fn test_checkmate_detected() {
    // White king a1 is attacked by the queen on b2, which the king c3
    // defends; every square around a1 is attacked as well
    let mut game = Game::new_from_fen("8/8/8/8/8/2k5/1q6/K7 w").unwrap();
    assert_eq!(game.update_game_state(), GameState::Checkmate);
}

#[test]
fn test_stalemate_detected() {
    // White king a1 is not attacked, but a2 and b1 are covered by the
    // rook on b2, and taking the rook walks into the queen on c3
    let mut game = Game::new_from_fen("7k/8/8/8/8/2q5/1r6/K7 w").unwrap();
    assert_eq!(game.update_game_state(), GameState::Stalemate);
}

#[test]
fn test_ongoing_with_check_flag() {
    // White king a1 is attacked by the undefended queen on b2, which
    // it can capture: the game goes on
    let mut game = Game::new_from_fen("k7/8/8/8/8/8/1q6/K7 w").unwrap();
    assert_eq!(game.update_game_state(), GameState::Ongoing);
    let (player, _) = game.get_ref_players(Color::White);
    assert!(player.is_in_check());
}

#[test]
fn test_must_resolve_existing_check() {
    let mut game = Game::new_from_fen("k7/8/8/8/8/8/1q6/K7 w").unwrap();
    assert_eq!(game.update_game_state(), GameState::Ongoing);
    // a1 -> a2 stays under the queen's eye
    let err = game
        .validate_and_execute_move(ParsedNotation::Full(
            square("a1"),
            square("a2"),
            PieceTypes::King,
        ))
        .unwrap_err();
    assert_eq!(err, MoveError::MustResolveExistingCheck);
    // capturing the queen resolves the check
    game.validate_and_execute_move(ParsedNotation::Full(
        square("a1"),
        square("b2"),
        PieceTypes::King,
    ))
    .unwrap();
    assert_eq!(game.export_fen(), "k7/8/8/8/8/8/1K6/8 w");
}

#[test]
fn test_move_causes_check_rejected() {
    // the white rook on a2 shields its king from the queen on a8 and
    // may not leave the file
    let mut game = Game::new_from_fen("q6k/8/8/8/8/8/R7/K7 w").unwrap();
    let err = game
        .validate_and_execute_move(ParsedNotation::Full(
            square("a2"),
            square("b2"),
            PieceTypes::Rook,
        ))
        .unwrap_err();
    assert_eq!(err, MoveError::MoveCausesCheck);
}

#[test]
fn test_short_notation_ambiguous() {
    // both rooks, a1 and a3, reach a2
    let mut game = Game::new_from_fen("k7/8/8/8/8/R7/8/R3K3 w").unwrap();
    let err = game
        .validate_and_execute_move(ParsedNotation::Short(square("a2"), PieceTypes::Rook))
        .unwrap_err();
    assert_eq!(err, MoveError::AmbiguousMove);
}

#[test]
fn test_short_notation_no_match() {
    // neither rook reaches b5
    let mut game = Game::new_from_fen("k7/8/8/8/8/R7/8/R3K3 w").unwrap();
    let err = game
        .validate_and_execute_move(ParsedNotation::Short(square("b5"), PieceTypes::Rook))
        .unwrap_err();
    assert_eq!(err, MoveError::NoMatchingPiece);
}

#[test]
fn test_short_notation_unique_source() {
    // only the a3 rook reaches h3
    let mut game = Game::new_from_fen("k7/8/8/8/8/R7/8/R3K3 w").unwrap();
    game.validate_and_execute_move(ParsedNotation::Short(square("h3"), PieceTypes::Rook))
        .unwrap();
    assert_eq!(game.export_fen(), "k7/8/8/8/8/7R/8/R3K3 w");
}

#[test]
fn test_full_notation_precheck_errors() {
    let mut game = Game::new_from_fen("K7/8/8/8/8/8/3P4/k7 w").unwrap();
    let err = game
        .validate_and_execute_move(ParsedNotation::Full(
            square("e4"),
            square("e5"),
            PieceTypes::Pawn,
        ))
        .unwrap_err();
    assert_eq!(err, MoveError::EmptySource);
    let err = game
        .validate_and_execute_move(ParsedNotation::Full(
            square("a1"),
            square("a2"),
            PieceTypes::King,
        ))
        .unwrap_err();
    assert_eq!(err, MoveError::WrongOwner);
    let err = game
        .validate_and_execute_move(ParsedNotation::Full(
            square("d2"),
            square("d3"),
            PieceTypes::Rook,
        ))
        .unwrap_err();
    assert_eq!(err, MoveError::PieceTypeMismatch);
}

#[test]
fn test_movement_rule_errors() {
    let mut game = Game::new_from_fen("K7/8/8/8/4p3/8/3PP2r/k6R w").unwrap();
    // a pawn cannot move sideways
    let err = game
        .validate_and_execute_move(ParsedNotation::Full(
            square("d2"),
            square("c2"),
            PieceTypes::Pawn,
        ))
        .unwrap_err();
    assert_eq!(err, MoveError::InvalidShape);
    // a pawn's diagonal needs something to capture
    let err = game
        .validate_and_execute_move(ParsedNotation::Full(
            square("d2"),
            square("c3"),
            PieceTypes::Pawn,
        ))
        .unwrap_err();
    assert_eq!(err, MoveError::NothingToCapture);
    // the rook on h1 cannot pass through the black rook on h2
    let err = game
        .validate_and_execute_move(ParsedNotation::Full(
            square("h1"),
            square("h3"),
            PieceTypes::Rook,
        ))
        .unwrap_err();
    assert_eq!(err, MoveError::PathObstructed);
}

#[test]
fn test_capture_own_piece_rejected() {
    let mut game = Game::new();
    // the white queen stands on d1; d2 holds its own pawn
    let err = game
        .validate_and_execute_move(ParsedNotation::Full(
            square("d1"),
            square("d2"),
            PieceTypes::Queen,
        ))
        .unwrap_err();
    assert_eq!(err, MoveError::OccupiedBySelf);
}

#[test]
fn test_validator_rolls_back_state() {
    // whatever the validator answers, the position afterwards is
    // exactly the position before
    let mut game = Game::new_from_fen("q6k/8/8/8/8/8/R7/K7 w").unwrap();
    let before = game.export_fen();
    let refused = game.does_move_cause_check(square("a2"), square("b2"));
    assert!(refused.is_err());
    assert_eq!(game.export_fen(), before);
    let allowed = game.does_move_cause_check(square("a2"), square("a3"));
    assert!(allowed.is_ok());
    assert_eq!(game.export_fen(), before);
}

#[test]
fn test_enumeration_leaves_state_unchanged() {
    let mut game = Game::new();
    let before = game.export_fen();
    let all = game.get_all_current_legal_positions();
    // the standard opening position: 8 pawns with two advances each,
    // two knights with two destinations each
    let total: usize = all.iter().map(|v| v.len()).sum();
    assert_eq!(total, 20);
    assert_eq!(game.export_fen(), before);
}

#[test]
fn test_blocked_sliders_have_no_moves() {
    let mut game = Game::new();
    let (player, _) = game.get_ref_players(Color::White);
    // in the standard setup the rooks, bishops and queen are walled in
    let rook = player.get_piece(8).to_owned();
    assert_eq!(rook.get_piece_type(), PieceTypes::Rook);
    assert_eq!(rook.get_legal_positions(&mut game).len(), 0);
    let (player, _) = game.get_ref_players(Color::White);
    let bishop = player.get_piece(10).to_owned();
    assert_eq!(bishop.get_piece_type(), PieceTypes::Bishop);
    assert_eq!(bishop.get_legal_positions(&mut game).len(), 0);
}

#[test]
fn test_bishop_and_queen_on_open_board() {
    let mut game = Game::new_from_fen("k7/8/8/8/3B4/8/8/K6Q w").unwrap();
    let (player, _) = game.get_ref_players(Color::White);
    let bishop = player.get_piece(0).to_owned();
    assert_eq!(bishop.get_piece_type(), PieceTypes::Bishop);
    // from d4 the four diagonals reach twelve squares; a1 holds the
    // bishop's own king
    let moves = bishop.get_legal_positions(&mut game);
    assert_eq!(moves.len(), 12);
    assert!(moves.contains(&square("h8")));
    assert!(moves.contains(&square("a7")));
    assert!(moves.contains(&square("g1")));
    assert!(moves.contains(&square("b2")));
    assert!(!moves.contains(&square("a1")));
    game.validate_and_execute_move(ParsedNotation::Full(
        square("h1"),
        square("h8"),
        PieceTypes::Queen,
    ))
    .unwrap();
    assert_eq!(game.export_fen(), "k6Q/8/8/8/3B4/8/8/K7 w");
}

#[test]
fn test_knight_moves_from_start() {
    let mut game = Game::new();
    let (player, _) = game.get_ref_players(Color::White);
    let knight = player.get_piece(9).to_owned();
    assert_eq!(knight.get_piece_type(), PieceTypes::Knight);
    let moves = knight.get_legal_positions(&mut game);
    assert_eq!(moves.len(), 2);
    assert!(moves.contains(&square("a3")));
    assert!(moves.contains(&square("c3")));
}
