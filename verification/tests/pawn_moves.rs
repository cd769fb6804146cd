use chess_core::game::Game;
use chess_core::parser::ParsedNotation;
use chess_core::piece::{Color, PieceTypes, Position};

#[test]
fn test_pawn_advances_white() {
    let mut game = Game::new_from_fen("K7/8/8/8/8/8/3P4/k7 w").unwrap();
    let (player, enemy) = game.get_ref_players(Color::White);
    assert_eq!(player.get_pieces().len(), 2);
    assert_eq!(enemy.get_pieces().len(), 1);

    // Check if legal moves are correct
    let white_pawn = player.get_piece(1).to_owned();
    let legal_positions = white_pawn.get_legal_positions(&mut game);
    assert_eq!(legal_positions.len(), 2);
    assert!(legal_positions.contains(&Position::from_algebraic("d3").unwrap()));
    assert!(legal_positions.contains(&Position::from_algebraic("d4").unwrap()));

    // Actually execute move and check board state
    let notation = ParsedNotation::Full(
        white_pawn.get_position(),
        Position::from_algebraic("d3").unwrap(),
        PieceTypes::Pawn,
    );
    game.validate_and_execute_move(notation).unwrap();
    let fen = game.export_fen();
    assert_eq!(fen, "K7/8/8/8/8/3P4/8/k7 w");

    game = Game::new_from_fen("K7/8/8/8/8/8/3P4/k7 w").unwrap();
    let (player, _enemy) = game.get_ref_players(Color::White);
    let white_pawn = player.get_piece(1).to_owned();
    let notation = ParsedNotation::Full(
        white_pawn.get_position(),
        Position::from_algebraic("d4").unwrap(),
        PieceTypes::Pawn,
    );
    game.validate_and_execute_move(notation).unwrap();
    let fen = game.export_fen();
    assert_eq!(fen, "K7/8/8/8/3P4/8/8/k7 w");
}

#[test]
fn test_pawn_takes_white() {
    let mut game = Game::new_from_fen("K7/8/8/8/8/2ppp3/3P4/k7 w").unwrap();
    let (player, enemy) = game.get_ref_players(Color::White);
    assert_eq!(player.get_pieces().len(), 2);
    assert_eq!(enemy.get_pieces().len(), 4);

    // Check if moves are legal
    let white_pawn = player.get_piece(1).to_owned();
    let legal_positions = white_pawn.get_legal_positions(&mut game);
    assert_eq!(legal_positions.len(), 2);
    assert!(legal_positions.contains(&Position::from_algebraic("c3").unwrap()));
    assert!(legal_positions.contains(&Position::from_algebraic("e3").unwrap()));

    // Actually execute move and check board state
    let notation = ParsedNotation::Full(
        white_pawn.get_position(),
        Position::from_algebraic("c3").unwrap(),
        PieceTypes::Pawn,
    );
    game.validate_and_execute_move(notation).unwrap();
    let fen = game.export_fen();
    assert_eq!(fen, "K7/8/8/8/8/2Ppp3/8/k7 w");

    game = Game::new_from_fen("K7/8/8/8/8/2ppp3/3P4/k7 w").unwrap();
    let (player, _enemy) = game.get_ref_players(Color::White);
    let white_pawn = player.get_piece(1).to_owned();
    let notation = ParsedNotation::Full(
        white_pawn.get_position(),
        Position::from_algebraic("e3").unwrap(),
        PieceTypes::Pawn,
    );
    game.validate_and_execute_move(notation).unwrap();
    let fen = game.export_fen();
    assert_eq!(fen, "K7/8/8/8/8/2ppP3/8/k7 w");
}

#[test]
fn test_pawn_blocked_straight_advance() {
    // the straight advance is blocked by the enemy pawn on d3, yet the
    // two diagonal captures stay available
    let mut game = Game::new_from_fen("K7/8/8/8/8/2ppp3/3P4/k7 w").unwrap();
    let (player, _enemy) = game.get_ref_players(Color::White);
    let white_pawn = player.get_piece(1).to_owned();
    let legal_positions = white_pawn.get_legal_positions(&mut game);
    assert!(!legal_positions.contains(&Position::from_algebraic("d3").unwrap()));
    assert!(!legal_positions.contains(&Position::from_algebraic("d4").unwrap()));
}

#[test]
fn test_pawn_double_advance_only_from_start_rank() {
    // the pawn stands on d3, away from its starting rank
    let mut game = Game::new_from_fen("K7/8/8/8/8/3P4/8/k7 w").unwrap();
    let (player, _enemy) = game.get_ref_players(Color::White);
    let white_pawn = player.get_piece(1).to_owned();
    let legal_positions = white_pawn.get_legal_positions(&mut game);
    assert_eq!(legal_positions.len(), 1);
    assert!(legal_positions.contains(&Position::from_algebraic("d4").unwrap()));
}

#[test]
fn test_pawn_advances_black() {
    let mut game = Game::new_from_fen("K7/3p4/8/8/8/8/8/k7 b").unwrap();
    let (player, _enemy) = game.get_ref_players(Color::Black);
    let black_pawn = player.get_piece(0).to_owned();
    let legal_positions = black_pawn.get_legal_positions(&mut game);
    assert_eq!(legal_positions.len(), 2);
    assert!(legal_positions.contains(&Position::from_algebraic("d6").unwrap()));
    assert!(legal_positions.contains(&Position::from_algebraic("d5").unwrap()));
    let notation = ParsedNotation::Full(
        black_pawn.get_position(),
        Position::from_algebraic("d5").unwrap(),
        PieceTypes::Pawn,
    );
    game.validate_and_execute_move(notation).unwrap();
    assert_eq!(game.export_fen(), "K7/8/8/3p4/8/8/8/k7 b");
}
