use chess_core::game::{Game, GameState};
use chess_core::notation;
use chess_core::parser::{parse_action, parse_fen, Action, ParsedNotation, ParsingErr};
use chess_core::piece::{ChessMove, Color, PieceTypes, Position};

fn import_err(fen: &str) -> ParsingErr {
    match Game::new_from_fen(fen) {
        Ok(_) => panic!("expected the import to fail"),
        Err(e) => e,
    }
}

#[test]
fn test_initial_position_export() {
    let game = Game::new();
    assert_eq!(
        game.export_fen(),
        "rnbqkbnr/pppppppp/8/8/8/8/PPPPPPPP/RNBQKBNR w"
    );
}

#[test]
fn test_initial_position_is_ongoing() {
    let mut game = Game::new();
    assert_eq!(game.update_game_state(), GameState::Ongoing);
}

#[test]
fn test_fen_round_trip_of_initial_position() {
    let game = Game::new();
    let fen = game.export_fen();
    let reimported = Game::new_from_fen(&fen).unwrap();
    assert_eq!(reimported.export_fen(), fen);
}

#[test]
fn test_fen_round_trip_of_sparse_position() {
    let fen = "K7/8/8/2r5/8/5N2/8/k7 w";
    let game = Game::new_from_fen(fen).unwrap();
    assert_eq!(game.export_fen(), fen);
}

#[test]
fn test_fen_rank_count_rejected() {
    assert_eq!(
        import_err("K7/8/8/8/3P4/k7 w"),
        ParsingErr::RankCount
    );
}

#[test]
fn test_fen_rank_width_rejected() {
    assert_eq!(
        import_err("K7/8/8/8/8/8/8/k6 w"),
        ParsingErr::RankWidth
    );
}

#[test]
fn test_fen_unknown_char_rejected() {
    assert_eq!(
        import_err("K6x/8/8/8/8/8/8/k7 w"),
        ParsingErr::UnknownChar
    );
}

#[test]
fn test_fen_king_count_rejected() {
    assert_eq!(
        import_err("8/8/8/8/8/8/8/8 w"),
        ParsingErr::KingCount
    );
    assert_eq!(
        import_err("KK6/8/8/8/8/8/8/k7 w"),
        ParsingErr::KingCount
    );
}

#[test]
fn test_fen_missing_side_rejected() {
    assert_eq!(
        import_err("K7/8/8/8/8/8/8/k7"),
        ParsingErr::MissingInfo
    );
}

#[test]
fn test_fen_bad_side_rejected() {
    assert_eq!(
        import_err("K7/8/8/8/8/8/8/k7 x"),
        ParsingErr::SideToMove
    );
}

#[test]
fn test_fen_side_to_move_black() {
    let game = Game::new_from_fen("K7/8/8/8/8/8/8/k7 b").unwrap();
    let (player, _) = game.get_ref_players(Color::Black);
    assert_eq!(player.get_color(), Color::Black);
    assert_eq!(game.export_fen(), "K7/8/8/8/8/8/8/k7 b");
}

#[test]
fn test_parse_fen_catalog_order() {
    let parsed = parse_fen("K7/8/8/2r5/8/5N2/8/k7 w").unwrap();
    assert_eq!(parsed.white.len(), 2);
    assert_eq!(parsed.black.len(), 2);
    assert_eq!(parsed.white[0].get_piece_type(), PieceTypes::King);
    assert_eq!(parsed.white[1].get_piece_type(), PieceTypes::Knight);
    assert_eq!(parsed.black[0].get_piece_type(), PieceTypes::Rook);
    assert_eq!(parsed.black[1].get_piece_type(), PieceTypes::King);
    assert_eq!(
        parsed.black[0].get_position(),
        Position::from_algebraic("c5").unwrap()
    );
    assert_eq!(parsed.side, Color::White);
}

#[test]
fn test_parse_action_keywords() {
    assert!(matches!(parse_action("l"), Ok(Action::List)));
    assert!(matches!(parse_action("list"), Ok(Action::List)));
    assert!(matches!(parse_action("q"), Ok(Action::Quit)));
    assert!(matches!(parse_action("quit"), Ok(Action::Quit)));
}

#[test]
fn test_parse_action_short_move() {
    let to = Position::from_algebraic("d3").unwrap();
    assert_eq!(
        parse_action("d3").unwrap(),
        Action::Move(ParsedNotation::Short(to, PieceTypes::Pawn))
    );
    assert_eq!(
        parse_action("Nf3").unwrap(),
        Action::Move(ParsedNotation::Short(
            Position::from_algebraic("f3").unwrap(),
            PieceTypes::Knight
        ))
    );
}

#[test]
fn test_parse_action_full_move() {
    let from = Position::from_algebraic("d2").unwrap();
    let to = Position::from_algebraic("d3").unwrap();
    assert_eq!(
        parse_action("d2:d3").unwrap(),
        Action::Move(ParsedNotation::Full(from, to, PieceTypes::Pawn))
    );
    assert_eq!(
        parse_action("Qd1:h5").unwrap(),
        Action::Move(ParsedNotation::Full(
            Position::from_algebraic("d1").unwrap(),
            Position::from_algebraic("h5").unwrap(),
            PieceTypes::Queen
        ))
    );
}

#[test]
fn test_parse_action_errors() {
    assert_eq!(parse_action("").unwrap_err(), ParsingErr::Empty);
    assert_eq!(parse_action("\u{e9}2").unwrap_err(), ParsingErr::NonAscii);
    assert_eq!(parse_action("x3").unwrap_err(), ParsingErr::UnknownFigure);
    assert_eq!(parse_action("d2d3").unwrap_err(), ParsingErr::BadFormat);
    assert_eq!(parse_action("i3").unwrap_err(), ParsingErr::UnknownFigure);
    assert_eq!(parse_action("a9").unwrap_err(), ParsingErr::RankOutOfRange);
    assert_eq!(parse_action("Ki1:a1").unwrap_err(), ParsingErr::FileOutOfRange);
}

#[test]
fn test_parse_notation_full_only() {
    let parsed = notation::parse_notation("d2:d3").unwrap();
    assert_eq!(parsed.source_pos, Position::from_algebraic("d2").unwrap());
    assert_eq!(parsed.dest_pos, Position::from_algebraic("d3").unwrap());
    assert_eq!(parsed.piece_type, PieceTypes::Pawn);
    assert_eq!(
        notation::parse_notation("d3").unwrap_err(),
        notation::ParseNotationErr::BadFormat
    );
    assert_eq!(
        notation::parse_notation("").unwrap_err(),
        notation::ParseNotationErr::Empty
    );
}

#[test]
fn test_from_algebraic_bounds() {
    assert_eq!(
        Position::from_algebraic("a1").unwrap(),
        Position { x: 0, y: 0 }
    );
    assert_eq!(
        Position::from_algebraic("h8").unwrap(),
        Position { x: 7, y: 7 }
    );
    assert!(Position::from_algebraic("i1").is_none());
    assert!(Position::from_algebraic("a9").is_none());
    assert!(Position::from_algebraic("a").is_none());
}

#[test]
fn test_position_arithmetic() {
    let d2 = Position::from_algebraic("d2").unwrap();
    let d4 = Position::from_algebraic("d4").unwrap();
    let m = d2.get_move_to(d4);
    assert_eq!((m.x, m.y), (0, 2));
    assert_eq!(d2.add_move(m), Some(d4));
    assert_eq!(d2.add_move(ChessMove { x: -5, y: 0 }), None);
    let s = ChessMove { x: 7, y: -3 }.signum();
    assert_eq!((s.x, s.y), (1, -1));
}

#[test]
fn test_kingless_side_detected() {
    // the king total is two, yet Black has none: the import accepts it
    // and the host must notice before asking for check detection
    let game = Game::new_from_fen("KK6/8/8/8/8/8/8/n7 w").unwrap();
    let (white, black) = game.get_ref_players(Color::White);
    assert!(white.has_king_record());
    assert!(!black.has_king_record());
}
