//! The game aggregate: board, the two players and the turn, with the
//! move-validation pipeline and the per-turn state classification.

use vstd::prelude::*;

use crate::board::{at2, positions_distinct, Board, BoardEntry};
use crate::fen::{
    chars_to_string, count_kings, digit_char_of, enc_rank_aux, enc_ranks, fen_chars, fen_parse,
    from_square, lemma_dec_ranks_len, lemma_fen_round_trip, lemma_pieces_from_contains,
    lemma_pieces_from_distinct, lemma_pieces_from_src, lemma_sq_pos_injective, piece_char_of,
    pieces_from, sq_pos, squares_of,
};
use crate::parser::{parse_fen, ParsedNotation, ParsingErr};
use crate::piece::{Color, Piece, PieceTypes, Position};
use crate::player::{checked_by, has_king, init_pieces_spec, Player};
use crate::rules::{reach_result, reachable, MoveError};
use crate::validator::{
    commit_move, has_legal_move, legal_destinations, lemma_apply_preserves_wf, live_legal,
    pieces_wf_seq, state_of, would_cause_check, StateView,
};

verus! {

/// How a position stands for the side to move, evaluated at the start
/// of its turn.
#[derive(Clone, Copy, PartialEq, Eq, Structural, Debug)]
pub enum GameState {
    /// The side to move has no legal move and its king is attacked.
    Checkmate,
    /// The side to move has no legal move and its king is safe.
    Stalemate,
    /// The side to move has at least one legal move.
    Ongoing,
}

pub struct Game {
    pub board: Board,
    pub white: Player,
    pub black: Player,
    pub current_player: Color,
}

/// Everything a `Game` is, mathematically: grid, catalogs, the two
/// cached check flags and the turn.
#[verifier::ext_equal]
pub struct GameView {
    pub state: StateView,
    pub white_color: Color,
    pub black_color: Color,
    pub white_check: bool,
    pub black_check: bool,
    pub turn: Color,
}

impl View for Game {
    type V = GameView;

    open spec fn view(&self) -> GameView {
        GameView {
            state: self.st(),
            white_color: self.white.color,
            black_color: self.black.color,
            white_check: self.white.in_check,
            black_check: self.black.in_check,
            turn: self.current_player,
        }
    }
}

/// Record `i` of `pieces` is a live piece of type `pt` that can reach
/// `to` — a candidate source for a short-notation move.
pub open spec fn matches_at(
    pieces: Seq<Piece>,
    pt: PieceTypes,
    to: Position,
    b: Seq<Option<BoardEntry>>,
    i: int,
) -> bool {
    &&& 0 <= i < pieces.len()
    &&& !pieces[i].taken
    &&& pieces[i].piece_type == pt
    &&& reachable(pieces[i], to, b)
}

/// How many candidate sources stand among the first `i` records.
pub open spec fn count_matches(
    pieces: Seq<Piece>,
    pt: PieceTypes,
    to: Position,
    b: Seq<Option<BoardEntry>>,
    i: int,
) -> int
    decreases i,
{
    if i <= 0 {
        0
    } else {
        count_matches(pieces, pt, to, b, i - 1) + if matches_at(pieces, pt, to, b, i - 1) {
            1int
        } else {
            0
        }
    }
}

/// The index of the first candidate source at or after `i` (the
/// catalog's length when there is none).
pub open spec fn first_match_from(
    pieces: Seq<Piece>,
    pt: PieceTypes,
    to: Position,
    b: Seq<Option<BoardEntry>>,
    i: int,
) -> int
    decreases pieces.len() - i,
{
    if i < 0 || i >= pieces.len() {
        pieces.len() as int
    } else if matches_at(pieces, pt, to, b, i) {
        i
    } else {
        first_match_from(pieces, pt, to, b, i + 1)
    }
}

pub open spec fn first_match(
    pieces: Seq<Piece>,
    pt: PieceTypes,
    to: Position,
    b: Seq<Option<BoardEntry>>,
) -> int {
    first_match_from(pieces, pt, to, b, 0)
}

/// Short-notation resolution: exactly one candidate source must exist;
/// zero is `NoMatchingPiece`, two or more `AmbiguousMove`.
pub open spec fn short_result(
    s: StateView,
    cat: Seq<Piece>,
    to: Position,
    pt: PieceTypes,
) -> Result<Position, MoveError> {
    let c = count_matches(cat, pt, to, s.board, cat.len() as int);
    if c == 0 {
        Err(MoveError::NoMatchingPiece)
    } else if c == 1 {
        Ok(cat[first_match(cat, pt, to, s.board)].position)
    } else {
        Err(MoveError::AmbiguousMove)
    }
}

/// Full-notation screening: the source square must hold a piece, the
/// piece must belong to the mover and be of the stated type, and the
/// movement rules must accept the move.
pub open spec fn full_result(
    s: StateView,
    mc: Color,
    from: Position,
    to: Position,
    pt: PieceTypes,
) -> Result<(), MoveError> {
    match s.at(from) {
        None => Err(MoveError::EmptySource),
        Some(e) => if e.player_color != mc {
            Err(MoveError::WrongOwner)
        } else if s.cat(mc)[e.piece_index as int].piece_type != pt {
            Err(MoveError::PieceTypeMismatch)
        } else {
            reach_result(s.cat(mc)[e.piece_index as int], to, s.board)
        },
    }
}

/// Resolution of a move request to a concrete source and destination.
pub open spec fn resolve_notation(
    s: StateView,
    mc: Color,
    cat: Seq<Piece>,
    notation: ParsedNotation,
) -> Result<(Position, Position), MoveError> {
    match notation {
        ParsedNotation::Short(to, pt) => match short_result(s, cat, to, pt) {
            Ok(f) => Ok((f, to)),
            Err(e) => Err(e),
        },
        ParsedNotation::Full(from, to, pt) => match full_result(s, mc, from, to, pt) {
            Ok(u) => Ok((from, to)),
            Err(e) => Err(e),
        },
    }
}

/// The outcome of the whole validation pipeline: resolution, movement
/// rules, then check-safety (`mover_flag` is the mover's cached
/// in-check flag, which selects between the two check errors).
pub open spec fn move_outcome(
    s: StateView,
    mc: Color,
    cat: Seq<Piece>,
    mover_flag: bool,
    notation: ParsedNotation,
) -> Result<(Position, Position), MoveError> {
    match resolve_notation(s, mc, cat, notation) {
        Err(e) => Err(e),
        Ok((f, t)) => if s.causes_check(mc, f, t) {
            Err(
                if mover_flag {
                    MoveError::MustResolveExistingCheck
                } else {
                    MoveError::MoveCausesCheck
                },
            )
        } else {
            Ok((f, t))
        },
    }
}

/// Every position a notation value names lies on the board.
pub open spec fn notation_wf(notation: ParsedNotation) -> bool {
    match notation {
        ParsedNotation::Short(to, pt) => to.wf(),
        ParsedNotation::Full(from, to, pt) => from.wf() && to.wf(),
    }
}

impl Game {
    /// The grid and the two catalogs as one mathematical state.
    pub open spec fn st(self) -> StateView {
        StateView { board: self.board@, white: self.white.pieces@, black: self.black.pieces@ }
    }

    /// The game's invariant: the grid is full-sized, the catalogs carry
    /// their side's color, and occupied squares correspond one to one
    /// with non-captured records.
    pub open spec fn wf(self) -> bool {
        &&& self.board.wf()
        &&& self.white.color is White
        &&& self.black.color is Black
        &&& self.white.pieces_wf()
        &&& self.black.pieces_wf()
        &&& self.st().wf()
    }

    /// Both catalogs hold a King record.  Guaranteed by the standard
    /// setup; an imported position is only checked for a king total of
    /// two, so an import may leave one side kingless and this must be
    /// required separately wherever a king is looked up.
    pub open spec fn kings_ok(self) -> bool {
        has_king(self.white.pieces@) && has_king(self.black.pieces@)
    }

    /// The catalog of the side to move.
    pub open spec fn mover_cat(self) -> Seq<Piece> {
        if self.current_player is White {
            self.white.pieces@
        } else {
            self.black.pieces@
        }
    }

    /// The cached in-check flag of the side to move.
    pub open spec fn mover_in_check(self) -> bool {
        if self.current_player is White {
            self.white.in_check
        } else {
            self.black.in_check
        }
    }

    /// A fresh game: both sides in their standard setup, White to move.
    pub fn new() -> (g: Game)
        ensures
            g.wf(),
            g.kings_ok(),
            g.current_player is White,
            g.white.pieces@ == init_pieces_spec(Color::White),
            g.black.pieces@ == init_pieces_spec(Color::Black),
            g.white.in_check == false,
            g.black.in_check == false,
    {
        let mut board = Board::new();
        let white = Player::new(Color::White);
        let black = Player::new(Color::Black);
        proof {
            assert(positions_distinct(white.pieces@, black.pieces@));
        }
        board.init_grid(&white, &black);
        let g = Game { board, white, black, current_player: Color::White };
        proof {
            assert forall|x: int, y: int| crate::piece::in_bounds(x, y) implies g.st().entry_ok(
                x,
                y,
            ) by {
                match at2(g.board@, x, y) {
                    None => {},
                    Some(e) => {
                        if e.player_color is White {
                            assert(!g.white.pieces@[e.piece_index as int].taken);
                        } else {
                            assert(!g.black.pieces@[e.piece_index as int].taken);
                        }
                    },
                }
            }
            assert(g.st().cat_on_board(Color::White));
            assert(g.st().cat_on_board(Color::Black));
        }
        g
    }

    /// Import a game from the text form of a position.  On success the
    /// two catalogs hold the pieces of the description in scan order,
    /// the grid corresponds to them exactly, and the read side is to
    /// move; on failure the exact refusal of the text is returned.
    #[verifier::loop_isolation(false)]
    #[verifier::rlimit(100)]
    pub fn new_from_fen(fen: &str) -> (r: Result<Game, ParsingErr>)
        ensures
            match fen_parse(fen@) {
                Ok((sq, side)) => match r {
                    Ok(g) => g.wf() && g.current_player == side && g.white.pieces@
                        == pieces_from(sq, Color::White, 0) && g.black.pieces@ == pieces_from(
                        sq,
                        Color::Black,
                        0,
                    ) && g.white.in_check == false && g.black.in_check == false && squares_of(
                        g.st(),
                    ) == sq,
                    Err(e2) => false,
                },
                Err(e) => match r {
                    Ok(g) => false,
                    Err(e2) => e2 == e,
                },
            },
    {
        let parsed = match parse_fen(fen) {
            Ok(parsed) => parsed,
            Err(e) => {
                return Err(e);
            },
        };
        let ghost sq = (match fen_parse(fen@) {
            Ok((q, c)) => q,
            Err(e) => Seq::empty(),
        });
        proof {
            assert(sq.len() == 64) by {
                lemma_dec_ranks_len(fen@);
            }
        }
        let mut board = Board::new();
        let white = Player::new_from(parsed.white, Color::White);
        let black = Player::new_from(parsed.black, Color::Black);
        proof {
            lemma_pieces_from_src(sq, Color::White, 0);
            lemma_pieces_from_src(sq, Color::Black, 0);
            lemma_pieces_from_distinct(sq, Color::White);
            lemma_pieces_from_distinct(sq, Color::Black);
            assert forall|i: int| 0 <= i < white.pieces@.len() implies (#[trigger] white.pieces@[i]).color
                is White && white.pieces@[i].position.wf() && !white.pieces@[i].taken by {
                assert(from_square(sq, Color::White, white.pieces@[i], 0));
            }
            assert forall|i: int| 0 <= i < black.pieces@.len() implies (#[trigger] black.pieces@[i]).color
                is Black && black.pieces@[i].position.wf() && !black.pieces@[i].taken by {
                assert(from_square(sq, Color::Black, black.pieces@[i], 0));
            }
            assert forall|i: int, j: int|
                0 <= i < white.pieces@.len() && 0 <= j < black.pieces@.len() implies (
            #[trigger] white.pieces@[i]).position != (#[trigger] black.pieces@[j]).position by {
                assert(from_square(sq, Color::White, white.pieces@[i], 0));
                assert(from_square(sq, Color::Black, black.pieces@[j], 0));
                let p1 = white.pieces@[i];
                let p2 = black.pieces@[j];
                let j1 = choose|j1: int|
                    0 <= j1 < sq.len() && sq[j1] == Some((Color::White, p1.piece_type)) && p1
                        == (Piece {
                        color: Color::White,
                        position: sq_pos(j1),
                        taken: false,
                        piece_type: p1.piece_type,
                    });
                let j2 = choose|j2: int|
                    0 <= j2 < sq.len() && sq[j2] == Some((Color::Black, p2.piece_type)) && p2
                        == (Piece {
                        color: Color::Black,
                        position: sq_pos(j2),
                        taken: false,
                        piece_type: p2.piece_type,
                    });
                if p1.position == p2.position {
                    lemma_sq_pos_injective(j1, j2);
                }
            }
        }
        board.init_grid(&white, &black);
        let g = Game { board, white, black, current_player: parsed.side };
        proof {
            assert forall|x: int, y: int| crate::piece::in_bounds(x, y) implies g.st().entry_ok(
                x,
                y,
            ) by {
                match at2(g.board@, x, y) {
                    None => {},
                    Some(e) => {
                        if e.player_color is White {
                            assert(!g.white.pieces@[e.piece_index as int].taken);
                        } else {
                            assert(!g.black.pieces@[e.piece_index as int].taken);
                        }
                    },
                }
            }
            assert(g.st().cat_on_board(Color::White));
            assert(g.st().cat_on_board(Color::Black));
            assert forall|i: int| 0 <= i < 64 implies squares_of(g.st())[i] == sq[i] by {
                assert(0 <= i % 8 < 8 && 0 <= i / 8 < 8);
                match sq[i] {
                    Some(ct) => {
                        let c = ct.0;
                        let t = ct.1;
                        lemma_pieces_from_contains(sq, c, 0, i, t);
                        let cat = g.st().cat(c);
                        let k = choose|k: int|
                            0 <= k < cat.len() && #[trigger] cat[k] == (Piece {
                                color: c,
                                position: sq_pos(i),
                                taken: false,
                                piece_type: t,
                            });
                        assert(at2(
                            g.board@,
                            cat[k].position.x as int,
                            cat[k].position.y as int,
                        ) == Some(BoardEntry { player_color: c, piece_index: k as usize }));
                        assert(cat[k].position.x as int == i % 8 && cat[k].position.y as int == 7
                            - i / 8);
                    },
                    None => {
                        match at2(g.board@, i % 8, 7 - i / 8) {
                            None => {},
                            Some(e) => {
                                let cat = g.st().cat(e.player_color);
                                let p = cat[e.piece_index as int];
                                assert(from_square(sq, e.player_color, p, 0));
                                let j = choose|j: int|
                                    0 <= j < sq.len() && sq[j] == Some(
                                        (e.player_color, p.piece_type),
                                    ) && p == (Piece {
                                        color: e.player_color,
                                        position: sq_pos(j),
                                        taken: false,
                                        piece_type: p.piece_type,
                                    });
                                assert(p.position == (Position {
                                    x: (i % 8) as usize,
                                    y: (7 - i / 8) as usize,
                                }));
                                assert(sq_pos(j) == sq_pos(i));
                                lemma_sq_pos_injective(j, i);
                                assert(false);
                            },
                        }
                    },
                }
            }
            assert(squares_of(g.st()) =~= sq);
            assert forall|i: int| 0 <= i < g.white.pieces@.len() implies (#[trigger] g.white.pieces@[i]).color
                == g.white.color && g.white.pieces@[i].position.wf() by {
                assert(white.pieces@[i].color is White && white.pieces@[i].position.wf());
            }
            assert forall|i: int| 0 <= i < g.black.pieces@.len() implies (#[trigger] g.black.pieces@[i]).color
                == g.black.color && g.black.pieces@[i].position.wf() by {
                assert(black.pieces@[i].color is Black && black.pieces@[i].position.wf());
            }
            assert(g.white.pieces.len() == g.white.pieces@.len());
            assert(g.black.pieces.len() == g.black.pieces@.len());
            assert(g.wf());
        }
        Ok(g)
    }

    /// The two players, mover first, for the given side to move.
    pub fn get_ref_players(&self, current_player: Color) -> (r: (&Player, &Player))
        ensures
            *r.0 == (if current_player is White {
                self.white
            } else {
                self.black
            }),
            *r.1 == (if current_player is White {
                self.black
            } else {
                self.white
            }),
    {
        match current_player {
            Color::White => (&self.white, &self.black),
            Color::Black => (&self.black, &self.white),
        }
    }

    pub fn get_ref_board(&self) -> (r: &Board)
        ensures
            *r == self.board,
    {
        &self.board
    }

    /// The check-safety test of the move pipeline: simulate `(from, to)`
    /// for the side to move, judge, and roll everything back.  `Ok` when
    /// the move leaves the mover's own king safe; otherwise the error
    /// says whether the mover was already in check (by its cached flag)
    /// or the move itself would expose the king.
    pub fn does_move_cause_check(&mut self, from: Position, to: Position) -> (r: Result<
        (),
        MoveError,
    >)
        requires
            old(self).wf(),
            old(self).kings_ok(),
            old(self).st().move_prereq(old(self).current_player, from, to),
        ensures
            final(self)@ == old(self)@,
            r == (if old(self).st().causes_check(old(self).current_player, from, to) {
                Err::<(), MoveError>(
                    if old(self).mover_in_check() {
                        MoveError::MustResolveExistingCheck
                    } else {
                        MoveError::MoveCausesCheck
                    },
                )
            } else {
                Ok::<(), MoveError>(())
            }),
    {
        let already_in_check: bool = match self.current_player {
            Color::White => self.white.is_in_check(),
            Color::Black => self.black.is_in_check(),
        };
        let now_in_check: bool = match self.current_player {
            Color::White => {
                proof {
                    assert(state_of(self.board, self.white, self.black) =~= self.st());
                }
                would_cause_check(&mut self.white, &mut self.black, &mut self.board, from, to)
            },
            Color::Black => {
                proof {
                    assert(state_of(self.board, self.black, self.white) =~= self.st());
                }
                would_cause_check(&mut self.black, &mut self.white, &mut self.board, from, to)
            },
        };
        proof {
            assert(self@ =~= old(self)@);
        }
        if now_in_check {
            if already_in_check {
                Err(MoveError::MustResolveExistingCheck)
            } else {
                Err(MoveError::MoveCausesCheck)
            }
        } else {
            Ok(())
        }
    }

    /// Commit `(from, to)` for the side to move.  This is the one
    /// mutation of the engine that is meant to persist; the occupancy
    /// invariant is preserved.  Returns whether the mover's king is
    /// attacked afterwards.
    fn execute_move(&mut self, from: Position, to: Position) -> (r: bool)
        requires
            old(self).wf(),
            old(self).kings_ok(),
            old(self).st().move_prereq(old(self).current_player, from, to),
        ensures
            final(self).wf(),
            final(self).kings_ok(),
            final(self).st() == old(self).st().apply(old(self).current_player, from, to),
            final(self).current_player == old(self).current_player,
            final(self).white.in_check == old(self).white.in_check,
            final(self).black.in_check == old(self).black.in_check,
            r == old(self).st().apply(old(self).current_player, from, to).in_check_of(
                old(self).current_player,
            ),
    {
        proof {
            assert(old(self).st().entry_ok(from.x as int, from.y as int));
            assert(old(self).st().entry_ok(to.x as int, to.y as int));
            lemma_apply_preserves_wf(old(self).st(), old(self).current_player, from, to);
        }
        let r: bool = match self.current_player {
            Color::White => {
                proof {
                    assert(state_of(self.board, self.white, self.black) =~= self.st());
                }
                commit_move(&mut self.white, &mut self.black, &mut self.board, from, to)
            },
            Color::Black => {
                proof {
                    assert(state_of(self.board, self.black, self.white) =~= self.st());
                }
                commit_move(&mut self.black, &mut self.white, &mut self.board, from, to)
            },
        };
        proof {
            assert(state_of(self.board, self.white, self.black) =~= self.st());
            assert(state_of(self.board, self.black, self.white) =~= self.st());
            assert(has_king(self.white.pieces@)) by {
                let i = choose|i: int|
                    0 <= i < old(self).white.pieces@.len() && old(
                        self,
                    ).white.pieces@[i].piece_type is King;
                assert(self.white.pieces@[i].piece_type is King);
            }
            assert(has_king(self.black.pieces@)) by {
                let i = choose|i: int|
                    0 <= i < old(self).black.pieces@.len() && old(
                        self,
                    ).black.pieces@[i].piece_type is King;
                assert(self.black.pieces@[i].piece_type is King);
            }
            assert(self.white.pieces_wf());
            assert(self.black.pieces_wf());
        }
        r
    }

    /// Write the position in its text form: eight `/`-separated ranks,
    /// highest first, digits for runs of empty squares, letters for
    /// pieces, then the side to move.
    pub fn export_fen(&self) -> (r: String)
        requires
            self.wf(),
        ensures
            r@ == fen_chars(squares_of(self.st()), self.current_player),
    {
        let ghost sq = squares_of(self.st());
        let mut out: Vec<char> = Vec::new();
        proof {
            assert(sq.subrange(0, 64) =~= sq);
            assert(out@ + enc_ranks(sq.subrange(0, 64)) =~= enc_ranks(sq));
        }
        let mut k: usize = 0;
        while k < 8
            invariant
                self.wf(),
                k <= 8,
                sq == squares_of(self.st()),
                sq.len() == 64,
                out@ + enc_ranks(sq.subrange(8 * k as int, 64)) == enc_ranks(sq),
            decreases 8 - k,
        {
            let ghost rank = sq.subrange(8 * k as int, 8 * k as int + 8);
            let ghost tail: Seq<char> = if k < 7 {
                seq!['/'] + enc_ranks(sq.subrange(8 * (k as int + 1), 64))
            } else {
                Seq::empty()
            };
            proof {
                let rest = sq.subrange(8 * k as int, 64);
                if k < 7 {
                    assert(rest.subrange(0, 8) =~= rank);
                    assert(rest.subrange(8, rest.len() as int) =~= sq.subrange(
                        8 * (k as int + 1),
                        64,
                    ));
                    assert(enc_ranks(rest) == enc_rank_aux(rank, 0) + seq!['/'] + enc_ranks(
                        sq.subrange(8 * (k as int + 1), 64),
                    ));
                    assert(out@ + (enc_rank_aux(rank, 0) + tail) =~= out@ + enc_ranks(rest));
                } else {
                    assert(rest =~= rank);
                    assert(out@ + (enc_rank_aux(rank, 0) + tail) =~= out@ + enc_ranks(rest));
                }
                assert(rank.subrange(0, 8) =~= rank);
            }
            let y: usize = 7 - k;
            let mut x: usize = 0;
            let mut empty: usize = 0;
            while x < 8
                invariant
                    self.wf(),
                    k < 8,
                    y == 7 - k,
                    x <= 8,
                    empty <= x,
                    sq == squares_of(self.st()),
                    sq.len() == 64,
                    rank == sq.subrange(8 * k as int, 8 * k as int + 8),
                    out@ + (enc_rank_aux(rank.subrange(x as int, 8), empty as int) + tail)
                        == enc_ranks(sq),
                decreases 8 - x,
            {
                proof {
                    assert(rank.subrange(x as int, 8)[0] == sq[8 * k as int + x as int]);
                    assert((8 * k as int + x as int) % 8 == x as int && (8 * k as int
                        + x as int) / 8 == k as int) by (nonlinear_arith)
                        requires
                            0 <= x < 8 && 0 <= k < 8,
                    ;
                    assert(rank.subrange(x as int, 8).subrange(
                        1,
                        rank.subrange(x as int, 8).len() as int,
                    ) =~= rank.subrange(x as int + 1, 8));
                }
                match self.board.get_board_entry(Position { x, y }) {
                    None => {
                        empty = empty + 1;
                    },
                    Some(entry) => {
                        proof {
                            assert(self.st().entry_ok(x as int, y as int));
                        }
                        let t: PieceTypes = match entry.player_color {
                            Color::White => self.white.get_piece(
                                entry.piece_index,
                            ).get_piece_type(),
                            Color::Black => self.black.get_piece(
                                entry.piece_index,
                            ).get_piece_type(),
                        };
                        let ghost before = out@;
                        if empty > 0 {
                            out.push(digit_char_of(empty));
                        }
                        out.push(piece_char_of(entry.player_color, t));
                        proof {
                            assert(out@ + (enc_rank_aux(
                                rank.subrange(x as int + 1, 8),
                                0,
                            ) + tail) =~= before + (enc_rank_aux(
                                rank.subrange(x as int, 8),
                                empty as int,
                            ) + tail));
                        }
                        empty = 0;
                    },
                }
                x = x + 1;
            }
            proof {
                assert(rank.subrange(8, 8) =~= Seq::<
                    Option<(Color, PieceTypes)>,
                >::empty());
            }
            let ghost before = out@;
            if empty > 0 {
                out.push(digit_char_of(empty));
            }
            proof {
                assert(out@ + tail =~= before + (enc_rank_aux(rank.subrange(8, 8), empty as int)
                    + tail));
            }
            if k < 7 {
                out.push('/');
                proof {
                    assert(out@ + enc_ranks(sq.subrange(8 * (k as int + 1), 64)) =~= (before
                        + (enc_rank_aux(rank.subrange(8, 8), empty as int) + tail)));
                }
            } else {
                proof {
                    assert(sq.subrange(64, 64) =~= Seq::<
                        Option<(Color, PieceTypes)>,
                    >::empty());
                    assert(enc_ranks(sq.subrange(64, 64)) =~= Seq::<char>::empty());
                    assert(out@ + enc_ranks(sq.subrange(64, 64)) =~= out@);
                }
            }
            k = k + 1;
        }
        out.push(' ');
        match self.current_player {
            Color::White => out.push('w'),
            Color::Black => out.push('b'),
        }
        proof {
            assert(out@ =~= fen_chars(sq, self.current_player));
        }
        chars_to_string(&out)
    }

    /// Resolve a short-notation request: find the one live piece of the
    /// stated type that can reach `to` and return its square.
    pub fn validate_and_convert_short_notation(&self, to: Position, piece_type: PieceTypes) -> (r:
        Result<Position, MoveError>)
        requires
            self.wf(),
            to.wf(),
        ensures
            r == short_result(self.st(), self.mover_cat(), to, piece_type),
    {
        let player: &Player = match self.current_player {
            Color::White => &self.white,
            Color::Black => &self.black,
        };
        let ghost cat = player.pieces@;
        let ghost b = self.board@;
        let n: usize = player.pieces.len();
        let mut matches: usize = 0;
        let mut from = Position { x: 0, y: 0 };
        let mut i: usize = 0;
        while i < n
            invariant
                n == cat.len(),
                i <= n,
                self.wf(),
                to.wf(),
                cat == player.pieces@,
                b == self.board@,
                *player == (if self.current_player is White {
                    self.white
                } else {
                    self.black
                }),
                matches <= i,
                matches == count_matches(cat, piece_type, to, b, i as int),
                matches == 0 ==> first_match(cat, piece_type, to, b) == first_match_from(
                    cat,
                    piece_type,
                    to,
                    b,
                    i as int,
                ),
                matches >= 1 ==> 0 <= first_match(cat, piece_type, to, b) < i,
                matches == 1 ==> from == cat[first_match(cat, piece_type, to, b)].position,
            decreases n - i,
        {
            let piece = player.pieces[i];
            if !piece.is_taken() && piece.get_piece_type() == piece_type {
                if piece.is_field_reachable(to, &self.board).is_ok() {
                    from = piece.get_position();
                    matches = matches + 1;
                    proof {
                        if matches == 1 {
                            assert(first_match_from(cat, piece_type, to, b, i as int)
                                == i as int);
                        }
                    }
                }
            }
            i = i + 1;
        }
        if matches == 0 {
            Err(MoveError::NoMatchingPiece)
        } else if matches == 1 {
            Ok(from)
        } else {
            Err(MoveError::AmbiguousMove)
        }
    }

    /// Screen a full-notation request: occupancy, ownership and piece
    /// type of the source square, then the movement rules.
    pub fn validate_full_notation(&self, from: Position, to: Position, piece_type: PieceTypes) -> (
        r: Result<(), MoveError>)
        requires
            self.wf(),
            from.wf(),
            to.wf(),
        ensures
            r == full_result(self.st(), self.current_player, from, to, piece_type),
    {
        let player: &Player = match self.current_player {
            Color::White => &self.white,
            Color::Black => &self.black,
        };
        let entry = match self.board.get_board_entry(from) {
            Some(entry) => entry,
            None => {
                return Err(MoveError::EmptySource);
            },
        };
        if player.get_color() != entry.player_color {
            return Err(MoveError::WrongOwner);
        }
        proof {
            assert(self.st().entry_ok(from.x as int, from.y as int));
        }
        let piece = player.get_piece(entry.piece_index);
        if piece.get_piece_type() != piece_type {
            return Err(MoveError::PieceTypeMismatch);
        }
        piece.is_field_reachable(to, &self.board)
    }

    /// The whole move pipeline: resolve the request, screen it against
    /// the movement rules, test check-safety, and only then commit.  On
    /// any refusal the game is left exactly as it was, with the exact
    /// reason; on success the move is committed and the occupancy
    /// invariant is preserved.
    #[verifier::rlimit(100)]
    pub fn validate_and_execute_move(&mut self, notation: ParsedNotation) -> (r: Result<
        (),
        MoveError,
    >)
        requires
            old(self).wf(),
            old(self).kings_ok(),
            notation_wf(notation),
        ensures
            final(self).current_player == old(self).current_player,
            final(self).white.in_check == old(self).white.in_check,
            final(self).black.in_check == old(self).black.in_check,
            match move_outcome(
                old(self).st(),
                old(self).current_player,
                old(self).mover_cat(),
                old(self).mover_in_check(),
                notation,
            ) {
                Ok((f, t)) => r is Ok && final(self).st() == old(self).st().apply(
                    old(self).current_player,
                    f,
                    t,
                ) && final(self).wf() && final(self).kings_ok(),
                Err(e) => r == Err::<(), MoveError>(e) && final(self)@ == old(self)@,
            },
    {
        let ghost pre = self.st();
        let ghost mc = self.current_player;
        let ghost cat = self.mover_cat();
        let (from, to) = match notation {
            ParsedNotation::Short(to, piece_type) => {
                match self.validate_and_convert_short_notation(to, piece_type) {
                    Ok(from) => (from, to),
                    Err(e) => {
                        return Err(e);
                    },
                }
            },
            ParsedNotation::Full(from, to, piece_type) => {
                match self.validate_full_notation(from, to, piece_type) {
                    Ok(u) => (from, to),
                    Err(e) => {
                        return Err(e);
                    },
                }
            },
        };
        proof {
            assert(resolve_notation(pre, mc, cat, notation) == Ok::<_, MoveError>((from, to)));
            match notation {
                ParsedNotation::Short(sto, pt) => {
                    let j = first_match(cat, pt, sto, pre.board);
                    assert(matches_at(cat, pt, sto, pre.board, j)) by {
                        lemma_first_match_hit(cat, pt, sto, pre.board);
                    }
                    assert(pre.cat(mc) == cat);
                    assert(at2(pre.board, cat[j].position.x as int, cat[j].position.y as int)
                        == Some(BoardEntry { player_color: mc, piece_index: j as usize }));
                    crate::rules::lemma_reachable_target(cat[j], to, pre.board);
                    assert(pre.move_prereq(mc, from, to));
                },
                ParsedNotation::Full(ffrom, fto, pt) => {
                    assert(pre.entry_ok(from.x as int, from.y as int));
                    let e = pre.at(from)->0;
                    crate::rules::lemma_reachable_target(
                        pre.cat(mc)[e.piece_index as int],
                        to,
                        pre.board,
                    );
                    assert(pre.move_prereq(mc, from, to));
                },
            }
        }
        match self.does_move_cause_check(from, to) {
            Ok(u) => {},
            Err(e) => {
                return Err(e);
            },
        }
        self.execute_move(from, to);
        Ok(())
    }

    /// The legal destination list of every non-captured piece of the
    /// side to move, in catalog order.  The game is left as found.
    pub fn get_all_current_legal_positions(&mut self) -> (r: Vec<Vec<Position>>)
        requires
            old(self).wf(),
            old(self).kings_ok(),
        ensures
            final(self)@ == old(self)@,
            forall|k: int, p: Position|
                0 <= k < r@.len() && #[trigger] r@[k]@.contains(p) ==> exists|i: int|
                    live_legal(
                        old(self).st(),
                        old(self).current_player,
                        old(self).mover_cat(),
                        i,
                        p,
                    ),
            forall|i: int, p: Position|
                live_legal(old(self).st(), old(self).current_player, old(self).mover_cat(), i, p)
                    ==> exists|k: int| 0 <= k < r@.len() && #[trigger] r@[k]@.contains(p),
    {
        let ghost st0 = old(self).st();
        let ghost mc = old(self).current_player;
        let ghost cat = old(self).mover_cat();
        let r = match self.current_player {
            Color::White => {
                proof {
                    assert(state_of(self.board, self.white, self.black) =~= self.st());
                }
                let v = self.white.get_all_legal_positions(&mut self.black, &mut self.board);
                proof {
                    let ghost cs = state_of(old(self).board, old(self).white, old(self).black);
                    assert(cs =~= st0);
                    assert forall|k: int, p: Position|
                        0 <= k < v@.len() && #[trigger] v@[k]@.contains(p) implies exists|i: int|
                        live_legal(st0, mc, cat, i, p) by {
                        let i = choose|i: int|
                            live_legal(cs, old(self).white.color, old(self).white.pieces@, i, p);
                        assert(live_legal(st0, mc, cat, i, p));
                    }
                    assert forall|i: int, p: Position| live_legal(st0, mc, cat, i, p) implies exists|
                        k: int,
                    | 0 <= k < v@.len() && #[trigger] v@[k]@.contains(p) by {
                        assert(live_legal(
                            cs,
                            old(self).white.color,
                            old(self).white.pieces@,
                            i,
                            p,
                        ));
                    }
                }
                v
            },
            Color::Black => {
                proof {
                    assert(state_of(self.board, self.black, self.white) =~= self.st());
                }
                let v = self.black.get_all_legal_positions(&mut self.white, &mut self.board);
                proof {
                    let ghost cs = state_of(old(self).board, old(self).black, old(self).white);
                    assert(cs =~= st0);
                    assert forall|k: int, p: Position|
                        0 <= k < v@.len() && #[trigger] v@[k]@.contains(p) implies exists|i: int|
                        live_legal(st0, mc, cat, i, p) by {
                        let i = choose|i: int|
                            live_legal(cs, old(self).black.color, old(self).black.pieces@, i, p);
                        assert(live_legal(st0, mc, cat, i, p));
                    }
                    assert forall|i: int, p: Position| live_legal(st0, mc, cat, i, p) implies exists|
                        k: int,
                    | 0 <= k < v@.len() && #[trigger] v@[k]@.contains(p) by {
                        assert(live_legal(
                            cs,
                            old(self).black.color,
                            old(self).black.pieces@,
                            i,
                            p,
                        ));
                    }
                }
                v
            },
        };
        proof {
            assert(self@ =~= old(self)@);
        }
        r
    }

    /// Classify the position for the side to move, recomputing its
    /// cached in-check flag: `Ongoing` while any legal move exists,
    /// otherwise `Checkmate` when the king is attacked and `Stalemate`
    /// when it is not.
    pub fn update_game_state(&mut self) -> (r: GameState)
        requires
            old(self).wf(),
            old(self).kings_ok(),
        ensures
            final(self).st() == old(self).st(),
            final(self).wf(),
            final(self).kings_ok(),
            final(self).current_player == old(self).current_player,
            final(self).mover_in_check() == checked_by(
                old(self).mover_cat(),
                old(self).st().cat(old(self).current_player.spec_other()),
                old(self).st().board,
            ),
            old(self).current_player is White ==> final(self).black.in_check == old(
                self,
            ).black.in_check,
            old(self).current_player is Black ==> final(self).white.in_check == old(
                self,
            ).white.in_check,
            r == (if has_legal_move(old(self).st(), old(self).current_player, old(self).mover_cat())
                {
                GameState::Ongoing
            } else if checked_by(
                old(self).mover_cat(),
                old(self).st().cat(old(self).current_player.spec_other()),
                old(self).st().board,
            ) {
                GameState::Checkmate
            } else {
                GameState::Stalemate
            }),
    {
        let (game_over, in_check): (bool, bool) = match self.current_player {
            Color::White => {
                proof {
                    assert(state_of(self.board, self.white, self.black) =~= self.st());
                }
                let over = self.white.is_game_over(&mut self.black, &mut self.board);
                (over, self.white.is_in_check())
            },
            Color::Black => {
                proof {
                    assert(state_of(self.board, self.black, self.white) =~= self.st());
                }
                let over = self.black.is_game_over(&mut self.white, &mut self.board);
                (over, self.black.is_in_check())
            },
        };
        if game_over {
            if in_check {
                GameState::Checkmate
            } else {
                GameState::Stalemate
            }
        } else {
            GameState::Ongoing
        }
    }
}

impl Piece {
    /// The legal destination set of this piece of the side to move: its
    /// pseudo-legal destinations minus every move the check-safety
    /// validator refuses.  The game is left as found.
    pub fn get_legal_positions(&self, game: &mut Game) -> (r: Vec<Position>)
        requires
            old(game).wf(),
            old(game).kings_ok(),
            self.color == old(game).current_player,
            self.position.wf(),
            match old(game).st().at(self.position) {
                Some(e) => e.player_color == old(game).current_player,
                None => false,
            },
        ensures
            final(game)@ == old(game)@,
            forall|p: Position| #[trigger]
                r@.contains(p) <==> (p.wf() && reachable(*self, p, old(game).st().board) && !old(
                    game,
                ).st().causes_check(old(game).current_player, self.position, p)),
            forall|i: int, j: int| 0 <= i < j < r@.len() ==> r@[i] != r@[j],
    {
        let r = match game.current_player {
            Color::White => {
                proof {
                    assert(state_of(game.board, game.white, game.black) =~= game.st());
                }
                legal_destinations(*self, &mut game.white, &mut game.black, &mut game.board)
            },
            Color::Black => {
                proof {
                    assert(state_of(game.board, game.black, game.white) =~= game.st());
                }
                legal_destinations(*self, &mut game.black, &mut game.white, &mut game.board)
            },
        };
        proof {
            assert(game@ =~= old(game)@);
        }
        r
    }
}

/// The import/export round trip: reading back an exported position —
/// `export_fen` writes `fen_chars(squares_of(..))`, `new_from_fen`
/// accepts whatever `fen_parse` accepts — returns exactly the same
/// occupancy and the same side to move.  The king-total hypothesis
/// holds of every position reachable from a legal game, where each side
/// keeps exactly one uncaptured king.
pub proof fn lemma_import_export(g: Game)
    requires
        g.wf(),
        count_kings(squares_of(g.st()), 64) == 2,
    ensures
        fen_parse(fen_chars(squares_of(g.st()), g.current_player)) == Ok::<_, ParsingErr>(
            (squares_of(g.st()), g.current_player),
        ),
{
    lemma_fen_round_trip(squares_of(g.st()), g.current_player);
}

/// When at least one candidate source was counted, the first-match scan
/// lands on a real candidate.
proof fn lemma_first_match_hit(
    pieces: Seq<Piece>,
    pt: PieceTypes,
    to: Position,
    b: Seq<Option<BoardEntry>>,
)
    requires
        count_matches(pieces, pt, to, b, pieces.len() as int) >= 1,
    ensures
        matches_at(pieces, pt, to, b, first_match(pieces, pt, to, b)),
{
    lemma_count_first_match(pieces, pt, to, b, pieces.len() as int);
}

/// If any candidate stands among the first `i` records, the first-match
/// scan from 0 finds a candidate before `i`.
proof fn lemma_count_first_match(
    pieces: Seq<Piece>,
    pt: PieceTypes,
    to: Position,
    b: Seq<Option<BoardEntry>>,
    i: int,
)
    requires
        0 <= i <= pieces.len(),
        count_matches(pieces, pt, to, b, i) >= 1,
    ensures
        0 <= first_match(pieces, pt, to, b) < i,
        matches_at(pieces, pt, to, b, first_match(pieces, pt, to, b)),
    decreases i,
{
    if matches_at(pieces, pt, to, b, i - 1) && count_matches(pieces, pt, to, b, i - 1) == 0 {
        lemma_no_match_scan(pieces, pt, to, b, 0, i - 1);
    } else {
        lemma_count_first_match(pieces, pt, to, b, i - 1);
    }
}

/// A scan over a candidate-free prefix runs through it: if no record in
/// `[j, i)` is a candidate, the first match from `j` is the first match
/// from `i`.
proof fn lemma_no_match_scan(
    pieces: Seq<Piece>,
    pt: PieceTypes,
    to: Position,
    b: Seq<Option<BoardEntry>>,
    j: int,
    i: int,
)
    requires
        0 <= j <= i <= pieces.len(),
        count_matches(pieces, pt, to, b, i) - count_matches(pieces, pt, to, b, j) == 0,
    ensures
        first_match_from(pieces, pt, to, b, j) == first_match_from(pieces, pt, to, b, i),
    decreases i - j,
{
    if j < i {
        lemma_count_monotone(pieces, pt, to, b, j + 1, i);
        lemma_no_match_scan(pieces, pt, to, b, j + 1, i);
    }
}

/// Counting candidates is monotone in the scanned prefix.
proof fn lemma_count_monotone(
    pieces: Seq<Piece>,
    pt: PieceTypes,
    to: Position,
    b: Seq<Option<BoardEntry>>,
    j: int,
    i: int,
)
    requires
        0 <= j <= i,
    ensures
        count_matches(pieces, pt, to, b, j) <= count_matches(pieces, pt, to, b, i),
    decreases i - j,
{
    if j < i {
        lemma_count_monotone(pieces, pt, to, b, j, i - 1);
    }
}

} // verus!
