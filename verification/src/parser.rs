//! Parsing of user input: an action keyword, a move in short or full
//! notation, or a whole position in the rank/digit/letter text form.

use vstd::prelude::*;

use crate::fen::{
    char_digit, char_digit_of, char_piece, char_piece_of, char_side, count_kings, dec_rank,
    dec_ranks, fen_parse, is_rank_char, lemma_count_kings_none_ext, lemma_count_kings_prefix,
    lemma_pieces_from_append, lemma_pieces_from_none_suffix, pieces_from, rep_none, sq_pos,
};
use crate::piece::{Color, Piece, PieceTypes, Position};

verus! {

/// Why an input string was refused.
#[derive(Clone, Copy, PartialEq, Eq, Structural, Debug)]
pub enum ParsingErr {
    /// The input is empty.
    Empty,
    /// The input holds non-ASCII characters.
    NonAscii,
    /// The first character names no piece.
    UnknownFigure,
    /// The move is neither `dest` nor `source:dest` shaped.
    BadFormat,
    /// A file letter outside `a..h`.
    FileOutOfRange,
    /// A rank digit outside `1..8`.
    RankOutOfRange,
    /// A position description with other than eight ranks.
    RankCount,
    /// A position description without the side-to-move field.
    MissingInfo,
    /// A rank describing other than eight squares.
    RankWidth,
    /// A character that is neither a piece letter nor an empty-run digit.
    UnknownChar,
    /// A position whose total king count is not two.
    KingCount,
    /// A side-to-move token other than `w` or `b`.
    SideToMove,
}

impl ParsingErr {
    /// A short description, for display by a host program.
    pub fn message(&self) -> &'static str {
        match self {
            ParsingErr::Empty => "String empty",
            ParsingErr::NonAscii => "String consists of non-ascii characters",
            ParsingErr::UnknownFigure => "First char is not a valid figure",
            ParsingErr::BadFormat => "String not in format [source:dest]",
            ParsingErr::FileOutOfRange => "Invalid x pos",
            ParsingErr::RankOutOfRange => "Invalid y pos",
            ParsingErr::RankCount => "FEN string must encode all 8 ranks",
            ParsingErr::MissingInfo => "FEN string must contain additional information about board state",
            ParsingErr::RankWidth => "Must notate all 8 fields per rank",
            ParsingErr::UnknownChar => "Invalid character",
            ParsingErr::KingCount => "Incorrect number of kings",
            ParsingErr::SideToMove => "Incorrect beginning player",
        }
    }
}

/// What an input line asks for.
#[derive(Clone, Copy, PartialEq, Eq, Structural, Debug)]
pub enum Action {
    /// List the current player's pieces and their moves.
    List,
    /// Play a move.
    Move(ParsedNotation),
    /// Leave the game.
    Quit,
}

/// A move request: destination and piece type alone (short notation,
/// the source must be resolved), or source and destination (full
/// notation).
#[derive(Clone, Copy, PartialEq, Eq, Structural, Debug)]
pub enum ParsedNotation {
    Short(Position, PieceTypes),
    Full(Position, Position, PieceTypes),
}

/// An imported position: one catalog per side, in scan order, and the
/// side to move.
pub struct ParsedFen {
    pub white: Vec<Piece>,
    pub black: Vec<Piece>,
    pub side: Color,
}

/// Every character is ASCII.
pub open spec fn all_ascii(s: Seq<char>) -> bool {
    forall|i: int| 0 <= i < s.len() ==> #[trigger] (s[i] as int) < 128
}

/// The piece type the first character of a move names: an uppercase
/// piece letter, or a pawn when the move starts directly with a file
/// letter (or an explicit `P`).
pub open spec fn char_figure(c: char) -> Option<PieceTypes> {
    if c == 'N' {
        Some(PieceTypes::Knight)
    } else if c == 'B' {
        Some(PieceTypes::Bishop)
    } else if c == 'R' {
        Some(PieceTypes::Rook)
    } else if c == 'Q' {
        Some(PieceTypes::Queen)
    } else if c == 'K' {
        Some(PieceTypes::King)
    } else if c == 'P' || is_file_char(c) {
        Some(PieceTypes::Pawn)
    } else {
        None
    }
}

/// A file letter, `a` through `h`.
pub open spec fn is_file_char(c: char) -> bool {
    'a' as int <= c as int <= 'h' as int
}

/// A rank digit, `1` through `8`.
pub open spec fn is_rank_digit(c: char) -> bool {
    '1' as int <= c as int <= '8' as int
}

/// The square two characters name: a file letter and a rank digit.
pub open spec fn spec_parse_square(cx: char, cy: char) -> Result<Position, ParsingErr> {
    if !is_file_char(cx) {
        Err(ParsingErr::FileOutOfRange)
    } else if !is_rank_digit(cy) {
        Err(ParsingErr::RankOutOfRange)
    } else {
        Ok(
            Position {
                x: (cx as int - 'a' as int) as usize,
                y: (cy as int - '1' as int) as usize,
            },
        )
    }
}

/// A move string: the piece letter (absent for a pawn named by its
/// file), then either a destination square, or source and destination
/// separated by `:`.
pub open spec fn spec_parse_move(s: Seq<char>) -> Result<Action, ParsingErr> {
    if s.len() == 0 {
        Err(ParsingErr::Empty)
    } else {
        match char_figure(s[0]) {
            None => Err(ParsingErr::UnknownFigure),
            Some(pt) => {
                let off: int = if is_file_char(s[0]) {
                    0
                } else {
                    1
                };
                let rest = s.subrange(off, s.len() as int);
                if rest.len() == 2 {
                    match spec_parse_square(rest[0], rest[1]) {
                        Ok(to) => Ok(Action::Move(ParsedNotation::Short(to, pt))),
                        Err(e) => Err(e),
                    }
                } else if rest.len() == 5 && rest[2] == ':' {
                    match spec_parse_square(rest[0], rest[1]) {
                        Err(e) => Err(e),
                        Ok(from) => match spec_parse_square(rest[3], rest[4]) {
                            Err(e) => Err(e),
                            Ok(to) => Ok(Action::Move(ParsedNotation::Full(from, to, pt))),
                        },
                    }
                } else {
                    Err(ParsingErr::BadFormat)
                }
            },
        }
    }
}

/// An input line: the `list` and `quit` keywords, or a move.  The
/// caller is expected to have trimmed surrounding whitespace.
pub open spec fn spec_parse_action(s: Seq<char>) -> Result<Action, ParsingErr> {
    if s.len() == 0 {
        Err(ParsingErr::Empty)
    } else if !all_ascii(s) {
        Err(ParsingErr::NonAscii)
    } else if (s.len() == 1 && s[0] == 'l') || (s.len() == 4 && s[0] == 'l' && s[1] == 'i' && s[2]
        == 's' && s[3] == 't') {
        Ok(Action::List)
    } else if (s.len() == 1 && s[0] == 'q') || (s.len() == 4 && s[0] == 'q' && s[1] == 'u' && s[2]
        == 'i' && s[3] == 't') {
        Ok(Action::Quit)
    } else {
        spec_parse_move(s)
    }
}

/// The square two characters name, executable.
fn parse_notation(cx: char, cy: char) -> (r: Result<Position, ParsingErr>)
    ensures
        r == spec_parse_square(cx, cy),
        r matches Ok(p) ==> p.wf(),
{
    let x32 = cx as u32;
    let y32 = cy as u32;
    if x32 < 'a' as u32 || x32 > 'h' as u32 {
        Err(ParsingErr::FileOutOfRange)
    } else if y32 < '1' as u32 || y32 > '8' as u32 {
        Err(ParsingErr::RankOutOfRange)
    } else {
        Ok(Position { x: (x32 - 'a' as u32) as usize, y: (y32 - '1' as u32) as usize })
    }
}

/// One move string, executable.
fn parse_move(s: &str) -> (r: Result<Action, ParsingErr>)
    ensures
        r == spec_parse_move(s@),
        r matches Ok(a) ==> a matches Action::Move(nt) && crate::game::notation_wf(nt),
{
    let n: usize = s.unicode_len();
    if n == 0 {
        return Err(ParsingErr::Empty);
    }
    let c0 = s.get_char(0);
    let is_file: bool = c0 as u32 >= 'a' as u32 && c0 as u32 <= 'h' as u32;
    let piece_type: PieceTypes = match c0 {
        'N' => PieceTypes::Knight,
        'B' => PieceTypes::Bishop,
        'R' => PieceTypes::Rook,
        'Q' => PieceTypes::Queen,
        'K' => PieceTypes::King,
        'P' => PieceTypes::Pawn,
        _ => {
            if is_file {
                PieceTypes::Pawn
            } else {
                return Err(ParsingErr::UnknownFigure);
            }
        },
    };
    let offset: usize = if is_file {
        0
    } else {
        1
    };
    let ghost rest = s@.subrange(offset as int, s@.len() as int);
    if n - offset == 2 {
        proof {
            assert(rest[0] == s@[offset as int] && rest[1] == s@[offset as int + 1]);
        }
        match parse_notation(s.get_char(offset), s.get_char(offset + 1)) {
            Ok(to) => Ok(Action::Move(ParsedNotation::Short(to, piece_type))),
            Err(e) => Err(e),
        }
    } else if n - offset == 5 && s.get_char(offset + 2) == ':' {
        proof {
            assert(rest[0] == s@[offset as int] && rest[1] == s@[offset as int + 1] && rest[2]
                == s@[offset as int + 2] && rest[3] == s@[offset as int + 3] && rest[4]
                == s@[offset as int + 4]);
        }
        let from = match parse_notation(s.get_char(offset), s.get_char(offset + 1)) {
            Ok(from) => from,
            Err(e) => {
                return Err(e);
            },
        };
        match parse_notation(s.get_char(offset + 3), s.get_char(offset + 4)) {
            Ok(to) => Ok(Action::Move(ParsedNotation::Full(from, to, piece_type))),
            Err(e) => Err(e),
        }
    } else {
        proof {
            if n - offset == 5 {
                assert(rest[2] == s@[offset as int + 2]);
            }
        }
        Err(ParsingErr::BadFormat)
    }
}

/// Read an input line: the `list` and `quit` keywords, or a move in
/// short or full notation.  Surrounding whitespace is not accepted;
/// the caller trims the line first.
pub fn parse_action(s: &str) -> (r: Result<Action, ParsingErr>)
    ensures
        r == spec_parse_action(s@),
        r matches Ok(a) ==> (a matches Action::Move(nt) ==> crate::game::notation_wf(nt)),
{
    let n: usize = s.unicode_len();
    if n == 0 {
        return Err(ParsingErr::Empty);
    }
    let mut i: usize = 0;
    while i < n
        invariant
            i <= n,
            n == s@.len(),
            forall|j: int| 0 <= j < i ==> #[trigger] (s@[j] as int) < 128,
        decreases n - i,
    {
        if s.get_char(i) as u32 >= 128 {
            return Err(ParsingErr::NonAscii);
        }
        i = i + 1;
    }
    let c0 = s.get_char(0);
    if n == 1 && c0 == 'l' {
        return Ok(Action::List);
    }
    if n == 1 && c0 == 'q' {
        return Ok(Action::Quit);
    }
    if n == 4 {
        let c1 = s.get_char(1);
        let c2 = s.get_char(2);
        let c3 = s.get_char(3);
        if c0 == 'l' && c1 == 'i' && c2 == 's' && c3 == 't' {
            return Ok(Action::List);
        }
        if c0 == 'q' && c1 == 'u' && c2 == 'i' && c3 == 't' {
            return Ok(Action::Quit);
        }
    }
    parse_move(s)
}

/// Read a position from its text form: eight `/`-separated ranks of
/// digits and piece letters, a space and the side to move, with a king
/// total of exactly two.  On success the two catalogs list the pieces
/// in scan order; on failure the exact refusal is returned.
#[verifier::loop_isolation(false)]
#[verifier::rlimit(100)]
pub fn parse_fen(fen: &str) -> (r: Result<ParsedFen, ParsingErr>)
    ensures
        match fen_parse(fen@) {
            Ok((sq, side)) => match r {
                Ok(pf) => pf.white@ == pieces_from(sq, Color::White, 0) && pf.black@
                    == pieces_from(sq, Color::Black, 0) && pf.side == side,
                Err(e2) => false,
            },
            Err(e) => match r {
                Ok(pf) => false,
                Err(e2) => e2 == e,
            },
        },
{
    let ghost s = fen@;
    let n: usize = fen.unicode_len();
    let mut white: Vec<Piece> = Vec::new();
    let mut black: Vec<Piece> = Vec::new();
    let mut kings: usize = 0;
    let mut pos: usize = 0;
    let ghost mut acc: Seq<Option<(Color, PieceTypes)>> = Seq::empty();
    let mut k: usize = 0;
    proof {
        assert(s.subrange(0, n as int) =~= s);
        match dec_ranks(s, 8) {
            Ok((sq2, rest2)) => {
                assert(acc + sq2 =~= sq2);
            },
            Err(e) => {},
        }
    }
    while k < 8
        invariant
            k <= 8,
            pos <= n,
            n == s.len(),
            acc.len() == 8 * k as int,
            white@ == pieces_from(acc, Color::White, 0),
            black@ == pieces_from(acc, Color::Black, 0),
            kings as int == count_kings(acc, acc.len() as int),
            kings as int <= acc.len(),
            k < 8 ==> match dec_ranks(s.subrange(pos as int, n as int), 8 - k as int) {
                Ok((sq2, rest2)) => dec_ranks(s, 8) == Ok::<_, ParsingErr>(
                    (acc + sq2, rest2),
                ),
                Err(e) => dec_ranks(s, 8) == Err::<(Seq<Option<(Color, PieceTypes)>>, Seq<char>), _>(
                    e,
                ),
            },
            k == 8 ==> dec_ranks(s, 8) == Ok::<_, ParsingErr>(
                (acc, s.subrange(pos as int, n as int)),
            ),
        decreases 8 - k,
    {
        let ghost rank_start = pos as int;
        let ghost acc_k = acc;
        let mut cnt: usize = 0;
        let ghost mut rk: Seq<Option<(Color, PieceTypes)>> = Seq::empty();
        proof {
            assert(acc =~= acc_k + rk);
            assert(rk + dec_rank(s.subrange(pos as int, n as int)).0 =~= dec_rank(
                s.subrange(rank_start, n as int),
            ).0);
        }
        let mut done: bool = false;
        while pos < n && !done
            invariant
                done ==> pos < n && !is_rank_char(s[pos as int]),
                rank_start <= pos as int <= n as int,
                acc == acc_k + rk,
                acc.len() == 8 * k as int + rk.len(),
                rk.len() <= 9 ==> cnt as int == rk.len(),
                rk.len() > 9 ==> cnt == 9,
                cnt <= 9,
                cnt <= 8 ==> white@ == pieces_from(acc, Color::White, 0),
                cnt <= 8 ==> black@ == pieces_from(acc, Color::Black, 0),
                cnt <= 8 ==> kings as int == count_kings(acc, acc.len() as int),
                cnt <= 8 ==> kings as int <= acc.len(),
                dec_rank(s.subrange(rank_start, n as int)).0 == rk + dec_rank(
                    s.subrange(pos as int, n as int),
                ).0,
                dec_rank(s.subrange(rank_start, n as int)).1 == dec_rank(
                    s.subrange(pos as int, n as int),
                ).1,
            decreases n - pos, (if done { 0int } else { 1 }),
        {
            let c = fen.get_char(pos);
            proof {
                assert(s.subrange(pos as int, n as int)[0] == s[pos as int]);
                assert(s.subrange(pos as int, n as int).subrange(
                    1,
                    s.subrange(pos as int, n as int).len() as int,
                ) =~= s.subrange(pos as int + 1, n as int));
            }
            if let Some((pc, pt)) = char_piece_of(c) {
                let ghost sq0: Option<(Color, PieceTypes)> = Some((pc, pt));
                if cnt < 8 {
                    proof {
                        assert((8 * k as int + cnt as int) % 8 == cnt as int && (8 * k as int
                            + cnt as int) / 8 == k as int) by (nonlinear_arith)
                            requires
                                0 <= cnt < 8 && 0 <= k < 8,
                        ;
                        assert(sq_pos(acc.len() as int) == (Position {
                            x: cnt,
                            y: (7 - k) as usize,
                        }));
                    }
                    let piece = Piece::new(pt, pc, Position { x: cnt, y: 7 - k });
                    match pc {
                        Color::White => white.push(piece),
                        Color::Black => black.push(piece),
                    }
                    if matches!(pt, PieceTypes::King) {
                        kings = kings + 1;
                    }
                    proof {
                        lemma_pieces_from_append(acc, seq![sq0], Color::White, 0);
                        lemma_pieces_from_append(acc, seq![sq0], Color::Black, 0);
                        assert(acc + seq![sq0] =~= acc.push(sq0));
                        lemma_count_kings_prefix(acc.push(sq0), acc, acc.len() as int);
                        assert(count_kings(acc.push(sq0), acc.len() as int + 1)
                            == count_kings(acc, acc.len() as int) + (if pt is King {
                            1int
                        } else {
                            0
                        }));
                        assert((acc.push(sq0))[acc.len() as int] == sq0);
                        assert(piece == (Piece {
                            color: pc,
                            position: sq_pos(acc.len() as int),
                            taken: false,
                            piece_type: pt,
                        }));
                        assert(pieces_from(acc.push(sq0), Color::White, acc.len() as int + 1)
                            =~= Seq::<Piece>::empty());
                        assert(pieces_from(acc.push(sq0), Color::Black, acc.len() as int + 1)
                            =~= Seq::<Piece>::empty());
                        assert(pieces_from(acc.push(sq0), Color::White, acc.len() as int)
                            =~= (if pc is White {
                            seq![piece]
                        } else {
                            Seq::<Piece>::empty()
                        }));
                        assert(pieces_from(acc.push(sq0), Color::Black, acc.len() as int)
                            =~= (if pc is Black {
                            seq![piece]
                        } else {
                            Seq::<Piece>::empty()
                        }));
                        assert(white@ =~= pieces_from(acc.push(sq0), Color::White, 0));
                        assert(black@ =~= pieces_from(acc.push(sq0), Color::Black, 0));
                    }
                }
                proof {
                    acc = acc.push(sq0);
                    rk = rk.push(sq0);
                    assert(acc =~= acc_k + rk);
                    assert(rk.subrange(0, rk.len() - 1).push(sq0) =~= rk);
                    assert(seq![sq0] + dec_rank(s.subrange(pos as int + 1, n as int)).0
                        =~= dec_rank(s.subrange(pos as int, n as int)).0);
                    assert(rk.subrange(0, rk.len() - 1) + dec_rank(
                        s.subrange(pos as int, n as int),
                    ).0 =~= rk + dec_rank(s.subrange(pos as int + 1, n as int)).0);
                }
                cnt = if cnt < 9 {
                    cnt + 1
                } else {
                    cnt
                };
                pos = pos + 1;
            } else if let Some(d) = char_digit_of(c) {
                proof {
                    let ext = rep_none(d as int);
                    lemma_pieces_from_append(acc, ext, Color::White, 0);
                    lemma_pieces_from_append(acc, ext, Color::Black, 0);
                    lemma_pieces_from_none_suffix(acc + ext, Color::White, acc.len() as int);
                    lemma_pieces_from_none_suffix(acc + ext, Color::Black, acc.len() as int);
                    lemma_count_kings_none_ext(
                        acc + ext,
                        acc.len() as int,
                        acc.len() as int + d as int,
                    );
                    lemma_count_kings_prefix(acc + ext, acc, acc.len() as int);
                    if cnt <= 8 {
                        assert(white@ =~= pieces_from(acc + ext, Color::White, 0));
                        assert(black@ =~= pieces_from(acc + ext, Color::Black, 0));
                    }
                    acc = acc + ext;
                    rk = rk + ext;
                    assert(acc =~= acc_k + rk);
                    assert((rk + dec_rank(s.subrange(pos as int + 1, n as int)).0) =~= (
                    rk.subrange(0, rk.len() - d as int) + (ext + dec_rank(
                        s.subrange(pos as int + 1, n as int),
                    ).0)));
                    assert(rk.subrange(0, rk.len() - d as int) =~= rk.subrange(
                        0,
                        rk.len() - d as int,
                    ));
                }
                cnt = if cnt + d > 9 {
                    9
                } else {
                    cnt + d
                };
                pos = pos + 1;
            } else {
                done = true;
            }
        }
        proof {
            if pos == n {
                assert(s.subrange(pos as int, n as int).len() == 0);
            }
            assert(dec_rank(s.subrange(pos as int, n as int)).0 =~= Seq::<
                Option<(Color, PieceTypes)>,
            >::empty());
            assert(rk + dec_rank(s.subrange(pos as int, n as int)).0 =~= rk);
            assert(dec_rank(s.subrange(rank_start, n as int)) == (
                rk,
                s.subrange(pos as int, n as int),
            ));
        }
        // the rank's characters are consumed; now the separator decides
        let rank_ok: bool = cnt == 8;
        if k < 7 {
            if pos < n && fen.get_char(pos) == '/' {
                if !rank_ok {
                    return Err(ParsingErr::RankWidth);
                }
                proof {
                    assert(s.subrange(pos as int, n as int).subrange(
                        1,
                        s.subrange(pos as int, n as int).len() as int,
                    ) =~= s.subrange(pos as int + 1, n as int));
                    match dec_ranks(s.subrange(pos as int + 1, n as int), 8 - (k as int + 1)) {
                        Ok((sq3, rest3)) => {
                            assert(acc_k + (rk + sq3) =~= acc + sq3);
                        },
                        Err(e) => {},
                    }
                }
                pos = pos + 1;
                k = k + 1;
            } else if pos < n && fen.get_char(pos) == ' ' {
                return Err(ParsingErr::RankCount);
            } else if pos < n {
                return Err(ParsingErr::UnknownChar);
            } else {
                return Err(ParsingErr::RankCount);
            }
        } else {
            if pos < n && fen.get_char(pos) == ' ' {
                if !rank_ok {
                    return Err(ParsingErr::RankWidth);
                }
                proof {
                    assert(s.subrange(pos as int, n as int).subrange(
                        1,
                        s.subrange(pos as int, n as int).len() as int,
                    ) =~= s.subrange(pos as int + 1, n as int));
                }
                pos = pos + 1;
                k = k + 1;
            } else if pos < n && fen.get_char(pos) == '/' {
                return Err(ParsingErr::RankCount);
            } else if pos < n {
                return Err(ParsingErr::UnknownChar);
            } else {
                return Err(ParsingErr::MissingInfo);
            }
        }
    }
    // eight ranks read; the king total and the side to move remain
    if kings != 2 {
        return Err(ParsingErr::KingCount);
    }
    let ghost rest = s.subrange(pos as int, n as int);
    if n - pos == 1 {
        let c = fen.get_char(pos);
        proof {
            assert(rest[0] == s[pos as int]);
        }
        if c == 'w' {
            return Ok(ParsedFen { white, black, side: Color::White });
        } else if c == 'b' {
            return Ok(ParsedFen { white, black, side: Color::Black });
        } else {
            return Err(ParsingErr::SideToMove);
        }
    } else if n == pos {
        return Err(ParsingErr::SideToMove);
    } else {
        let mut p2: usize = pos;
        while p2 < n
            invariant
                pos <= p2 <= n,
                forall|i: int| pos as int <= i < p2 as int ==> s[i] != ' ',
            decreases n - p2,
        {
            if fen.get_char(p2) == ' ' {
                proof {
                    assert(rest[p2 as int - pos as int] == ' ');
                }
                return Err(ParsingErr::MissingInfo);
            }
            p2 = p2 + 1;
        }
        proof {
            assert(forall|i: int|
                0 <= i < rest.len() ==> rest[i] == s[i + pos as int] && rest[i] != ' ');
        }
        return Err(ParsingErr::SideToMove);
    }
}

} // verus!
