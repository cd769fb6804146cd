//! Parsing of a move given in full notation alone: piece letter,
//! source square, `:`, destination square.

use vstd::prelude::*;

use crate::parser::{char_figure, is_file_char, spec_parse_square, ParsingErr};
use crate::piece::{PieceTypes, Position};

verus! {

/// Why a full-notation string was refused.
#[derive(Clone, Copy, PartialEq, Eq, Structural, Debug)]
pub enum ParseNotationErr {
    /// The input is empty.
    Empty,
    /// The input holds non-ASCII characters.
    NonAscii,
    /// The first character names no piece.
    UnknownFigure,
    /// The move is not `source:dest` shaped.
    BadFormat,
    /// A file letter outside `a..h`.
    FileOutOfRange,
    /// A rank digit outside `1..8`.
    RankOutOfRange,
}

impl ParseNotationErr {
    /// A short description, for display by a host program.
    pub fn message(&self) -> &'static str {
        match self {
            ParseNotationErr::Empty => "String empty",
            ParseNotationErr::NonAscii => "String consists of non-ascii characters",
            ParseNotationErr::UnknownFigure => "First char is not a valid figure",
            ParseNotationErr::BadFormat => "String not in format [source:dest]",
            ParseNotationErr::FileOutOfRange => "Invalid x pos",
            ParseNotationErr::RankOutOfRange => "Invalid y pos",
        }
    }
}

/// A fully resolved move request: source, destination, piece type.
#[derive(Clone, Copy, PartialEq, Eq, Structural, Debug)]
pub struct ParsedNotation {
    pub source_pos: Position,
    pub dest_pos: Position,
    pub piece_type: PieceTypes,
}

/// The refusal of a square, carried over to this module's error type.
pub open spec fn square_err(e: ParsingErr) -> ParseNotationErr {
    if e == ParsingErr::FileOutOfRange {
        ParseNotationErr::FileOutOfRange
    } else {
        ParseNotationErr::RankOutOfRange
    }
}

/// A full-notation string: the piece letter (absent for a pawn named
/// by its file), then source and destination separated by `:`.
pub open spec fn spec_parse_notation(s: Seq<char>) -> Result<ParsedNotation, ParseNotationErr> {
    if s.len() == 0 {
        Err(ParseNotationErr::Empty)
    } else if !crate::parser::all_ascii(s) {
        Err(ParseNotationErr::NonAscii)
    } else {
        match char_figure(s[0]) {
            None => Err(ParseNotationErr::UnknownFigure),
            Some(pt) => {
                let off: int = if is_file_char(s[0]) {
                    0
                } else {
                    1
                };
                let rest = s.subrange(off, s.len() as int);
                if rest.len() == 5 && rest[2] == ':' {
                    match spec_parse_square(rest[0], rest[1]) {
                        Err(e) => Err(square_err(e)),
                        Ok(from) => match spec_parse_square(rest[3], rest[4]) {
                            Err(e) => Err(square_err(e)),
                            Ok(to) => Ok(
                                ParsedNotation { source_pos: from, dest_pos: to, piece_type: pt },
                            ),
                        },
                    }
                } else {
                    Err(ParseNotationErr::BadFormat)
                }
            },
        }
    }
}

/// Read a move in full notation.  Surrounding whitespace is not
/// accepted; the caller trims the line first.
pub fn parse_notation(s: &str) -> (r: Result<ParsedNotation, ParseNotationErr>)
    ensures
        r == spec_parse_notation(s@),
        r matches Ok(nt) ==> nt.source_pos.wf() && nt.dest_pos.wf(),
{
    let n: usize = s.unicode_len();
    if n == 0 {
        return Err(ParseNotationErr::Empty);
    }
    let mut i: usize = 0;
    while i < n
        invariant
            i <= n,
            n == s@.len(),
            forall|j: int| 0 <= j < i ==> #[trigger] (s@[j] as int) < 128,
        decreases n - i,
    {
        if s.get_char(i) as u32 >= 128 {
            return Err(ParseNotationErr::NonAscii);
        }
        i = i + 1;
    }
    let c0 = s.get_char(0);
    let is_file: bool = c0 as u32 >= 'a' as u32 && c0 as u32 <= 'h' as u32;
    let piece_type: PieceTypes = match c0 {
        'N' => PieceTypes::Knight,
        'B' => PieceTypes::Bishop,
        'R' => PieceTypes::Rook,
        'Q' => PieceTypes::Queen,
        'K' => PieceTypes::King,
        'P' => PieceTypes::Pawn,
        _ => {
            if is_file {
                PieceTypes::Pawn
            } else {
                return Err(ParseNotationErr::UnknownFigure);
            }
        },
    };
    let offset: usize = if is_file {
        0
    } else {
        1
    };
    let ghost rest = s@.subrange(offset as int, s@.len() as int);
    if n - offset == 5 && s.get_char(offset + 2) == ':' {
        proof {
            assert(rest[0] == s@[offset as int] && rest[1] == s@[offset as int + 1] && rest[2]
                == s@[offset as int + 2] && rest[3] == s@[offset as int + 3] && rest[4]
                == s@[offset as int + 4]);
        }
        let source_pos = match parse_position(s.get_char(offset), s.get_char(offset + 1)) {
            Ok(p) => p,
            Err(e) => {
                return Err(e);
            },
        };
        match parse_position(s.get_char(offset + 3), s.get_char(offset + 4)) {
            Ok(dest_pos) => Ok(ParsedNotation { source_pos, dest_pos, piece_type }),
            Err(e) => Err(e),
        }
    } else {
        proof {
            if n - offset == 5 {
                assert(rest[2] == s@[offset as int + 2]);
            }
        }
        Err(ParseNotationErr::BadFormat)
    }
}

/// The square two characters name, with this module's error type.
fn parse_position(cx: char, cy: char) -> (r: Result<Position, ParseNotationErr>)
    ensures
        r == (match spec_parse_square(cx, cy) {
            Ok(p) => Ok::<Position, ParseNotationErr>(p),
            Err(e) => Err(square_err(e)),
        }),
        r matches Ok(p) ==> p.wf(),
{
    let x32 = cx as u32;
    let y32 = cy as u32;
    if x32 < 'a' as u32 || x32 > 'h' as u32 {
        Err(ParseNotationErr::FileOutOfRange)
    } else if y32 < '1' as u32 || y32 > '8' as u32 {
        Err(ParseNotationErr::RankOutOfRange)
    } else {
        Ok(Position { x: (x32 - 'a' as u32) as usize, y: (y32 - '1' as u32) as usize })
    }
}

} // verus!
