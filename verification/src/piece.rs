//! Geometry (squares and displacements) and the piece record.

use vstd::prelude::*;

verus! {

/// Side of the game.  Also selects which of the two catalogs a board
/// entry refers to.
#[derive(Clone, Copy, PartialEq, Eq, Structural, Debug)]
pub enum Color {
    White,
    Black,
}

impl Color {
    /// The other side.
    pub open spec fn spec_other(self) -> Color {
        match self {
            Color::White => Color::Black,
            Color::Black => Color::White,
        }
    }

    #[verifier::when_used_as_spec(spec_other)]
    pub fn other(self) -> (c: Color)
        ensures
            c == self.spec_other(),
    {
        match self {
            Color::White => Color::Black,
            Color::Black => Color::White,
        }
    }
}

/// The six chess piece kinds.  A piece keeps its kind for its whole
/// lifetime: promotion is out of scope.
#[derive(Clone, Copy, PartialEq, Eq, Structural, Debug)]
pub enum PieceTypes {
    Pawn,
    Knight,
    Bishop,
    Rook,
    Queen,
    King,
}

/// A square of the board: file `x` and rank `y`, both in `0..8`.
#[derive(Clone, Copy, PartialEq, Eq, Structural, Debug)]
pub struct Position {
    pub x: usize,
    pub y: usize,
}

/// Whether a (file, rank) pair lies on the board.
pub open spec fn in_bounds(x: int, y: int) -> bool {
    0 <= x < 8 && 0 <= y < 8
}

impl Position {
    /// Both coordinates on the board.
    pub open spec fn wf(self) -> bool {
        self.x < 8 && self.y < 8
    }

    /// The square a two-character name like `d3` denotes: a file letter
    /// `a..h` and a rank digit `1..8`.
    pub fn from_algebraic(s: &str) -> (r: Option<Position>)
        ensures
            r == (if s@.len() == 2 && 'a' as int <= s@[0] as int <= 'h' as int && '1' as int
                <= s@[1] as int <= '8' as int {
                Some(
                    Position {
                        x: (s@[0] as int - 'a' as int) as usize,
                        y: (s@[1] as int - '1' as int) as usize,
                    },
                )
            } else {
                None::<Position>
            }),
            r matches Some(p) ==> p.wf(),
    {
        if s.unicode_len() != 2 {
            return None;
        }
        let cx = s.get_char(0) as u32;
        let cy = s.get_char(1) as u32;
        if cx >= 'a' as u32 && cx <= 'h' as u32 && cy >= '1' as u32 && cy <= '8' as u32 {
            Some(Position { x: (cx - 'a' as u32) as usize, y: (cy - '1' as u32) as usize })
        } else {
            None
        }
    }

    /// The displacement that carries `self` onto `pos`.
    pub fn get_move_to(&self, pos: Position) -> (m: ChessMove)
        requires
            self.wf(),
            pos.wf(),
        ensures
            m.x as int == pos.x as int - self.x as int,
            m.y as int == pos.y as int - self.y as int,
    {
        ChessMove { x: pos.x as i32 - self.x as i32, y: pos.y as i32 - self.y as i32 }
    }

    /// The square reached from `self` by `m`, or `None` when that square
    /// is off the board.
    pub fn add_move(&self, m: ChessMove) -> (r: Option<Position>)
        requires
            self.wf(),
        ensures
            match r {
                Some(p) => p.wf() && p.x as int == self.x as int + m.x as int && p.y as int
                    == self.y as int + m.y as int,
                None => !in_bounds(self.x as int + m.x as int, self.y as int + m.y as int),
            },
    {
        let nx: i64 = self.x as i64 + m.x as i64;
        let ny: i64 = self.y as i64 + m.y as i64;
        if 0 <= nx && nx < 8 && 0 <= ny && ny < 8 {
            Some(Position { x: nx as usize, y: ny as usize })
        } else {
            None
        }
    }
}

/// A displacement between two squares.
#[derive(Clone, Copy, PartialEq, Eq, Structural, Debug)]
pub struct ChessMove {
    pub x: i32,
    pub y: i32,
}

impl ChessMove {
    /// The componentwise sign of the displacement: the unit step of the
    /// line it spans.
    pub fn signum(&self) -> (r: ChessMove)
        requires
            -8 <= self.x <= 8,
            -8 <= self.y <= 8,
        ensures
            r.x == sign(self.x as int),
            r.y == sign(self.y as int),
    {
        let sx: i32 = if self.x > 0 {
            1
        } else if self.x < 0 {
            -1
        } else {
            0
        };
        let sy: i32 = if self.y > 0 {
            1
        } else if self.y < 0 {
            -1
        } else {
            0
        };
        ChessMove { x: sx, y: sy }
    }
}

/// The sign of an integer: `-1`, `0` or `1`.
pub open spec fn sign(i: int) -> int {
    if i > 0 {
        1
    } else if i < 0 {
        -1
    } else {
        0
    }
}

/// The absolute value of an integer.
pub open spec fn iabs(i: int) -> int {
    if i < 0 {
        -i
    } else {
        i
    }
}

/// One piece record.  Records are owned by a player's catalog and are
/// never removed from it: a captured piece is only flagged, so that the
/// indices other squares store stay valid.
#[derive(Clone, Copy, PartialEq, Eq, Structural, Debug)]
pub struct Piece {
    pub color: Color,
    pub position: Position,
    pub taken: bool,
    pub piece_type: PieceTypes,
}

impl Piece {
    /// A fresh, uncaptured piece on `position`.
    pub fn new(piece_type: PieceTypes, color: Color, position: Position) -> (p: Piece)
        ensures
            p == (Piece { color, position, taken: false, piece_type }),
    {
        Piece { color, position, taken: false, piece_type }
    }

    /// Whether the piece has been captured.
    pub fn is_taken(&self) -> (r: bool)
        ensures
            r == self.taken,
    {
        self.taken
    }

    /// Flag the piece as captured.  Its position loses its meaning; it is
    /// parked on the corner square.
    pub fn take(&mut self)
        ensures
            *final(self) == (Piece {
                taken: true,
                position: Position { x: 0, y: 0 },
                ..*old(self)
            }),
    {
        self.taken = true;
        self.position = Position { x: 0, y: 0 };
    }

    /// Undo a capture, restoring the position the piece was captured on.
    pub fn untake(&mut self, pos: Position)
        ensures
            *final(self) == (Piece { taken: false, position: pos, ..*old(self) }),
    {
        self.taken = false;
        self.position = pos;
    }

    /// Move the record to a new square.
    pub fn update_position(&mut self, new_pos: Position)
        ensures
            *final(self) == (Piece { position: new_pos, ..*old(self) }),
    {
        self.position = new_pos;
    }

    /// The square the record stands on (meaningless once captured).
    pub fn get_position(&self) -> (p: Position)
        ensures
            p == self.position,
    {
        self.position
    }

    /// The piece's kind.
    pub fn get_piece_type(&self) -> (t: PieceTypes)
        ensures
            t == self.piece_type,
    {
        self.piece_type
    }
}

} // verus!
