//! Movement legality, per piece type.
//!
//! `reach_result` is the full mathematical statement of the movement
//! rules: for a piece, a target square and a board it gives either `Ok`
//! or the exact reason the move is refused.  Check-safety is deliberately
//! not considered here; that is the validator's job.

use vstd::prelude::*;

use crate::board::{at2, Board, BoardEntry};
use crate::piece::{iabs, sign, Color, ChessMove, Piece, PieceTypes, Position};

verus! {

/// Why a requested move is refused.
#[derive(Clone, Copy, PartialEq, Eq, Structural, Debug)]
pub enum MoveError {
    /// Full notation named a source square with no piece on it.
    EmptySource,
    /// Full notation named a source square held by the opponent.
    WrongOwner,
    /// Full notation named a piece type other than the one on the source
    /// square.
    PieceTypeMismatch,
    /// Short notation matched no piece able to reach the target.
    NoMatchingPiece,
    /// Short notation matched two or more pieces able to reach the target.
    AmbiguousMove,
    /// The displacement is not one this piece ever makes (this also
    /// covers a pawn double advance away from its starting rank).
    InvalidShape,
    /// A piece stands in the way: on a square strictly between source and
    /// target, or on the landing square of a pawn advance.
    PathObstructed,
    /// The landing square holds a piece of the mover's own color.
    OccupiedBySelf,
    /// A pawn's diagonal step landed on an empty square.
    NothingToCapture,
    /// The move would leave the mover's own king attacked.
    MoveCausesCheck,
    /// The mover is already in check and the move does not resolve it.
    MustResolveExistingCheck,
}

impl MoveError {
    /// A short description, for display by a host program.
    pub fn message(&self) -> &'static str {
        match self {
            MoveError::EmptySource => "Selected field empty",
            MoveError::WrongOwner => "Piece on selected field does not belong to the player",
            MoveError::PieceTypeMismatch => "Selected piece does not match piece at selected field",
            MoveError::NoMatchingPiece => "Cannot find matching piece to move to destination",
            MoveError::AmbiguousMove => "Multiple possible moves - use full notation: [src:dest]",
            MoveError::InvalidShape => "Invalid move for this piece",
            MoveError::PathObstructed => "Piece in the way",
            MoveError::OccupiedBySelf => "Cannot take own piece",
            MoveError::NothingToCapture => "Nothing to take",
            MoveError::MoveCausesCheck => "Move causes check!",
            MoveError::MustResolveExistingCheck => "Currently in check! Cannot move piece unless it stops check!",
        }
    }
}

/// The `n` squares reached from `(x, y)` by repeating the unit step
/// `(sx, sy)` are all empty.  This is the path-obstruction test for
/// sliding moves; the landing square is judged separately.
pub open spec fn path_clear(
    b: Seq<Option<BoardEntry>>,
    x: int,
    y: int,
    sx: int,
    sy: int,
    n: nat,
) -> bool
    decreases n,
{
    n == 0 || (at2(b, x + sx, y + sy) is None && path_clear(
        b,
        x + sx,
        y + sy,
        sx,
        sy,
        (n - 1) as nat,
    ))
}

/// Landing on `(x, y)`: empty and enemy-held squares are fine, a square
/// held by one's own color is not.
pub open spec fn takeable_result(c: Color, x: int, y: int, b: Seq<Option<BoardEntry>>) -> Result<
    (),
    MoveError,
> {
    match at2(b, x, y) {
        Some(e) => if e.player_color == c {
            Err(MoveError::OccupiedBySelf)
        } else {
            Ok(())
        },
        None => Ok(()),
    }
}

/// The rank a pawn of color `c` starts on.
pub open spec fn pawn_start_rank(c: Color) -> int {
    if c is White {
        1
    } else {
        6
    }
}

/// The direction a pawn of color `c` advances in.
pub open spec fn pawn_dir(c: Color) -> int {
    if c is White {
        1
    } else {
        -1
    }
}

/// Pawn movement: forward one square onto an empty square; forward two
/// from the starting rank with both squares empty; one square diagonally
/// forward only as a capture.
pub open spec fn pawn_result(
    c: Color,
    fx: int,
    fy: int,
    tx: int,
    ty: int,
    b: Seq<Option<BoardEntry>>,
) -> Result<(), MoveError> {
    let dx = tx - fx;
    let dy = if c is White {
        ty - fy
    } else {
        fy - ty
    };
    if dx == 0 && (dy == 1 || dy == 2) {
        if dy == 2 && fy != pawn_start_rank(c) {
            Err(MoveError::InvalidShape)
        } else if dy == 2 && !(at2(b, fx, fy + pawn_dir(c)) is None) {
            Err(MoveError::PathObstructed)
        } else if !(at2(b, tx, ty) is None) {
            Err(MoveError::PathObstructed)
        } else {
            Ok(())
        }
    } else if (dx == 1 || dx == -1) && dy == 1 {
        match at2(b, tx, ty) {
            Some(e) => if e.player_color == c {
                Err(MoveError::OccupiedBySelf)
            } else {
                Ok(())
            },
            None => Err(MoveError::NothingToCapture),
        }
    } else {
        Err(MoveError::InvalidShape)
    }
}

/// A knight's displacement.
pub open spec fn knight_shape(dx: int, dy: int) -> bool {
    (iabs(dx) == 1 && iabs(dy) == 2) || (iabs(dx) == 2 && iabs(dy) == 1)
}

pub open spec fn knight_result(
    c: Color,
    fx: int,
    fy: int,
    tx: int,
    ty: int,
    b: Seq<Option<BoardEntry>>,
) -> Result<(), MoveError> {
    if knight_shape(tx - fx, ty - fy) {
        takeable_result(c, tx, ty, b)
    } else {
        Err(MoveError::InvalidShape)
    }
}

/// A bishop's displacement: diagonal and nonzero.
pub open spec fn bishop_shape(dx: int, dy: int) -> bool {
    dx != 0 && (dy == dx || dy == -dx)
}

pub open spec fn bishop_result(
    c: Color,
    fx: int,
    fy: int,
    tx: int,
    ty: int,
    b: Seq<Option<BoardEntry>>,
) -> Result<(), MoveError> {
    let dx = tx - fx;
    let dy = ty - fy;
    if !bishop_shape(dx, dy) {
        Err(MoveError::InvalidShape)
    } else if !path_clear(b, fx, fy, sign(dx), sign(dy), (iabs(dx) - 1) as nat) {
        Err(MoveError::PathObstructed)
    } else {
        takeable_result(c, tx, ty, b)
    }
}

/// A rook's displacement: along exactly one axis.
pub open spec fn rook_shape(dx: int, dy: int) -> bool {
    (dx == 0) != (dy == 0)
}

pub open spec fn rook_result(
    c: Color,
    fx: int,
    fy: int,
    tx: int,
    ty: int,
    b: Seq<Option<BoardEntry>>,
) -> Result<(), MoveError> {
    let dx = tx - fx;
    let dy = ty - fy;
    if !rook_shape(dx, dy) {
        Err(MoveError::InvalidShape)
    } else if !path_clear(b, fx, fy, sign(dx), sign(dy), (iabs(dx) + iabs(dy) - 1) as nat) {
        Err(MoveError::PathObstructed)
    } else {
        takeable_result(c, tx, ty, b)
    }
}

/// A queen moves as a rook or as a bishop; the two shapes are disjoint,
/// so the refusal of whichever shape matches is reported.
pub open spec fn queen_result(
    c: Color,
    fx: int,
    fy: int,
    tx: int,
    ty: int,
    b: Seq<Option<BoardEntry>>,
) -> Result<(), MoveError> {
    if rook_shape(tx - fx, ty - fy) {
        rook_result(c, fx, fy, tx, ty, b)
    } else if bishop_shape(tx - fx, ty - fy) {
        bishop_result(c, fx, fy, tx, ty, b)
    } else {
        Err(MoveError::InvalidShape)
    }
}

/// A king's displacement: one step in any direction.
pub open spec fn king_shape(dx: int, dy: int) -> bool {
    !(dx == 0 && dy == 0) && iabs(dx) <= 1 && iabs(dy) <= 1
}

pub open spec fn king_result(
    c: Color,
    fx: int,
    fy: int,
    tx: int,
    ty: int,
    b: Seq<Option<BoardEntry>>,
) -> Result<(), MoveError> {
    if king_shape(tx - fx, ty - fy) {
        takeable_result(c, tx, ty, b)
    } else {
        Err(MoveError::InvalidShape)
    }
}

/// The movement rules for `p` moving to `to` on board `b`: `Ok` when the
/// move is pseudo-legal, otherwise the exact reason it is not.
pub open spec fn reach_result(p: Piece, to: Position, b: Seq<Option<BoardEntry>>) -> Result<
    (),
    MoveError,
> {
    let fx = p.position.x as int;
    let fy = p.position.y as int;
    let tx = to.x as int;
    let ty = to.y as int;
    match p.piece_type {
        PieceTypes::Pawn => pawn_result(p.color, fx, fy, tx, ty, b),
        PieceTypes::Knight => knight_result(p.color, fx, fy, tx, ty, b),
        PieceTypes::Bishop => bishop_result(p.color, fx, fy, tx, ty, b),
        PieceTypes::Rook => rook_result(p.color, fx, fy, tx, ty, b),
        PieceTypes::Queen => queen_result(p.color, fx, fy, tx, ty, b),
        PieceTypes::King => king_result(p.color, fx, fy, tx, ty, b),
    }
}

/// Pseudo-legality: the movement rules accept the move (check-safety not
/// yet considered).
pub open spec fn reachable(p: Piece, to: Position, b: Seq<Option<BoardEntry>>) -> bool {
    reach_result(p, to, b) is Ok
}

/// The square one offset away from a piece (meaningful when that
/// square lies on the board).
pub open spec fn offset_pos(p: Piece, m: ChessMove) -> Position {
    Position {
        x: (p.position.x as int + m.x as int) as usize,
        y: (p.position.y as int + m.y as int) as usize,
    }
}

/// The offset lands on the board and the movement rules accept the
/// move onto it.
pub open spec fn offset_ok(p: Piece, m: ChessMove, b: Seq<Option<BoardEntry>>) -> bool {
    crate::piece::in_bounds(p.position.x as int + m.x as int, p.position.y as int + m.y as int)
        && reachable(p, offset_pos(p, m), b)
}

/// Whatever the piece type, an accepted move never lands on a square
/// held by the mover's own color.
pub proof fn lemma_reachable_target(p: Piece, to: Position, b: Seq<Option<BoardEntry>>)
    requires
        reachable(p, to, b),
    ensures
        match at2(b, to.x as int, to.y as int) {
            Some(e) => e.player_color != p.color,
            None => true,
        },
{
}

/// The path-obstruction test reads only whether each visited square is
/// occupied, never by whom: two boards occupied on exactly the same
/// squares block exactly the same paths.
pub proof fn lemma_obstruction_color_blind(
    b1: Seq<Option<BoardEntry>>,
    b2: Seq<Option<BoardEntry>>,
    x: int,
    y: int,
    sx: int,
    sy: int,
    n: nat,
)
    requires
        forall|px: int, py: int| at2(b1, px, py) is Some <==> #[trigger] at2(b2, px, py) is Some,
    ensures
        path_clear(b1, x, y, sx, sy, n) == path_clear(b2, x, y, sx, sy, n),
    decreases n,
{
    if n > 0 {
        lemma_obstruction_color_blind(b1, b2, x + sx, y + sy, sx, sy, (n - 1) as nat);
    }
}

/// Reachability symmetry for the sliding pieces: a blocking piece
/// blocks whether it is the mover's or the opponent's.  Two boards
/// occupied on the same squares, with the same entry on the landing
/// square, give a sliding piece exactly the same verdict, refusal
/// reason included: only the landing square's occupant decides between
/// capture and `OccupiedBySelf`.
pub proof fn lemma_reachability_symmetry(
    p: Piece,
    to: Position,
    b1: Seq<Option<BoardEntry>>,
    b2: Seq<Option<BoardEntry>>,
)
    requires
        forall|px: int, py: int| at2(b1, px, py) is Some <==> #[trigger] at2(b2, px, py) is Some,
        at2(b1, to.x as int, to.y as int) == at2(b2, to.x as int, to.y as int),
        p.piece_type is Bishop || p.piece_type is Rook || p.piece_type is Queen,
    ensures
        reach_result(p, to, b1) == reach_result(p, to, b2),
{
    let fx = p.position.x as int;
    let fy = p.position.y as int;
    let tx = to.x as int;
    let ty = to.y as int;
    let dx = tx - fx;
    let dy = ty - fy;
    lemma_obstruction_color_blind(b1, b2, fx, fy, sign(dx), sign(dy), (iabs(dx) - 1) as nat);
    lemma_obstruction_color_blind(
        b1,
        b2,
        fx,
        fy,
        sign(dx),
        sign(dy),
        (iabs(dx) + iabs(dy) - 1) as nat,
    );
}

impl Piece {
    /// Whether this piece can reach `new_pos` under the movement rules
    /// alone, with the exact refusal reason when it cannot.
    pub fn is_field_reachable(&self, new_pos: Position, board: &Board) -> (r: Result<
        (),
        MoveError,
    >)
        requires
            board.wf(),
            self.position.wf(),
            new_pos.wf(),
        ensures
            r == reach_result(*self, new_pos, board@),
    {
        match self.piece_type {
            PieceTypes::Pawn => self.is_field_reachable_pawn(new_pos, board),
            PieceTypes::Knight => self.is_field_reachable_knight(new_pos, board),
            PieceTypes::Bishop => self.is_field_reachable_bishop(new_pos, board),
            PieceTypes::Rook => self.is_field_reachable_rook(new_pos, board),
            PieceTypes::Queen => self.is_field_reachable_queen(new_pos, board),
            PieceTypes::King => self.is_field_reachable_king(new_pos, board),
        }
    }

    fn is_field_reachable_pawn(&self, new_pos: Position, board: &Board) -> (r: Result<
        (),
        MoveError,
    >)
        requires
            board.wf(),
            self.position.wf(),
            new_pos.wf(),
        ensures
            r == pawn_result(
                self.color,
                self.position.x as int,
                self.position.y as int,
                new_pos.x as int,
                new_pos.y as int,
                board@,
            ),
    {
        let m = self.position.get_move_to(new_pos);
        let dy: i32 = match self.color {
            Color::White => m.y,
            Color::Black => -m.y,
        };
        let start_rank: usize = match self.color {
            Color::White => 1,
            Color::Black => 6,
        };
        if m.x == 0 && (dy == 1 || dy == 2) {
            if dy == 2 {
                if self.position.y != start_rank {
                    return Err(MoveError::InvalidShape);
                }
                let mid_y: usize = match self.color {
                    Color::White => self.position.y + 1,
                    Color::Black => self.position.y - 1,
                };
                let mid = Position { x: self.position.x, y: mid_y };
                if board.get_board_entry(mid).is_some() {
                    return Err(MoveError::PathObstructed);
                }
            }
            match board.get_board_entry(new_pos) {
                Some(_) => Err(MoveError::PathObstructed),
                None => Ok(()),
            }
        } else if (m.x == 1 || m.x == -1) && dy == 1 {
            match board.get_board_entry(new_pos) {
                Some(entry) => if entry.player_color == self.color {
                    Err(MoveError::OccupiedBySelf)
                } else {
                    Ok(())
                },
                None => Err(MoveError::NothingToCapture),
            }
        } else {
            Err(MoveError::InvalidShape)
        }
    }

    fn is_field_reachable_knight(&self, new_pos: Position, board: &Board) -> (r: Result<
        (),
        MoveError,
    >)
        requires
            board.wf(),
            self.position.wf(),
            new_pos.wf(),
        ensures
            r == knight_result(
                self.color,
                self.position.x as int,
                self.position.y as int,
                new_pos.x as int,
                new_pos.y as int,
                board@,
            ),
    {
        let m = self.position.get_move_to(new_pos);
        let ax: i32 = if m.x < 0 {
            -m.x
        } else {
            m.x
        };
        let ay: i32 = if m.y < 0 {
            -m.y
        } else {
            m.y
        };
        if (ax == 1 && ay == 2) || (ax == 2 && ay == 1) {
            self.check_takeable(self.color, new_pos, board)
        } else {
            Err(MoveError::InvalidShape)
        }
    }

    fn is_field_reachable_bishop(&self, new_pos: Position, board: &Board) -> (r: Result<
        (),
        MoveError,
    >)
        requires
            board.wf(),
            self.position.wf(),
            new_pos.wf(),
        ensures
            r == bishop_result(
                self.color,
                self.position.x as int,
                self.position.y as int,
                new_pos.x as int,
                new_pos.y as int,
                board@,
            ),
    {
        let m = self.position.get_move_to(new_pos);
        if m.x != 0 && (m.y == m.x || m.y == -m.x) {
            let s = m.signum();
            let ax: i32 = if m.x < 0 {
                -m.x
            } else {
                m.x
            };
            if self.is_path_obstructed(board, ax - 1, s) {
                return Err(MoveError::PathObstructed);
            }
            self.check_takeable(self.color, new_pos, board)
        } else {
            Err(MoveError::InvalidShape)
        }
    }

    fn is_field_reachable_rook(&self, new_pos: Position, board: &Board) -> (r: Result<
        (),
        MoveError,
    >)
        requires
            board.wf(),
            self.position.wf(),
            new_pos.wf(),
        ensures
            r == rook_result(
                self.color,
                self.position.x as int,
                self.position.y as int,
                new_pos.x as int,
                new_pos.y as int,
                board@,
            ),
    {
        let m = self.position.get_move_to(new_pos);
        if (m.x == 0) != (m.y == 0) {
            let s = m.signum();
            let dist: i32 = if m.x < 0 {
                -m.x
            } else if m.x > 0 {
                m.x
            } else if m.y < 0 {
                -m.y
            } else {
                m.y
            };
            if self.is_path_obstructed(board, dist - 1, s) {
                return Err(MoveError::PathObstructed);
            }
            self.check_takeable(self.color, new_pos, board)
        } else {
            Err(MoveError::InvalidShape)
        }
    }

    fn is_field_reachable_queen(&self, new_pos: Position, board: &Board) -> (r: Result<
        (),
        MoveError,
    >)
        requires
            board.wf(),
            self.position.wf(),
            new_pos.wf(),
        ensures
            r == queen_result(
                self.color,
                self.position.x as int,
                self.position.y as int,
                new_pos.x as int,
                new_pos.y as int,
                board@,
            ),
    {
        let m = self.position.get_move_to(new_pos);
        if (m.x == 0) != (m.y == 0) {
            self.is_field_reachable_rook(new_pos, board)
        } else if m.x != 0 && (m.y == m.x || m.y == -m.x) {
            self.is_field_reachable_bishop(new_pos, board)
        } else {
            Err(MoveError::InvalidShape)
        }
    }

    fn is_field_reachable_king(&self, new_pos: Position, board: &Board) -> (r: Result<
        (),
        MoveError,
    >)
        requires
            board.wf(),
            self.position.wf(),
            new_pos.wf(),
        ensures
            r == king_result(
                self.color,
                self.position.x as int,
                self.position.y as int,
                new_pos.x as int,
                new_pos.y as int,
                board@,
            ),
    {
        let m = self.position.get_move_to(new_pos);
        let ax: i32 = if m.x < 0 {
            -m.x
        } else {
            m.x
        };
        let ay: i32 = if m.y < 0 {
            -m.y
        } else {
            m.y
        };
        if !(m.x == 0 && m.y == 0) && ax <= 1 && ay <= 1 {
            self.check_takeable(self.color, new_pos, board)
        } else {
            Err(MoveError::InvalidShape)
        }
    }

    /// Walk `num_fields` unit steps from this piece's square and report
    /// whether any of the visited squares is occupied.
    fn is_path_obstructed(&self, board: &Board, num_fields: i32, add: ChessMove) -> (r: bool)
        requires
            board.wf(),
            self.position.wf(),
            -1 <= add.x <= 1,
            -1 <= add.y <= 1,
            0 <= num_fields <= 8,
            add.x == 1 ==> self.position.x + num_fields < 8,
            add.x == -1 ==> num_fields <= self.position.x,
            add.y == 1 ==> self.position.y + num_fields < 8,
            add.y == -1 ==> num_fields <= self.position.y,
        ensures
            r == !path_clear(
                board@,
                self.position.x as int,
                self.position.y as int,
                add.x as int,
                add.y as int,
                num_fields as nat,
            ),
    {
        let mut cx: usize = self.position.x;
        let mut cy: usize = self.position.y;
        let mut i: i32 = 0;
        while i < num_fields
            invariant
                board.wf(),
                0 <= i <= num_fields <= 8,
                cx < 8,
                cy < 8,
                -1 <= add.x <= 1,
                -1 <= add.y <= 1,
                add.x == 1 ==> cx == self.position.x + i && self.position.x + num_fields < 8,
                add.x == -1 ==> cx + i == self.position.x && num_fields <= self.position.x,
                add.x == 0 ==> cx == self.position.x,
                add.y == 1 ==> cy == self.position.y + i && self.position.y + num_fields < 8,
                add.y == -1 ==> cy + i == self.position.y && num_fields <= self.position.y,
                add.y == 0 ==> cy == self.position.y,
                path_clear(
                    board@,
                    self.position.x as int,
                    self.position.y as int,
                    add.x as int,
                    add.y as int,
                    num_fields as nat,
                ) == path_clear(
                    board@,
                    cx as int,
                    cy as int,
                    add.x as int,
                    add.y as int,
                    (num_fields - i) as nat,
                ),
            decreases num_fields - i,
        {
            let nx: usize = (cx as i32 + add.x) as usize;
            let ny: usize = (cy as i32 + add.y) as usize;
            let probe = Position { x: nx, y: ny };
            if board.get_board_entry(probe).is_some() {
                return true;
            }
            cx = nx;
            cy = ny;
            i = i + 1;
        }
        false
    }

    /// Every square this piece can reach under the movement rules alone
    /// (check-safety not yet considered).  The knight and the king try
    /// their fixed offset sets; every other piece has each of the 64
    /// squares held against its rules.  The order of the result is
    /// fixed by the construction but carries no meaning.
    pub fn get_reachable_positions(&self, board: &Board) -> (r: Vec<Position>)
        requires
            board.wf(),
            self.position.wf(),
        ensures
            forall|p: Position| #[trigger]
                r@.contains(p) ==> p.wf() && reachable(*self, p, board@),
            forall|p: Position| p.wf() && reachable(*self, p, board@) ==> r@.contains(p),
            forall|i: int, j: int| 0 <= i < j < r@.len() ==> r@[i] != r@[j],
    {
        match self.piece_type {
            PieceTypes::Knight => self.get_reachable_positions_knight(board),
            PieceTypes::King => self.get_reachable_positions_king(board),
            _ => self.reachable_positions_scan(board),
        }
    }

    /// The destinations of a sliding or stepping piece: each of the 64
    /// squares, held against the movement rules.
    fn reachable_positions_scan(&self, board: &Board) -> (r: Vec<Position>)
        requires
            board.wf(),
            self.position.wf(),
        ensures
            forall|p: Position| #[trigger]
                r@.contains(p) ==> p.wf() && reachable(*self, p, board@),
            forall|p: Position| p.wf() && reachable(*self, p, board@) ==> r@.contains(p),
            forall|i: int, j: int| 0 <= i < j < r@.len() ==> r@[i] != r@[j],
    {
        let mut out: Vec<Position> = Vec::new();
        let mut x: usize = 0;
        while x < 8
            invariant
                board.wf(),
                self.position.wf(),
                x <= 8,
                forall|p: Position| #[trigger]
                    out@.contains(p) ==> p.wf() && p.x < x && reachable(*self, p, board@),
                forall|p: Position|
                    p.wf() && p.x < x && reachable(*self, p, board@) ==> out@.contains(p),
                forall|i: int, j: int| 0 <= i < j < out@.len() ==> out@[i] != out@[j],
            decreases 8 - x,
        {
            let mut y: usize = 0;
            while y < 8
                invariant
                    board.wf(),
                    self.position.wf(),
                    x < 8,
                    y <= 8,
                    forall|p: Position| #[trigger]
                        out@.contains(p) ==> p.wf() && (p.x < x || (p.x == x && p.y < y))
                            && reachable(*self, p, board@),
                    forall|p: Position|
                        p.wf() && (p.x < x || (p.x == x && p.y < y)) && reachable(
                            *self,
                            p,
                            board@,
                        ) ==> out@.contains(p),
                    forall|i: int, j: int| 0 <= i < j < out@.len() ==> out@[i] != out@[j],
                decreases 8 - y,
            {
                let candidate = Position { x, y };
                if self.is_field_reachable(candidate, board).is_ok() {
                    let ghost before = out@;
                    out.push(candidate);
                    proof {
                        assert(out@ == before.push(candidate));
                        assert(out@[before.len() as int] == candidate);
                        assert(forall|i: int| 0 <= i < before.len() ==> out@[i] == before[i]);
                        assert(forall|p: Position| #[trigger]
                            out@.contains(p) ==> p == candidate || before.contains(p));
                        assert(out@.contains(candidate));
                        assert(forall|p: Position| #[trigger]
                            before.contains(p) ==> out@.contains(p));
                        assert forall|i: int| 0 <= i < before.len() implies before[i]
                            != candidate by {
                            assert(before.contains(before[i]));
                        }
                    }
                }
                y = y + 1;
            }
            x = x + 1;
        }
        out
    }

    /// A knight's destinations: its eight jump offsets, each screened
    /// through the movement rules.
    fn get_reachable_positions_knight(&self, board: &Board) -> (r: Vec<Position>)
        requires
            board.wf(),
            self.position.wf(),
            self.piece_type is Knight,
        ensures
            forall|p: Position| #[trigger]
                r@.contains(p) ==> p.wf() && reachable(*self, p, board@),
            forall|p: Position| p.wf() && reachable(*self, p, board@) ==> r@.contains(p),
            forall|i: int, j: int| 0 <= i < j < r@.len() ==> r@[i] != r@[j],
    {
        let mut offs: Vec<ChessMove> = Vec::new();
        offs.push(ChessMove { x: 1, y: 2 });
        offs.push(ChessMove { x: 2, y: 1 });
        offs.push(ChessMove { x: 2, y: -1 });
        offs.push(ChessMove { x: 1, y: -2 });
        offs.push(ChessMove { x: -1, y: -2 });
        offs.push(ChessMove { x: -2, y: -1 });
        offs.push(ChessMove { x: -2, y: 1 });
        offs.push(ChessMove { x: -1, y: 2 });
        let ghost steps = offs@;
        let out = self.collect_offset_targets(board, offs);
        proof {
            assert forall|p: Position| p.wf() && reachable(*self, p, board@) implies out@.contains(
                p,
            ) by {
                let dx = p.x as int - self.position.x as int;
                let dy = p.y as int - self.position.y as int;
                assert(knight_shape(dx, dy));
                let j: int = if dx == 1 && dy == 2 {
                    0
                } else if dx == 2 && dy == 1 {
                    1
                } else if dx == 2 && dy == -1 {
                    2
                } else if dx == 1 && dy == -2 {
                    3
                } else if dx == -1 && dy == -2 {
                    4
                } else if dx == -2 && dy == -1 {
                    5
                } else if dx == -2 && dy == 1 {
                    6
                } else {
                    7
                };
                assert(steps[j] == (ChessMove { x: dx as i32, y: dy as i32 }));
                assert(p == offset_pos(*self, steps[j]));
                assert(offset_ok(*self, steps[j], board@));
            }
        }
        out
    }

    /// A king's destinations: the eight squares around it, each
    /// screened through the movement rules.
    fn get_reachable_positions_king(&self, board: &Board) -> (r: Vec<Position>)
        requires
            board.wf(),
            self.position.wf(),
            self.piece_type is King,
        ensures
            forall|p: Position| #[trigger]
                r@.contains(p) ==> p.wf() && reachable(*self, p, board@),
            forall|p: Position| p.wf() && reachable(*self, p, board@) ==> r@.contains(p),
            forall|i: int, j: int| 0 <= i < j < r@.len() ==> r@[i] != r@[j],
    {
        let mut offs: Vec<ChessMove> = Vec::new();
        offs.push(ChessMove { x: -1, y: -1 });
        offs.push(ChessMove { x: -1, y: 0 });
        offs.push(ChessMove { x: -1, y: 1 });
        offs.push(ChessMove { x: 0, y: -1 });
        offs.push(ChessMove { x: 0, y: 1 });
        offs.push(ChessMove { x: 1, y: -1 });
        offs.push(ChessMove { x: 1, y: 0 });
        offs.push(ChessMove { x: 1, y: 1 });
        let ghost steps = offs@;
        let out = self.collect_offset_targets(board, offs);
        proof {
            assert forall|p: Position| p.wf() && reachable(*self, p, board@) implies out@.contains(
                p,
            ) by {
                let dx = p.x as int - self.position.x as int;
                let dy = p.y as int - self.position.y as int;
                assert(king_shape(dx, dy));
                let j: int = if dx == -1 && dy == -1 {
                    0
                } else if dx == -1 && dy == 0 {
                    1
                } else if dx == -1 && dy == 1 {
                    2
                } else if dx == 0 && dy == -1 {
                    3
                } else if dx == 0 && dy == 1 {
                    4
                } else if dx == 1 && dy == -1 {
                    5
                } else if dx == 1 && dy == 0 {
                    6
                } else {
                    7
                };
                assert(steps[j] == (ChessMove { x: dx as i32, y: dy as i32 }));
                assert(p == offset_pos(*self, steps[j]));
                assert(offset_ok(*self, steps[j], board@));
            }
        }
        out
    }

    /// Screen a fixed list of pairwise different offsets and collect
    /// the accepted target squares, in order.
    #[verifier::loop_isolation(false)]
    fn collect_offset_targets(&self, board: &Board, offs: Vec<ChessMove>) -> (r: Vec<Position>)
        requires
            board.wf(),
            self.position.wf(),
            forall|j: int|
                0 <= j < offs@.len() ==> -2 <= (#[trigger] offs@[j]).x <= 2 && -2 <= offs@[j].y
                    <= 2,
            forall|j1: int, j2: int| 0 <= j1 < j2 < offs@.len() ==> offs@[j1] != offs@[j2],
        ensures
            forall|p: Position| #[trigger]
                r@.contains(p) ==> exists|j: int|
                    0 <= j < offs@.len() && offset_ok(*self, offs@[j], board@) && p == offset_pos(
                        *self,
                        offs@[j],
                    ),
            forall|j: int|
                0 <= j < offs@.len() && offset_ok(*self, #[trigger] offs@[j], board@)
                    ==> r@.contains(offset_pos(*self, offs@[j])),
            forall|i: int, j: int| 0 <= i < j < r@.len() ==> r@[i] != r@[j],
    {
        let mut out: Vec<Position> = Vec::new();
        let n: usize = offs.len();
        let mut i: usize = 0;
        while i < n
            invariant
                i <= n,
                forall|p: Position| #[trigger]
                    out@.contains(p) ==> exists|j: int|
                        0 <= j < i && offset_ok(*self, offs@[j], board@) && p == offset_pos(
                            *self,
                            offs@[j],
                        ),
                forall|j: int|
                    0 <= j < i && offset_ok(*self, #[trigger] offs@[j], board@)
                        ==> out@.contains(offset_pos(*self, offs@[j])),
                forall|k1: int, k2: int| 0 <= k1 < k2 < out@.len() ==> out@[k1] != out@[k2],
            decreases n - i,
        {
            let ghost before = out@;
            self.try_candidate(board, &mut out, offs[i]);
            proof {
                let m = offs@[i as int];
                if offset_ok(*self, m, board@) {
                    let q = offset_pos(*self, m);
                    assert(out@ == before.push(q));
                    assert(out@[before.len() as int] == q);
                    assert(forall|k: int| 0 <= k < before.len() ==> out@[k] == before[k]);
                    assert forall|p: Position| #[trigger] out@.contains(p) implies (p == q
                        || before.contains(p)) by {
                        let k = choose|k: int| 0 <= k < out@.len() && out@[k] == p;
                        if k < before.len() {
                            assert(before[k] == p);
                        }
                    }
                    assert(forall|p: Position| #[trigger]
                        before.contains(p) ==> out@.contains(p));
                    assert(out@.contains(q));
                    assert forall|k: int| 0 <= k < before.len() implies before[k] != q by {
                        assert(before.contains(before[k]));
                        let j = choose|j: int|
                            0 <= j < i && offset_ok(*self, offs@[j], board@) && before[k]
                                == offset_pos(*self, offs@[j]);
                        if before[k] == q {
                            // two accepted offsets landing on one square
                            // would be the same offset
                            assert(offs@[j].x as int == m.x as int && offs@[j].y as int
                                == m.y as int);
                            assert(offs@[j] == m);
                            assert(false);
                        }
                    }
                }
            }
            i = i + 1;
        }
        out
    }

    /// Try one offset: when it lands on the board and the movement
    /// rules accept the move there, append the target square.
    fn try_candidate(&self, board: &Board, out: &mut Vec<Position>, m: ChessMove)
        requires
            board.wf(),
            self.position.wf(),
            -2 <= m.x <= 2,
            -2 <= m.y <= 2,
        ensures
            final(out)@ == (if offset_ok(*self, m, board@) {
                old(out)@.push(offset_pos(*self, m))
            } else {
                old(out)@
            }),
    {
        if let Some(p) = self.position.add_move(m) {
            proof {
                assert(p == offset_pos(*self, m));
            }
            if self.is_field_reachable(p, board).is_ok() {
                out.push(p);
            }
        }
    }

    /// The landing-square test shared by every piece type: an enemy piece
    /// may be captured, one's own may not be displaced.
    fn check_takeable(&self, piece_color: Color, new_pos: Position, board: &Board) -> (r: Result<
        (),
        MoveError,
    >)
        requires
            board.wf(),
            new_pos.wf(),
        ensures
            r == takeable_result(piece_color, new_pos.x as int, new_pos.y as int, board@),
    {
        match board.get_board_entry(new_pos) {
            Some(entry) => if entry.player_color == piece_color {
                Err(MoveError::OccupiedBySelf)
            } else {
                Ok(())
            },
            None => Ok(()),
        }
    }
}

} // verus!

