//! A player: an ordered catalog of piece records, a color, and a cached
//! in-check flag.
//!
//! Catalog indices are stable for the whole game: captured records stay
//! in place, only flagged, because the board refers to pieces by
//! `(color, index)`.

use vstd::prelude::*;

use crate::board::{at2, Board, BoardEntry};
use crate::piece::{Color, Piece, PieceTypes, Position};
use crate::rules::reachable;
use crate::validator::{has_legal_move, legal_destinations, live_legal, state_of};

verus! {

/// There is a King record in the catalog.
pub open spec fn has_king(pieces: Seq<Piece>) -> bool {
    exists|i: int| 0 <= i < pieces.len() && pieces[i].piece_type is King
}

/// The index of the first King record at or after `i` (the catalog's
/// length when there is none).
pub open spec fn first_king_from(pieces: Seq<Piece>, i: int) -> int
    decreases pieces.len() - i,
{
    if i < 0 || i >= pieces.len() {
        pieces.len() as int
    } else if pieces[i].piece_type is King {
        i
    } else {
        first_king_from(pieces, i + 1)
    }
}

/// The index of the first King record in the catalog.
pub open spec fn first_king(pieces: Seq<Piece>) -> int {
    first_king_from(pieces, 0)
}

/// The square the catalog's king stands on.
pub open spec fn king_pos(pieces: Seq<Piece>) -> Position {
    pieces[first_king(pieces)].position
}

/// Some non-captured piece of `attackers` can reach `target` under the
/// movement rules.
pub open spec fn square_attacked(
    attackers: Seq<Piece>,
    target: Position,
    b: Seq<Option<BoardEntry>>,
) -> bool {
    exists|i: int|
        0 <= i < attackers.len() && !attackers[i].taken && reachable(attackers[i], target, b)
}

/// The king of `own` is attacked by some non-captured piece of `enemy`.
pub open spec fn checked_by(own: Seq<Piece>, enemy: Seq<Piece>, b: Seq<Option<BoardEntry>>) -> bool {
    square_attacked(enemy, king_pos(own), b)
}

pub struct Player {
    pub pieces: Vec<Piece>,
    pub color: Color,
    pub in_check: bool,
}

/// The initial catalog of one side: eight pawns, then rook, knight and
/// bishop from each wing, then queen and king.
pub open spec fn init_pieces_spec(c: Color) -> Seq<Piece> {
    let pr: int = if c is White {
        1
    } else {
        6
    };
    let br: int = if c is White {
        0
    } else {
        7
    };
    seq![
        pawn_at(c, 0, pr),
        pawn_at(c, 1, pr),
        pawn_at(c, 2, pr),
        pawn_at(c, 3, pr),
        pawn_at(c, 4, pr),
        pawn_at(c, 5, pr),
        pawn_at(c, 6, pr),
        pawn_at(c, 7, pr),
        back_at(c, PieceTypes::Rook, 0, br),
        back_at(c, PieceTypes::Knight, 1, br),
        back_at(c, PieceTypes::Bishop, 2, br),
        back_at(c, PieceTypes::Rook, 7, br),
        back_at(c, PieceTypes::Knight, 6, br),
        back_at(c, PieceTypes::Bishop, 5, br),
        back_at(c, PieceTypes::Queen, 3, br),
        back_at(c, PieceTypes::King, 4, br),
    ]
}

pub open spec fn pawn_at(c: Color, x: int, y: int) -> Piece {
    Piece {
        color: c,
        position: Position { x: x as usize, y: y as usize },
        taken: false,
        piece_type: PieceTypes::Pawn,
    }
}

pub open spec fn back_at(c: Color, t: PieceTypes, x: int, y: int) -> Piece {
    Piece { color: c, position: Position { x: x as usize, y: y as usize }, taken: false, piece_type: t }
}

/// Build the initial sixteen piece records of one side.
fn init_pieces(color: Color) -> (r: Vec<Piece>)
    ensures
        r@ == init_pieces_spec(color),
{
    let mut pieces: Vec<Piece> = Vec::new();
    let pawn_rank: usize = match color {
        Color::White => 1,
        Color::Black => 6,
    };
    let back_rank: usize = match color {
        Color::White => 0,
        Color::Black => 7,
    };
    let mut i: usize = 0;
    while i < 8
        invariant
            i <= 8,
            pieces@.len() == i,
            pawn_rank as int == (if color is White {
                1int
            } else {
                6
            }),
            forall|j: int| 0 <= j < i ==> pieces@[j] == pawn_at(color, j, pawn_rank as int),
        decreases 8 - i,
    {
        pieces.push(Piece::new(PieceTypes::Pawn, color, Position { x: i, y: pawn_rank }));
        i = i + 1;
    }
    pieces.push(Piece::new(PieceTypes::Rook, color, Position { x: 0, y: back_rank }));
    pieces.push(Piece::new(PieceTypes::Knight, color, Position { x: 1, y: back_rank }));
    pieces.push(Piece::new(PieceTypes::Bishop, color, Position { x: 2, y: back_rank }));
    pieces.push(Piece::new(PieceTypes::Rook, color, Position { x: 7, y: back_rank }));
    pieces.push(Piece::new(PieceTypes::Knight, color, Position { x: 6, y: back_rank }));
    pieces.push(Piece::new(PieceTypes::Bishop, color, Position { x: 5, y: back_rank }));
    pieces.push(Piece::new(PieceTypes::Queen, color, Position { x: 3, y: back_rank }));
    pieces.push(Piece::new(PieceTypes::King, color, Position { x: 4, y: back_rank }));
    proof {
        assert(pieces@ =~= init_pieces_spec(color));
    }
    pieces
}

impl Player {
    /// Every record carries this player's color, on a real square.
    pub open spec fn pieces_wf(self) -> bool {
        forall|i: int|
            0 <= i < self.pieces@.len() ==> (#[trigger] self.pieces@[i]).color == self.color
                && self.pieces@[i].position.wf()
    }

    /// A player with the standard starting pieces.
    pub fn new(color: Color) -> (p: Player)
        ensures
            p.pieces@ == init_pieces_spec(color),
            p.color == color,
            p.in_check == false,
            p.pieces_wf(),
            has_king(p.pieces@),
    {
        let pieces = init_pieces(color);
        let p = Player { pieces, color, in_check: false };
        proof {
            assert(p.pieces@[15].piece_type is King);
        }
        p
    }

    /// A player owning a caller-supplied catalog (used by position
    /// import).
    pub fn new_from(pieces: Vec<Piece>, color: Color) -> (p: Player)
        ensures
            p.pieces@ == pieces@,
            p.color == color,
            p.in_check == false,
    {
        Player { pieces, color, in_check: false }
    }

    pub fn get_pieces(&self) -> (r: &Vec<Piece>)
        ensures
            r@ == self.pieces@,
    {
        &self.pieces
    }

    pub fn get_piece(&self, index: usize) -> (r: &Piece)
        requires
            index < self.pieces@.len(),
        ensures
            *r == self.pieces@[index as int],
    {
        &self.pieces[index]
    }

    /// Flag the record at `piece_index` as captured.
    pub fn take_piece(&mut self, piece_index: usize)
        requires
            piece_index < old(self).pieces@.len(),
            !old(self).pieces@[piece_index as int].taken,
        ensures
            final(self).pieces@ == old(self).pieces@.update(
                piece_index as int,
                Piece {
                    taken: true,
                    position: Position { x: 0, y: 0 },
                    ..old(self).pieces@[piece_index as int]
                },
            ),
            final(self).color == old(self).color,
            final(self).in_check == old(self).in_check,
    {
        let piece = &mut self.pieces[piece_index];
        piece.take();
    }

    /// Undo a capture, restoring the given square.
    pub fn untake_piece(&mut self, piece_index: usize, pos: Position)
        requires
            piece_index < old(self).pieces@.len(),
            old(self).pieces@[piece_index as int].taken,
        ensures
            final(self).pieces@ == old(self).pieces@.update(
                piece_index as int,
                Piece { taken: false, position: pos, ..old(self).pieces@[piece_index as int] },
            ),
            final(self).color == old(self).color,
            final(self).in_check == old(self).in_check,
    {
        let piece = &mut self.pieces[piece_index];
        piece.untake(pos);
    }

    /// Move the record at `piece_index` to `new_pos`.
    pub fn update_piece_position(&mut self, piece_index: usize, new_pos: Position)
        requires
            piece_index < old(self).pieces@.len(),
        ensures
            final(self).pieces@ == old(self).pieces@.update(
                piece_index as int,
                Piece { position: new_pos, ..old(self).pieces@[piece_index as int] },
            ),
            final(self).color == old(self).color,
            final(self).in_check == old(self).in_check,
    {
        let piece = &mut self.pieces[piece_index];
        piece.update_position(new_pos);
    }

    /// The legal destination list of every non-captured piece of this
    /// player, in catalog order.  Board and catalogs are left exactly as
    /// found.
    pub fn get_all_legal_positions(&mut self, enemy: &mut Player, board: &mut Board) -> (r: Vec<
        Vec<Position>,
    >)
        requires
            old(board).wf(),
            old(self).pieces_wf(),
            old(enemy).pieces_wf(),
            old(self).color != old(enemy).color,
            has_king(old(self).pieces@),
            state_of(*old(board), *old(self), *old(enemy)).wf(),
        ensures
            final(self).pieces@ == old(self).pieces@,
            final(self).color == old(self).color,
            final(self).in_check == old(self).in_check,
            final(enemy).pieces@ == old(enemy).pieces@,
            final(enemy).color == old(enemy).color,
            final(enemy).in_check == old(enemy).in_check,
            final(board)@ == old(board)@,
            forall|k: int, p: Position|
                0 <= k < r@.len() && #[trigger] r@[k]@.contains(p) ==> exists|i: int|
                    live_legal(
                        state_of(*old(board), *old(self), *old(enemy)),
                        old(self).color,
                        old(self).pieces@,
                        i,
                        p,
                    ),
            forall|i: int, p: Position|
                live_legal(
                    state_of(*old(board), *old(self), *old(enemy)),
                    old(self).color,
                    old(self).pieces@,
                    i,
                    p,
                ) ==> exists|k: int| 0 <= k < r@.len() && #[trigger] r@[k]@.contains(p),
    {
        let ghost pre = state_of(*old(board), *old(self), *old(enemy));
        let ghost mc = old(self).color;
        let ghost cat = old(self).pieces@;
        let mut all_positions: Vec<Vec<Position>> = Vec::new();
        let len: usize = self.pieces.len();
        let mut indx: usize = 0;
        while indx < len
            invariant
                len == cat.len(),
                indx <= len,
                board.wf(),
                self.pieces_wf(),
                enemy.pieces_wf(),
                self.color != enemy.color,
                has_king(self.pieces@),
                self.pieces@ == old(self).pieces@,
                self.color == old(self).color,
                self.in_check == old(self).in_check,
                enemy.pieces@ == old(enemy).pieces@,
                enemy.color == old(enemy).color,
                enemy.in_check == old(enemy).in_check,
                board@ == old(board)@,
                state_of(*board, *self, *enemy) == pre,
                pre.wf(),
                mc == self.color,
                cat == self.pieces@,
                forall|k: int, p: Position|
                    0 <= k < all_positions@.len() && #[trigger] all_positions@[k]@.contains(p)
                        ==> exists|i: int| live_legal(pre, mc, cat, i, p),
                forall|i: int, p: Position|
                    0 <= i < indx && live_legal(pre, mc, cat, i, p) ==> exists|k: int|
                        0 <= k < all_positions@.len() && #[trigger] all_positions@[k]@.contains(
                            p,
                        ),
            decreases len - indx,
        {
            let piece = self.pieces[indx];
            if !piece.is_taken() {
                proof {
                    assert(pre.cat_on_board(mc));
                    assert(pre.cat(mc) == cat);
                    assert(at2(
                        pre.board,
                        cat[indx as int].position.x as int,
                        cat[indx as int].position.y as int,
                    ) == Some(BoardEntry { player_color: mc, piece_index: indx }));
                }
                let dests = legal_destinations(piece, self, enemy, board);
                let ghost before = all_positions@;
                all_positions.push(dests);
                proof {
                    assert(all_positions@[before.len() as int] == dests);
                    assert(forall|k: int|
                        0 <= k < before.len() ==> all_positions@[k] == before[k]);
                    assert forall|p: Position| #[trigger] dests@.contains(p) implies exists|
                        i: int,
                    | live_legal(pre, mc, cat, i, p) by {
                        assert(live_legal(pre, mc, cat, indx as int, p));
                    }
                    assert forall|i: int, p: Position|
                        0 <= i < indx + 1 && live_legal(pre, mc, cat, i, p) implies exists|
                        k: int,
                    |
                        0 <= k < all_positions@.len() && #[trigger] all_positions@[k]@.contains(
                            p,
                        ) by {
                        if i == indx as int {
                            assert(all_positions@[before.len() as int]@.contains(p));
                        } else {
                            let k = choose|k: int|
                                0 <= k < before.len() && #[trigger] before[k]@.contains(p);
                            assert(all_positions@[k]@.contains(p));
                        }
                    }
                }
            }
            indx = indx + 1;
        }
        all_positions
    }

    /// Whether the game is over for this player: true exactly when no
    /// piece of theirs has any legal move (checkmate when in check,
    /// stalemate when not).  The cached in-check flag is recomputed.
    #[verifier::loop_isolation(false)]
    pub fn is_game_over(&mut self, enemy: &mut Player, board: &mut Board) -> (r: bool)
        requires
            old(board).wf(),
            old(self).pieces_wf(),
            old(enemy).pieces_wf(),
            old(self).color != old(enemy).color,
            has_king(old(self).pieces@),
            state_of(*old(board), *old(self), *old(enemy)).wf(),
        ensures
            final(self).pieces@ == old(self).pieces@,
            final(self).color == old(self).color,
            final(self).in_check == checked_by(old(self).pieces@, old(enemy).pieces@, old(board)@),
            final(enemy).pieces@ == old(enemy).pieces@,
            final(enemy).color == old(enemy).color,
            final(enemy).in_check == old(enemy).in_check,
            final(board)@ == old(board)@,
            r == !has_legal_move(
                state_of(*old(board), *old(self), *old(enemy)),
                old(self).color,
                old(self).pieces@,
            ),
    {
        let ghost pre = state_of(*old(board), *old(self), *old(enemy));
        let ghost mc = old(self).color;
        let ghost cat = old(self).pieces@;
        let all = self.get_all_legal_positions(enemy, board);
        self.update_check(enemy, board);
        let mut k: usize = 0;
        let n: usize = all.len();
        while k < n
            invariant
                n == all@.len(),
                k <= n,
                forall|j: int| 0 <= j < k ==> (#[trigger] all@[j]@).len() == 0,
            decreases n - k,
        {
            if all[k].len() > 0 {
                proof {
                    assert(all@[k as int]@.contains(all@[k as int]@[0]));
                    assert(has_legal_move(pre, mc, cat)) by {
                        let i = choose|i: int|
                            live_legal(pre, mc, cat, i, all@[k as int]@[0]);
                        assert(live_legal(pre, mc, cat, i, all@[k as int]@[0]));
                    }
                }
                return false;
            }
            k = k + 1;
        }
        proof {
            if has_legal_move(pre, mc, cat) {
                let (i, p) = choose|i: int, p: Position| live_legal(pre, mc, cat, i, p);
                let kk = choose|kk: int| 0 <= kk < all@.len() && #[trigger] all@[kk]@.contains(p);
                assert(all@[kk]@.len() == 0);
                let idx = choose|idx: int| 0 <= idx < all@[kk]@.len() && all@[kk]@[idx] == p;
                assert(false);
            }
        }
        true
    }

    /// Whether this player's king is attacked by some non-captured enemy
    /// piece on the given board.  This is the raw attacked-king test: it
    /// deliberately ignores check-safety of the attacker itself.
    pub fn gets_checked_by(&self, enemy: &Player, board: &Board) -> (r: bool)
        requires
            board.wf(),
            self.pieces_wf(),
            enemy.pieces_wf(),
            has_king(self.pieces@),
        ensures
            r == checked_by(self.pieces@, enemy.pieces@, board@),
    {
        let ghost s = self.pieces@;
        let mut k: usize = 0;
        let n: usize = self.pieces.len();
        let mut king_position: Option<Position> = None;
        while k < n
            invariant_except_break
                n == s.len(),
                k <= n,
                s == self.pieces@,
                king_position is None,
                first_king(s) == first_king_from(s, k as int),
            ensures
                match king_position {
                    Some(p) => 0 <= first_king(s) < s.len() && p == s[first_king(s)].position,
                    None => first_king(s) == s.len(),
                },
            decreases n - k,
        {
            if matches!(self.pieces[k].piece_type, PieceTypes::King) {
                king_position = Some(self.pieces[k].position);
                break;
            }
            k = k + 1;
        }
        let king_square: Position = match king_position {
            Some(p) => p,
            None => {
                proof {
                    assert(first_king(s) == s.len());
                    assert(forall|i: int|
                        0 <= i < s.len() ==> !((#[trigger] s[i]).piece_type is King)) by {
                        lemma_first_king_none(s, 0);
                    }
                }
                // a catalog without a king never reaches this point
                unreached()
            },
        };
        proof {
            assert(king_square == king_pos(s));
            assert(self.pieces@[first_king(s)].position.wf());
        }
        let mut i: usize = 0;
        let m: usize = enemy.pieces.len();
        while i < m
            invariant
                board.wf(),
                enemy.pieces_wf(),
                m == enemy.pieces@.len(),
                i <= m,
                king_square == king_pos(self.pieces@),
                king_square.wf(),
                forall|j: int|
                    0 <= j < i ==> !(!(#[trigger] enemy.pieces@[j]).taken && reachable(
                        enemy.pieces@[j],
                        king_square,
                        board@,
                    )),
            decreases m - i,
        {
            let piece = enemy.pieces[i];
            if !piece.is_taken() {
                if piece.is_field_reachable(king_square, board).is_ok() {
                    return true;
                }
            }
            i = i + 1;
        }
        false
    }

    /// Recompute the cached in-check flag.
    pub fn update_check(&mut self, enemy: &Player, board: &Board)
        requires
            board.wf(),
            old(self).pieces_wf(),
            enemy.pieces_wf(),
            has_king(old(self).pieces@),
        ensures
            final(self).pieces@ == old(self).pieces@,
            final(self).color == old(self).color,
            final(self).in_check == checked_by(old(self).pieces@, enemy.pieces@, board@),
    {
        let c = self.gets_checked_by(enemy, board);
        self.in_check = c;
    }

    /// Whether the catalog holds a King record at all.  The standard
    /// setup always does; an imported position is only held to a king
    /// total of two, so one side may lack a king and every operation
    /// that looks the king up must be guarded by this test.
    pub fn has_king_record(&self) -> (r: bool)
        ensures
            r == has_king(self.pieces@),
    {
        let n: usize = self.pieces.len();
        let mut i: usize = 0;
        while i < n
            invariant
                i <= n,
                n == self.pieces@.len(),
                forall|j: int| 0 <= j < i ==> !((#[trigger] self.pieces@[j]).piece_type is King),
            decreases n - i,
        {
            if matches!(self.pieces[i].piece_type, PieceTypes::King) {
                return true;
            }
            i = i + 1;
        }
        false
    }

    pub fn get_color(&self) -> (c: Color)
        ensures
            c == self.color,
    {
        self.color
    }

    /// The cached in-check flag, as last recomputed.
    pub fn is_in_check(&self) -> (r: bool)
        ensures
            r == self.in_check,
    {
        self.in_check
    }
}

/// If the scan of `first_king_from` falls off the end of the catalog,
/// no record at or after `i` is a King.
proof fn lemma_first_king_none(s: Seq<Piece>, i: int)
    requires
        0 <= i <= s.len(),
        first_king_from(s, i) == s.len(),
    ensures
        forall|j: int| i <= j < s.len() ==> !((#[trigger] s[j]).piece_type is King),
    decreases s.len() - i,
{
    if i < s.len() {
        lemma_first_king_none(s, i + 1);
    }
}

} // verus!
