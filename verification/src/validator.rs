//! The check-safety validator and the move transaction it is built on.
//!
//! A candidate move is applied speculatively — capture the piece on the
//! target square (if any), move the source piece, rewrite the two board
//! cells — the attacked-king test is run, and the mutation is then
//! unconditionally reverted.  The rollback is the core contract here:
//! the validator leaves board and both catalogs exactly as it found
//! them, whatever it answers.

use vstd::prelude::*;

use crate::board::{at2, lemma_at2_update, Board, BoardEntry};
use crate::piece::{Color, Piece, Position};
use crate::player::{checked_by, has_king, Player};

verus! {

/// The mathematical value of the mutable state the engine owns: the
/// grid and the two catalogs.
#[verifier::ext_equal]
pub struct StateView {
    pub board: Seq<Option<BoardEntry>>,
    pub white: Seq<Piece>,
    pub black: Seq<Piece>,
}

/// Every record of `pieces` carries color `c` and stands on a real
/// square.
pub open spec fn pieces_wf_seq(pieces: Seq<Piece>, c: Color) -> bool {
    forall|i: int|
        0 <= i < pieces.len() ==> (#[trigger] pieces[i]).color == c && pieces[i].position.wf()
}

impl StateView {
    /// The catalog of side `c`.
    pub open spec fn cat(self, c: Color) -> Seq<Piece> {
        if c is White {
            self.white
        } else {
            self.black
        }
    }

    /// The entry of the square `p`.
    pub open spec fn at(self, p: Position) -> Option<BoardEntry> {
        at2(self.board, p.x as int, p.y as int)
    }

    /// A square's entry names a live piece of the stated color standing
    /// on that very square.
    pub open spec fn entry_ok(self, x: int, y: int) -> bool {
        match at2(self.board, x, y) {
            None => true,
            Some(e) => {
                let cat = self.cat(e.player_color);
                &&& 0 <= e.piece_index < cat.len()
                &&& !cat[e.piece_index as int].taken
                &&& cat[e.piece_index as int].position == (Position {
                    x: x as usize,
                    y: y as usize,
                })
            },
        }
    }

    /// Every non-captured record of side `c` is entered on the board at
    /// its own square.
    pub open spec fn cat_on_board(self, c: Color) -> bool {
        forall|i: int|
            0 <= i < self.cat(c).len() && !(#[trigger] self.cat(c)[i]).taken ==> at2(
                self.board,
                self.cat(c)[i].position.x as int,
                self.cat(c)[i].position.y as int,
            ) == Some(BoardEntry { player_color: c, piece_index: i as usize })
    }

    /// The occupancy invariant: the set of occupied squares corresponds
    /// one to one with the set of non-captured records of both catalogs.
    pub open spec fn wf(self) -> bool {
        &&& self.board.len() == 64
        &&& self.white.len() <= usize::MAX
        &&& self.black.len() <= usize::MAX
        &&& pieces_wf_seq(self.white, Color::White)
        &&& pieces_wf_seq(self.black, Color::Black)
        &&& forall|x: int, y: int| crate::piece::in_bounds(x, y) ==> self.entry_ok(x, y)
        &&& self.cat_on_board(Color::White)
        &&& self.cat_on_board(Color::Black)
    }

    /// What a move needs of the state before it can even be simulated:
    /// real squares, a piece of the mover on the source square, and a
    /// target square that is empty or holds an enemy piece.
    pub open spec fn move_prereq(self, mc: Color, from: Position, to: Position) -> bool {
        &&& from.wf()
        &&& to.wf()
        &&& match self.at(from) {
            Some(e) => e.player_color == mc,
            None => false,
        }
        &&& match self.at(to) {
            Some(e) => e.player_color != mc,
            None => true,
        }
    }

    /// The state after committing the move `(from, to)` of side `mc`:
    /// the piece on `to` (if any) is flagged captured, the piece on
    /// `from` is moved, the `from` cell is cleared and the `to` cell
    /// takes the mover's entry.
    pub open spec fn apply(self, mc: Color, from: Position, to: Position) -> StateView {
        match self.at(from) {
            None => self,
            Some(src) => {
                let captured = self.take_at(to);
                let moved = captured.move_record(mc, src.piece_index as int, to);
                StateView {
                    board: moved.board.update(from.x as int * 8 + from.y as int, None).update(
                        to.x as int * 8 + to.y as int,
                        Some(src),
                    ),
                    ..moved
                }
            },
        }
    }

    /// Flag the piece entered on square `p` (if any) as captured.
    pub open spec fn take_at(self, p: Position) -> StateView {
        match self.at(p) {
            None => self,
            Some(e) => self.update_cat(
                e.player_color,
                e.piece_index as int,
                Piece {
                    taken: true,
                    position: Position { x: 0, y: 0 },
                    ..self.cat(e.player_color)[e.piece_index as int]
                },
            ),
        }
    }

    /// Move the record `i` of side `c` to square `p`.
    pub open spec fn move_record(self, c: Color, i: int, p: Position) -> StateView {
        self.update_cat(c, i, Piece { position: p, ..self.cat(c)[i] })
    }

    /// Replace record `i` of side `c`.
    pub open spec fn update_cat(self, c: Color, i: int, piece: Piece) -> StateView {
        if c is White {
            StateView { white: self.white.update(i, piece), ..self }
        } else {
            StateView { black: self.black.update(i, piece), ..self }
        }
    }

    /// The king of side `c` is attacked under this state.
    pub open spec fn in_check_of(self, c: Color) -> bool {
        checked_by(self.cat(c), self.cat(c.spec_other()), self.board)
    }

    /// Committing `(from, to)` would leave the mover's own king
    /// attacked.
    pub open spec fn causes_check(self, mc: Color, from: Position, to: Position) -> bool {
        self.apply(mc, from, to).in_check_of(mc)
    }
}

/// Committing a screened move keeps the occupancy invariant: afterwards
/// the occupied squares still correspond one to one with the
/// non-captured records of the two catalogs.
#[verifier::rlimit(60)]
pub proof fn lemma_apply_preserves_wf(s: StateView, mc: Color, from: Position, to: Position)
    requires
        s.wf(),
        s.move_prereq(mc, from, to),
    ensures
        s.apply(mc, from, to).wf(),
{
    assert(s.entry_ok(from.x as int, from.y as int));
    assert(s.entry_ok(to.x as int, to.y as int));
    assert(from != to);
    let src = s.at(from)->0;
    let post = s.apply(mc, from, to);
    let mid = s.take_at(to).move_record(mc, src.piece_index as int, to);
    assert(mid.board == s.board);
    lemma_at2_update(s.board, from, None);
    lemma_at2_update(s.board.update(from.x as int * 8 + from.y as int, None), to, Some(src));
    assert(forall|x: int, y: int|
        crate::piece::in_bounds(x, y) ==> at2(post.board, x, y) == (if x == to.x as int && y
            == to.y as int {
            Some(src)
        } else if x == from.x as int && y == from.y as int {
            None
        } else {
            at2(s.board, x, y)
        }));
    assert(pieces_wf_seq(post.white, Color::White));
    assert(pieces_wf_seq(post.black, Color::Black));
    assert forall|x: int, y: int| crate::piece::in_bounds(x, y) implies post.entry_ok(x, y) by {
        assert(s.entry_ok(x, y));
        match at2(post.board, x, y) {
            None => {},
            Some(e) => {
                if x == to.x as int && y == to.y as int {
                    assert(e == src);
                } else {
                    // an untouched square: its entry cannot name either
                    // updated record, whose old squares were `from` / `to`
                    if e.player_color == mc && e.piece_index == src.piece_index {
                        assert(s.cat(mc)[e.piece_index as int].position == from);
                        assert(false);
                    }
                    match s.at(to) {
                        Some(d) => {
                            if e.player_color == d.player_color && e.piece_index
                                == d.piece_index {
                                assert(s.cat(d.player_color)[d.piece_index as int].position
                                    == to);
                                assert(false);
                            }
                        },
                        None => {},
                    }
                }
            },
        }
    }
    assert forall|c: Color, i: int|
        0 <= i < post.cat(c).len() && !(#[trigger] post.cat(c)[i]).taken implies at2(
        post.board,
        post.cat(c)[i].position.x as int,
        post.cat(c)[i].position.y as int,
    ) == Some(BoardEntry { player_color: c, piece_index: i as usize }) by {
        assert(s.cat(c)[i].color == c);
        if c == mc && i == src.piece_index as int {
            assert(post.cat(c)[i].position == to);
        } else {
            let is_captured = match s.at(to) {
                Some(d) => c == d.player_color && i == d.piece_index as int,
                None => false,
            };
            if is_captured {
                assert(post.cat(c)[i].taken);
            } else {
                assert(post.cat(c)[i] == s.cat(c)[i]);
                let p = s.cat(c)[i].position;
                assert(at2(s.board, p.x as int, p.y as int) == Some(
                    BoardEntry { player_color: c, piece_index: i as usize },
                ));
                if p == from {
                    assert(at2(s.board, p.x as int, p.y as int) == s.at(from));
                    assert(src.player_color == mc && c == mc && i == src.piece_index as int);
                    assert(false);
                }
                if p == to {
                    assert(at2(s.board, p.x as int, p.y as int) == s.at(to));
                    assert(false);
                }
            }
        }
    }
    assert(post.cat_on_board(Color::White));
    assert(post.cat_on_board(Color::Black));
}

/// The state the three exec pieces of the engine add up to.
pub open spec fn state_of(board: Board, player: Player, enemy: Player) -> StateView {
    if player.color is White {
        StateView { board: board@, white: player.pieces@, black: enemy.pieces@ }
    } else {
        StateView { board: board@, white: enemy.pieces@, black: player.pieces@ }
    }
}

/// Commit the already-screened move `(from, to)` of `player`: flag the
/// captured enemy piece, move the mover's record, rewrite both board
/// cells.  Returns whether the mover's king is attacked afterwards.
pub fn commit_move(
    player: &mut Player,
    enemy: &mut Player,
    board: &mut Board,
    from: Position,
    to: Position,
) -> (r: bool)
    requires
        old(board).wf(),
        from.wf(),
        to.wf(),
        old(player).pieces_wf(),
        old(enemy).pieces_wf(),
        old(player).color != old(enemy).color,
        has_king(old(player).pieces@),
        match state_of(*old(board), *old(player), *old(enemy)).at(from) {
            Some(e) => e.player_color == old(player).color && e.piece_index < old(
                player,
            ).pieces@.len(),
            None => false,
        },
        match state_of(*old(board), *old(player), *old(enemy)).at(to) {
            Some(e) => e.player_color == old(enemy).color && e.piece_index < old(
                enemy,
            ).pieces@.len() && !old(enemy).pieces@[e.piece_index as int].taken,
            None => true,
        },
    ensures
        final(player).color == old(player).color,
        final(player).in_check == old(player).in_check,
        final(enemy).color == old(enemy).color,
        final(enemy).in_check == old(enemy).in_check,
        state_of(*final(board), *final(player), *final(enemy)) == state_of(
            *old(board),
            *old(player),
            *old(enemy),
        ).apply(old(player).color, from, to),
        r == state_of(*old(board), *old(player), *old(enemy)).apply(
            old(player).color,
            from,
            to,
        ).in_check_of(old(player).color),
{
    let ghost pre = state_of(*old(board), *old(player), *old(enemy));
    let ghost mc = player.color;
    if let Some(dest_entry) = board.get_board_entry(to) {
        enemy.take_piece(dest_entry.piece_index);
    }
    proof {
        assert(state_of(*board, *player, *enemy) =~= pre.take_at(to));
    }
    let src_entry = board.get_board_entry(from).unwrap();
    player.update_piece_position(src_entry.piece_index, to);
    proof {
        assert(state_of(*board, *player, *enemy) =~= pre.take_at(to).move_record(
            mc,
            src_entry.piece_index as int,
            to,
        ));
    }
    board.set_board_entry(from, None);
    board.set_board_entry(to, Some(src_entry));
    proof {
        assert(state_of(*board, *player, *enemy) =~= pre.apply(mc, from, to));
        assert(has_king(player.pieces@)) by {
            let i = choose|i: int|
                0 <= i < old(player).pieces@.len() && old(
                    player,
                ).pieces@[i].piece_type is King;
            assert(player.pieces@[i].piece_type is King);
        }
    }
    player.gets_checked_by(enemy, board)
}

/// Revert exactly the mutation `commit_move` made, given the two cell
/// contents recorded before it ran.
pub fn revert_move(
    player: &mut Player,
    enemy: &mut Player,
    board: &mut Board,
    from: Position,
    to: Position,
    src_entry: BoardEntry,
    opt_dest_entry: Option<BoardEntry>,
)
    requires
        old(board).wf(),
        from.wf(),
        to.wf(),
        src_entry.piece_index < old(player).pieces@.len(),
        match opt_dest_entry {
            Some(e) => e.piece_index < old(enemy).pieces@.len() && old(
                enemy,
            ).pieces@[e.piece_index as int].taken,
            None => true,
        },
    ensures
        final(board).wf(),
        final(board)@ == old(board)@.update(from.x as int * 8 + from.y as int, Some(src_entry))
            .update(to.x as int * 8 + to.y as int, opt_dest_entry),
        final(player).pieces@ == old(player).pieces@.update(
            src_entry.piece_index as int,
            Piece {
                position: from,
                ..old(player).pieces@[src_entry.piece_index as int]
            },
        ),
        final(enemy).pieces@ == match opt_dest_entry {
            Some(e) => old(enemy).pieces@.update(
                e.piece_index as int,
                Piece {
                    taken: false,
                    position: to,
                    ..old(enemy).pieces@[e.piece_index as int]
                },
            ),
            None => old(enemy).pieces@,
        },
        final(player).color == old(player).color,
        final(player).in_check == old(player).in_check,
        final(enemy).color == old(enemy).color,
        final(enemy).in_check == old(enemy).in_check,
{
    if let Some(dest_entry) = opt_dest_entry {
        enemy.untake_piece(dest_entry.piece_index, to);
    }
    player.update_piece_position(src_entry.piece_index, from);
    board.set_board_entry(from, Some(src_entry));
    board.set_board_entry(to, opt_dest_entry);
}

/// The check-safety validator: would committing `(from, to)` leave the
/// mover's own king attacked?  The move is applied, judged and reverted;
/// on every return path board and both catalogs are left exactly as
/// they were.
pub fn would_cause_check(
    player: &mut Player,
    enemy: &mut Player,
    board: &mut Board,
    from: Position,
    to: Position,
) -> (r: bool)
    requires
        old(board).wf(),
        old(player).pieces_wf(),
        old(enemy).pieces_wf(),
        old(player).color != old(enemy).color,
        has_king(old(player).pieces@),
        state_of(*old(board), *old(player), *old(enemy)).wf(),
        state_of(*old(board), *old(player), *old(enemy)).move_prereq(
            old(player).color,
            from,
            to,
        ),
    ensures
        final(player).pieces@ == old(player).pieces@,
        final(player).color == old(player).color,
        final(player).in_check == old(player).in_check,
        final(enemy).pieces@ == old(enemy).pieces@,
        final(enemy).color == old(enemy).color,
        final(enemy).in_check == old(enemy).in_check,
        final(board)@ == old(board)@,
        r == state_of(*old(board), *old(player), *old(enemy)).causes_check(
            old(player).color,
            from,
            to,
        ),
{
    let ghost pre = state_of(*old(board), *old(player), *old(enemy));
    proof {
        assert(pre.entry_ok(from.x as int, from.y as int));
        assert(pre.entry_ok(to.x as int, to.y as int));
    }
    let src_entry = board.get_board_entry(from).unwrap();
    let opt_dest_entry = board.get_board_entry(to);
    let now_in_check = commit_move(player, enemy, board, from, to);
    revert_move(player, enemy, board, from, to, src_entry, opt_dest_entry);
    proof {
        assert(board@ =~= old(board)@);
        assert(player.pieces@ =~= old(player).pieces@);
        assert(enemy.pieces@ =~= old(enemy).pieces@);
    }
    now_in_check
}

/// `p` is a destination square piece `i` of side `mc` may legally move
/// to: the record is live, the movement rules accept the move and it
/// does not leave the mover's own king attacked.
pub open spec fn live_legal(
    s: StateView,
    mc: Color,
    pieces: Seq<Piece>,
    i: int,
    p: Position,
) -> bool {
    &&& 0 <= i < pieces.len()
    &&& !pieces[i].taken
    &&& p.wf()
    &&& crate::rules::reachable(pieces[i], p, s.board)
    &&& !s.causes_check(mc, pieces[i].position, p)
}

/// Side `mc` has at least one legal move.
pub open spec fn has_legal_move(s: StateView, mc: Color, pieces: Seq<Piece>) -> bool {
    exists|i: int, p: Position| live_legal(s, mc, pieces, i, p)
}

/// The full legal destination set of one piece: its pseudo-legal
/// destinations, with every move the check-safety validator refuses
/// removed.  Board and catalogs are left exactly as found.
pub fn legal_destinations(
    piece: Piece,
    player: &mut Player,
    enemy: &mut Player,
    board: &mut Board,
) -> (r: Vec<Position>)
    requires
        old(board).wf(),
        old(player).pieces_wf(),
        old(enemy).pieces_wf(),
        old(player).color != old(enemy).color,
        has_king(old(player).pieces@),
        state_of(*old(board), *old(player), *old(enemy)).wf(),
        piece.color == old(player).color,
        piece.position.wf(),
        match state_of(*old(board), *old(player), *old(enemy)).at(piece.position) {
            Some(e) => e.player_color == old(player).color,
            None => false,
        },
    ensures
        final(player).pieces@ == old(player).pieces@,
        final(player).color == old(player).color,
        final(player).in_check == old(player).in_check,
        final(enemy).pieces@ == old(enemy).pieces@,
        final(enemy).color == old(enemy).color,
        final(enemy).in_check == old(enemy).in_check,
        final(board)@ == old(board)@,
        forall|p: Position| #[trigger]
            r@.contains(p) <==> (p.wf() && crate::rules::reachable(piece, p, old(board)@)
                && !state_of(*old(board), *old(player), *old(enemy)).causes_check(
                old(player).color,
                piece.position,
                p,
            )),
        forall|i: int, j: int| 0 <= i < j < r@.len() ==> r@[i] != r@[j],
{
    let ghost pre = state_of(*old(board), *old(player), *old(enemy));
    let ghost mc = old(player).color;
    let candidates = piece.get_reachable_positions(board);
    let mut out: Vec<Position> = Vec::new();
    let mut i: usize = 0;
    let n: usize = candidates.len();
    while i < n
        invariant
            n == candidates@.len(),
            i <= n,
            board.wf(),
            player.pieces_wf(),
            enemy.pieces_wf(),
            player.color != enemy.color,
            has_king(player.pieces@),
            player.pieces@ == old(player).pieces@,
            player.color == old(player).color,
            player.in_check == old(player).in_check,
            enemy.pieces@ == old(enemy).pieces@,
            enemy.color == old(enemy).color,
            enemy.in_check == old(enemy).in_check,
            board@ == old(board)@,
            state_of(*board, *player, *enemy) == pre,
            pre.wf(),
            mc == player.color,
            piece.color == mc,
            piece.position.wf(),
            match pre.at(piece.position) {
                Some(e) => e.player_color == mc,
                None => false,
            },
            forall|p: Position| #[trigger]
                candidates@.contains(p) ==> p.wf() && crate::rules::reachable(
                    piece,
                    p,
                    board@,
                ),
            forall|p: Position|
                p.wf() && crate::rules::reachable(piece, p, board@) ==> candidates@.contains(
                    p,
                ),
            forall|k1: int, k2: int|
                0 <= k1 < k2 < candidates@.len() ==> candidates@[k1] != candidates@[k2],
            forall|p: Position| #[trigger]
                out@.contains(p) ==> !pre.causes_check(mc, piece.position, p) && exists|j: int|
                    0 <= j < i && candidates@[j] == p,
            forall|j: int|
                0 <= j < i && !pre.causes_check(mc, piece.position, #[trigger] candidates@[j])
                    ==> out@.contains(candidates@[j]),
            forall|k1: int, k2: int| 0 <= k1 < k2 < out@.len() ==> out@[k1] != out@[k2],
        decreases n - i,
    {
        let p = candidates[i];
        proof {
            assert(candidates@.contains(candidates@[i as int]));
            crate::rules::lemma_reachable_target(piece, p, board@);
        }
        let causes = would_cause_check(player, enemy, board, piece.position, p);
        proof {
            assert(state_of(*board, *player, *enemy) =~= pre);
        }
        if !causes {
            let ghost before = out@;
            out.push(p);
            proof {
                assert(out@[before.len() as int] == p);
                assert(forall|k: int| 0 <= k < before.len() ==> out@[k] == before[k]);
                assert forall|q: Position| #[trigger] out@.contains(q) implies (q == p
                    || before.contains(q)) by {
                    let k = choose|k: int| 0 <= k < out@.len() && out@[k] == q;
                    if k < before.len() {
                        assert(before[k] == q);
                    }
                }
                assert(forall|q: Position| #[trigger]
                    before.contains(q) ==> out@.contains(q));
                assert(out@.contains(p));
                assert forall|k: int| 0 <= k < before.len() implies before[k] != p by {
                    assert(before.contains(before[k]));
                    let j = choose|j: int| 0 <= j < i && candidates@[j] == before[k];
                    assert(candidates@[j] == before[k]);
                    if before[k] == p {
                        assert(candidates@[j] == candidates@[i as int]);
                        assert(false);
                    }
                }
            }
        }
        i = i + 1;
    }
    proof {
        assert forall|p: Position| #[trigger]
            out@.contains(p) <==> (p.wf() && crate::rules::reachable(piece, p, old(board)@)
                && !pre.causes_check(mc, piece.position, p)) by {
            if p.wf() && crate::rules::reachable(piece, p, old(board)@) && !pre.causes_check(
                mc,
                piece.position,
                p,
            ) {
                assert(candidates@.contains(p));
                let j = choose|j: int| 0 <= j < candidates@.len() && candidates@[j] == p;
                assert(out@.contains(candidates@[j]));
            }
            if out@.contains(p) {
                let j = choose|j: int| 0 <= j < i && candidates@[j] == p;
                assert(candidates@.contains(candidates@[j]));
            }
        }
    }
    out
}

} // verus!
