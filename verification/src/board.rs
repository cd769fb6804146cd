//! The board: an 8x8 grid of optional occupancy entries.
//!
//! The grid is pure storage: it knows nothing of the movement rules.  A
//! square does not own its piece; it stores a weak back-reference, the
//! owning player's color and the piece's index in that player's catalog.

use vstd::prelude::*;

use crate::piece::{in_bounds, Piece, Position};
use crate::piece::Color;
use crate::player::Player;

verus! {

/// No two of the given records (across both catalogs) share a square.
pub open spec fn positions_distinct(white: Seq<Piece>, black: Seq<Piece>) -> bool {
    &&& forall|i: int, j: int|
        0 <= i < j < white.len() ==> (#[trigger] white[i]).position != (#[trigger] white[j]).position
    &&& forall|i: int, j: int|
        0 <= i < j < black.len() ==> (#[trigger] black[i]).position != (#[trigger] black[j]).position
    &&& forall|i: int, j: int|
        0 <= i < white.len() && 0 <= j < black.len() ==> (#[trigger] white[i]).position != (
        #[trigger] black[j]).position
}

/// A back-reference from a square to the piece standing on it.
#[derive(Clone, Copy, PartialEq, Eq, Structural, Debug)]
pub struct BoardEntry {
    pub player_color: Color,
    pub piece_index: usize,
}

/// The 8x8 grid, stored flat in column-major order: the square `(x, y)`
/// lives at index `x * 8 + y`.
pub struct Board {
    pub grid: Vec<Option<BoardEntry>>,
}

/// The entry a grid holds at `(x, y)`; `None` off the board.
pub open spec fn at2(b: Seq<Option<BoardEntry>>, x: int, y: int) -> Option<BoardEntry> {
    if in_bounds(x, y) {
        b[x * 8 + y]
    } else {
        None
    }
}

impl View for Board {
    type V = Seq<Option<BoardEntry>>;

    open spec fn view(&self) -> Seq<Option<BoardEntry>> {
        self.grid@
    }
}

impl Board {
    /// A grid of the right size.
    pub open spec fn wf(self) -> bool {
        self.grid@.len() == 64
    }

    /// The entry at `pos`, as a spec-level shorthand.
    pub open spec fn spec_at(self, pos: Position) -> Option<BoardEntry> {
        at2(self@, pos.x as int, pos.y as int)
    }

    /// An empty board.
    pub fn new() -> (b: Board)
        ensures
            b.wf(),
            forall|x: int, y: int| in_bounds(x, y) ==> at2(b@, x, y) is None,
    {
        let mut grid: Vec<Option<BoardEntry>> = Vec::new();
        let mut i: usize = 0;
        while i < 64
            invariant
                i <= 64,
                grid@.len() == i,
                forall|j: int| 0 <= j < i ==> grid@[j] is None,
            decreases 64 - i,
        {
            grid.push(None);
            i = i + 1;
        }
        Board { grid }
    }

    /// Enter every piece of both catalogs on its square.  Meant for a
    /// fresh, empty grid whose catalogs hold no captured piece and no
    /// two pieces on one square; afterwards grid and catalogs are in
    /// exact correspondence.
    #[verifier::loop_isolation(false)]
    pub fn init_grid(&mut self, white: &Player, black: &Player)
        requires
            old(self).wf(),
            forall|x: int, y: int| in_bounds(x, y) ==> at2(old(self)@, x, y) is None,
            white.color is White,
            black.color is Black,
            white.pieces_wf(),
            black.pieces_wf(),
            forall|i: int| 0 <= i < white.pieces@.len() ==> !(#[trigger] white.pieces@[i]).taken,
            forall|i: int| 0 <= i < black.pieces@.len() ==> !(#[trigger] black.pieces@[i]).taken,
            positions_distinct(white.pieces@, black.pieces@),
        ensures
            final(self).wf(),
            forall|i: int|
                0 <= i < white.pieces@.len() ==> at2(
                    final(self)@,
                    (#[trigger] white.pieces@[i]).position.x as int,
                    white.pieces@[i].position.y as int,
                ) == Some(BoardEntry { player_color: Color::White, piece_index: i as usize }),
            forall|i: int|
                0 <= i < black.pieces@.len() ==> at2(
                    final(self)@,
                    (#[trigger] black.pieces@[i]).position.x as int,
                    black.pieces@[i].position.y as int,
                ) == Some(BoardEntry { player_color: Color::Black, piece_index: i as usize }),
            forall|x: int, y: int|
                in_bounds(x, y) ==> match at2(final(self)@, x, y) {
                    Some(e) => {
                        let cat = if e.player_color is White {
                            white.pieces@
                        } else {
                            black.pieces@
                        };
                        0 <= e.piece_index < cat.len() && cat[e.piece_index as int].position
                            == (Position { x: x as usize, y: y as usize })
                    },
                    None => true,
                },
    {
        let wn: usize = white.pieces.len();
        let mut i: usize = 0;
        while i < wn
            invariant
                i <= wn,
                self.wf(),
                forall|k: int|
                    0 <= k < i ==> at2(
                        self@,
                        (#[trigger] white.pieces@[k]).position.x as int,
                        white.pieces@[k].position.y as int,
                    ) == Some(BoardEntry { player_color: Color::White, piece_index: k as usize }),
                forall|x: int, y: int|
                    in_bounds(x, y) ==> match at2(self@, x, y) {
                        Some(e) => e.player_color is White && 0 <= e.piece_index < i
                            && white.pieces@[e.piece_index as int].position == (Position {
                            x: x as usize,
                            y: y as usize,
                        }),
                        None => true,
                    },
            decreases wn - i,
        {
            let pos = white.pieces[i].get_position();
            let ghost pre = self@;
            self.set_board_entry(
                pos,
                Some(BoardEntry { player_color: Color::White, piece_index: i }),
            );
            proof {
                lemma_at2_update(
                    pre,
                    pos,
                    Some(BoardEntry { player_color: Color::White, piece_index: i }),
                );
            }
            i = i + 1;
        }
        let bn: usize = black.pieces.len();
        let mut j: usize = 0;
        while j < bn
            invariant
                j <= bn,
                self.wf(),
                forall|k: int|
                    0 <= k < white.pieces@.len() ==> at2(
                        self@,
                        (#[trigger] white.pieces@[k]).position.x as int,
                        white.pieces@[k].position.y as int,
                    ) == Some(BoardEntry { player_color: Color::White, piece_index: k as usize }),
                forall|k: int|
                    0 <= k < j ==> at2(
                        self@,
                        (#[trigger] black.pieces@[k]).position.x as int,
                        black.pieces@[k].position.y as int,
                    ) == Some(BoardEntry { player_color: Color::Black, piece_index: k as usize }),
                forall|x: int, y: int|
                    in_bounds(x, y) ==> match at2(self@, x, y) {
                        Some(e) => {
                            ||| (e.player_color is White && 0 <= e.piece_index
                                < white.pieces@.len()
                                && white.pieces@[e.piece_index as int].position == (Position {
                                x: x as usize,
                                y: y as usize,
                            }))
                            ||| (e.player_color is Black && 0 <= e.piece_index < j
                                && black.pieces@[e.piece_index as int].position == (Position {
                                x: x as usize,
                                y: y as usize,
                            }))
                        },
                        None => true,
                    },
            decreases bn - j,
        {
            let pos = black.pieces[j].get_position();
            let ghost pre = self@;
            self.set_board_entry(
                pos,
                Some(BoardEntry { player_color: Color::Black, piece_index: j }),
            );
            proof {
                lemma_at2_update(
                    pre,
                    pos,
                    Some(BoardEntry { player_color: Color::Black, piece_index: j }),
                );
            }
            j = j + 1;
        }
    }

    /// The entry at `pos`.
    pub fn get_board_entry(&self, pos: Position) -> (r: Option<BoardEntry>)
        requires
            self.wf(),
            pos.wf(),
        ensures
            r == self.spec_at(pos),
    {
        self.grid[pos.x * 8 + pos.y]
    }

    /// Overwrite the entry at `pos`.  No validation happens here; the
    /// callers are responsible for keeping grid and catalogs in step.
    pub fn set_board_entry(&mut self, pos: Position, entry: Option<BoardEntry>)
        requires
            old(self).wf(),
            pos.wf(),
        ensures
            final(self).wf(),
            final(self)@ == old(self)@.update(pos.x as int * 8 + pos.y as int, entry),
    {
        let i: usize = pos.x * 8 + pos.y;
        self.grid.set(i, entry);
    }
}

/// How `set_board_entry` reads back through `at2`: the written square
/// holds the new entry and every other square is untouched.
pub proof fn lemma_at2_update(b: Seq<Option<BoardEntry>>, pos: Position, entry: Option<
    BoardEntry,
>)
    requires
        b.len() == 64,
        pos.wf(),
    ensures
        forall|x: int, y: int|
            in_bounds(x, y) ==> at2(b.update(pos.x as int * 8 + pos.y as int, entry), x, y) == (
            if x == pos.x as int && y == pos.y as int {
                entry
            } else {
                at2(b, x, y)
            }),
{
    assert forall|x: int, y: int| in_bounds(x, y) implies at2(
        b.update(pos.x as int * 8 + pos.y as int, entry),
        x,
        y,
    ) == (if x == pos.x as int && y == pos.y as int {
        entry
    } else {
        at2(b, x, y)
    }) by {
        if x != pos.x as int || y != pos.y as int {
            assert(x * 8 + y != pos.x as int * 8 + pos.y as int);
        }
    }
}

} // verus!
